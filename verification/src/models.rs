//! Data carried through the scanner: one device's reading, the fleet
//! registry entry built from it, saved ranges, and operator-facing state.

use vstd::prelude::*;

use crate::fmt::{dec_rep, fixed1_rep, fixed2_rep, fixed1_to_string, fixed2_to_string, u64_to_string};
use crate::ip::IpAddress;

verus! {

/// The numeric portion of one device reading, held in fixed-point form:
/// hashrates in hundredths of a TH/s, efficiency in hundredths of a
/// W/TH, temperatures in hundredths of a degree, power in whole watts,
/// fan speeds in whole RPM. A missing sensor value is `None`.
#[derive(Clone, Debug)]
pub struct MinerMetrics {
    pub mac: Option<String>,
    pub hashrate_centi_ths: Option<u64>,
    pub wattage_watts: Option<u64>,
    pub efficiency_centi: Option<u64>,
    pub avg_temp_centi: Option<u64>,
    pub board_hashrate_centi: Vec<Option<u64>>,
    pub board_temp_centi: Vec<Option<u64>>,
    pub fan_rpm: Vec<Option<u64>>,
}

impl MinerMetrics {
    /// Per-board readings come in lockstep: one hashrate and one
    /// temperature slot per board.
    pub open spec fn wf(self) -> bool {
        self.board_temp_centi@.len() == self.board_hashrate_centi@.len()
    }

    pub open spec fn board_count(self) -> nat {
        self.board_hashrate_centi@.len()
    }

    pub open spec fn fan_count(self) -> nat {
        self.fan_rpm@.len()
    }
}

/// What a display field shows when the sensor gave nothing.
pub open spec fn na_rep() -> Seq<char> {
    "N/A"@
}

pub open spec fn hashrate_display_rep(h: Option<u64>) -> Seq<char> {
    match h {
        Some(c) => fixed2_rep(c as nat) + " TH/s"@,
        None => na_rep(),
    }
}

pub open spec fn wattage_display_rep(w: Option<u64>) -> Seq<char> {
    match w {
        Some(v) => dec_rep(v as nat) + " W"@,
        None => na_rep(),
    }
}

/// Efficiency is shown to one decimal place, the hundredths digit cut.
pub open spec fn efficiency_display_rep(e: Option<u64>) -> Seq<char> {
    match e {
        Some(v) => fixed1_rep((v / 10) as nat),
        None => na_rep(),
    }
}

/// Temperature is shown to one decimal place, the hundredths digit cut.
pub open spec fn temperature_display_rep(t: Option<u64>) -> Seq<char> {
    match t {
        Some(v) => fixed1_rep((v / 10) as nat) + "°C"@,
        None => na_rep(),
    }
}

/// The fan column shows the first fan's speed, when one reported.
pub open spec fn fan_display_rep(fans: Seq<Option<u64>>) -> Seq<char> {
    if fans.len() > 0 && fans[0] is Some {
        dec_rep(fans[0]->0 as nat) + " RPM"@
    } else {
        na_rep()
    }
}

pub fn hashrate_display(h: &Option<u64>) -> (r: String)
    ensures
        r@ == hashrate_display_rep(*h),
{
    match h {
        Some(c) => {
            let mut s = fixed2_to_string(*c);
            s.append(" TH/s");
            s
        },
        None => String::from_str("N/A"),
    }
}

pub fn wattage_display(w: &Option<u64>) -> (r: String)
    ensures
        r@ == wattage_display_rep(*w),
{
    match w {
        Some(v) => {
            let mut s = u64_to_string(*v);
            s.append(" W");
            s
        },
        None => String::from_str("N/A"),
    }
}

pub fn efficiency_display(e: &Option<u64>) -> (r: String)
    ensures
        r@ == efficiency_display_rep(*e),
{
    match e {
        Some(v) => fixed1_to_string(*v / 10),
        None => String::from_str("N/A"),
    }
}

pub fn temperature_display(t: &Option<u64>) -> (r: String)
    ensures
        r@ == temperature_display_rep(*t),
{
    match t {
        Some(v) => {
            let mut s = fixed1_to_string(*v / 10);
            s.append("°C");
            s
        },
        None => String::from_str("N/A"),
    }
}

pub fn fan_display(fans: &Vec<Option<u64>>) -> (r: String)
    ensures
        r@ == fan_display_rep(fans@),
{
    if fans.len() > 0 {
        match &fans[0] {
            Some(v) => {
                let mut s = u64_to_string(*v);
                s.append(" RPM");
                return s;
            },
            None => {},
        }
    }
    String::from_str("N/A")
}

/// One registry entry: the identity of a device found on the network,
/// the display strings derived from its latest reading, and the reading
/// itself when a detailed one has been fetched.
#[derive(Clone, Debug)]
pub struct MinerInfo {
    pub ip: IpAddress,
    pub hostname: String,
    pub model: String,
    pub firmware_version: String,
    pub control_board: String,
    pub hashrate: String,
    pub wattage: String,
    pub efficiency: String,
    pub temperature: String,
    pub fan_speed: String,
    pub pool: String,
    pub worker: String,
    pub light_flashing: bool,
    pub metrics: Option<MinerMetrics>,
}

impl MinerInfo {
    /// Builds an entry from a reading, deriving every display field from
    /// the fixed-point metrics.
    #[allow(clippy::too_many_arguments)]
    pub fn from_metrics(
        ip: IpAddress,
        hostname: String,
        model: String,
        firmware_version: String,
        control_board: String,
        pool: String,
        worker: String,
        light_flashing: bool,
        metrics: MinerMetrics,
    ) -> (r: MinerInfo)
        ensures
            r.ip == ip,
            r.hostname == hostname,
            r.model == model,
            r.firmware_version == firmware_version,
            r.control_board == control_board,
            r.pool == pool,
            r.worker == worker,
            r.light_flashing == light_flashing,
            r.metrics matches Some(m) && m == metrics,
            r.hashrate@ == hashrate_display_rep(metrics.hashrate_centi_ths),
            r.wattage@ == wattage_display_rep(metrics.wattage_watts),
            r.efficiency@ == efficiency_display_rep(metrics.efficiency_centi),
            r.temperature@ == temperature_display_rep(metrics.avg_temp_centi),
            r.fan_speed@ == fan_display_rep(metrics.fan_rpm@),
    {
        let hashrate = hashrate_display(&metrics.hashrate_centi_ths);
        let wattage = wattage_display(&metrics.wattage_watts);
        let efficiency = efficiency_display(&metrics.efficiency_centi);
        let temperature = temperature_display(&metrics.avg_temp_centi);
        let fan_speed = fan_display(&metrics.fan_rpm);
        MinerInfo {
            ip,
            hostname,
            model,
            firmware_version,
            control_board,
            hashrate,
            wattage,
            efficiency,
            temperature,
            fan_speed,
            pool,
            worker,
            light_flashing,
            metrics: Some(metrics),
        }
    }
}

/// Efficiency in hundredths of a W/TH derived from whole watts and a
/// hashrate in hundredths of a TH/s; saturates at the largest value and
/// is absent when the hashrate is zero.
pub open spec fn derived_efficiency_spec(wattage: u64, hashrate_centi: u64) -> Option<u64> {
    if hashrate_centi == 0 {
        None
    } else if wattage * 10000 / (hashrate_centi as int) > u64::MAX {
        Some(u64::MAX)
    } else {
        Some((wattage * 10000 / (hashrate_centi as int)) as u64)
    }
}

pub fn derived_efficiency_centi(wattage: u64, hashrate_centi: u64) -> (r: Option<u64>)
    ensures
        r == derived_efficiency_spec(wattage, hashrate_centi),
{
    if hashrate_centi == 0 {
        None
    } else {
        let q: u128 = (wattage as u128) * 10000 / (hashrate_centi as u128);
        if q > u64::MAX as u128 {
            Some(u64::MAX)
        } else {
            Some(q as u64)
        }
    }
}

/// A named range kept in the configuration.
#[derive(Clone, Debug)]
pub struct SavedRange {
    pub name: String,
    pub range: String,
}

#[derive(Clone, Copy, PartialEq, Eq, Structural, Debug)]
pub enum SortColumn {
    Ip,
    Hostname,
    Model,
    Firmware,
    ControlBoard,
    Hashrate,
    Wattage,
    Efficiency,
    Temperature,
    FanSpeed,
    Pool,
    Worker,
}

#[derive(Clone, Copy, PartialEq, Eq, Structural, Debug)]
pub enum SortDirection {
    Ascending,
    Descending,
}

/// Clicking the column already sorted flips the direction; clicking
/// another column sorts it ascending.
pub fn toggle_sort(
    sort_column: Option<SortColumn>,
    sort_direction: SortDirection,
    clicked: SortColumn,
) -> (r: (Option<SortColumn>, SortDirection))
    ensures
        r.0 == Some(clicked),
        sort_column == Some(clicked) ==> r.1 == (if sort_direction is Ascending {
            SortDirection::Descending
        } else {
            SortDirection::Ascending
        }),
        sort_column != Some(clicked) ==> r.1 == SortDirection::Ascending,
{
    match sort_column {
        Some(col) if col == clicked => {
            let dir = match sort_direction {
                SortDirection::Ascending => SortDirection::Descending,
                SortDirection::Descending => SortDirection::Ascending,
            };
            (Some(clicked), dir)
        },
        _ => (Some(clicked), SortDirection::Ascending),
    }
}

/// Operator settings, loaded once at startup and saved on change: the
/// saved ranges, the two cadences, and the device-client tuning values
/// a scan pass is run with.
pub struct AppConfig {
    pub saved_ranges: Vec<SavedRange>,
    pub detail_refresh_interval_secs: u64,
    pub auto_scan_interval_secs: u64,
    pub identification_timeout_secs: u64,
    pub connectivity_timeout_secs: u64,
    pub connectivity_retries: u32,
}

pub fn default_refresh_interval() -> (r: u64)
    ensures
        r == 10,
{
    10
}

pub fn default_auto_scan_interval() -> (r: u64)
    ensures
        r == 120,
{
    120
}

impl Default for AppConfig {
    fn default() -> (r: AppConfig)
        ensures
            r.saved_ranges@.len() == 0,
            r.detail_refresh_interval_secs == 10,
            r.auto_scan_interval_secs == 120,
            r.identification_timeout_secs == 5,
            r.connectivity_timeout_secs == 1,
            r.connectivity_retries == 2,
    {
        AppConfig {
            saved_ranges: Vec::new(),
            detail_refresh_interval_secs: default_refresh_interval(),
            auto_scan_interval_secs: default_auto_scan_interval(),
            identification_timeout_secs: 5,
            connectivity_timeout_secs: 1,
            connectivity_retries: 2,
        }
    }
}

} // verus!
