//! The registry snapshot export: one CSV line per known device, numeric
//! cells without their display units.

use vstd::prelude::*;

use crate::fmt::{dec_rep, fixed1_rep, fixed2_rep, fixed1_to_string, fixed2_to_string, u64_to_string};
use crate::ip::{ip_rep, ip_to_string};
use crate::models::{MinerInfo, MinerMetrics};
use crate::registry::MinerRegistry;

verus! {

/// The snapshot's header line.
pub open spec fn export_header_rep() -> Seq<char> {
    "Address,Hostname,Model,Firmware,ControlBoard,Hashrate(TH/s),Wattage(W),Efficiency(W/TH),Temperature(°C),FanSpeed(RPM),Pool,Worker"@
}

/// A numeric cell: the reading without its unit, or the placeholder.
pub open spec fn cell_hashrate(m: MinerInfo) -> Seq<char> {
    match m.metrics {
        Some(mm) => match mm.hashrate_centi_ths {
            Some(v) => fixed2_rep(v as nat),
            None => "N/A"@,
        },
        None => "N/A"@,
    }
}

pub open spec fn cell_wattage(m: MinerInfo) -> Seq<char> {
    match m.metrics {
        Some(mm) => match mm.wattage_watts {
            Some(v) => dec_rep(v as nat),
            None => "N/A"@,
        },
        None => "N/A"@,
    }
}

pub open spec fn cell_efficiency(m: MinerInfo) -> Seq<char> {
    match m.metrics {
        Some(mm) => match mm.efficiency_centi {
            Some(v) => fixed1_rep((v / 10) as nat),
            None => "N/A"@,
        },
        None => "N/A"@,
    }
}

pub open spec fn cell_temperature(m: MinerInfo) -> Seq<char> {
    match m.metrics {
        Some(mm) => match mm.avg_temp_centi {
            Some(v) => fixed1_rep((v / 10) as nat),
            None => "N/A"@,
        },
        None => "N/A"@,
    }
}

pub open spec fn cell_fan(m: MinerInfo) -> Seq<char> {
    match m.metrics {
        Some(mm) => if mm.fan_rpm@.len() > 0 && mm.fan_rpm@[0] is Some {
            dec_rep(mm.fan_rpm@[0]->0 as nat)
        } else {
            "N/A"@
        },
        None => "N/A"@,
    }
}

/// One device's line of the snapshot.
pub open spec fn export_row_rep(m: MinerInfo) -> Seq<char> {
    ip_rep(m.ip) + seq![','] + m.hostname@ + seq![','] + m.model@ + seq![',']
        + m.firmware_version@ + seq![','] + m.control_board@ + seq![','] + cell_hashrate(m)
        + seq![','] + cell_wattage(m) + seq![','] + cell_efficiency(m) + seq![',']
        + cell_temperature(m) + seq![','] + cell_fan(m) + seq![','] + m.pool@ + seq![',']
        + m.worker@ + seq!['\n']
}

/// The lines of the devices, in registry order.
pub open spec fn export_rows_rep(ms: Seq<MinerInfo>) -> Seq<char>
    decreases ms.len(),
{
    if ms.len() == 0 {
        Seq::empty()
    } else {
        export_rows_rep(ms.drop_last()) + export_row_rep(ms.last())
    }
}

/// The whole snapshot: the header line, then one line per device.
pub open spec fn export_rep(ms: Seq<MinerInfo>) -> Seq<char> {
    export_header_rep() + seq!['\n'] + export_rows_rep(ms)
}

#[verifier::rlimit(80)]
fn export_row(m: &MinerInfo) -> (r: String)
    ensures
        r@ == export_row_rep(*m),
{
    let mut s = ip_to_string(&m.ip);
    s.append(",");
    s.append(m.hostname.as_str());
    s.append(",");
    s.append(m.model.as_str());
    s.append(",");
    s.append(m.firmware_version.as_str());
    s.append(",");
    s.append(m.control_board.as_str());
    s.append(",");
    match &m.metrics {
        Some(mm) => {
            match mm.hashrate_centi_ths {
                Some(v) => {
                    let cell = fixed2_to_string(v);
                    s.append(cell.as_str());
                },
                None => s.append("N/A"),
            }
            s.append(",");
            match mm.wattage_watts {
                Some(v) => {
                    let cell = u64_to_string(v);
                    s.append(cell.as_str());
                },
                None => s.append("N/A"),
            }
            s.append(",");
            match mm.efficiency_centi {
                Some(v) => {
                    let cell = fixed1_to_string(v / 10);
                    s.append(cell.as_str());
                },
                None => s.append("N/A"),
            }
            s.append(",");
            match mm.avg_temp_centi {
                Some(v) => {
                    let cell = fixed1_to_string(v / 10);
                    s.append(cell.as_str());
                },
                None => s.append("N/A"),
            }
            s.append(",");
            let mut fan_written = false;
            if mm.fan_rpm.len() > 0 {
                match mm.fan_rpm[0] {
                    Some(v) => {
                        let cell = u64_to_string(v);
                        s.append(cell.as_str());
                        fan_written = true;
                    },
                    None => {},
                }
            }
            if !fan_written {
                s.append("N/A");
            }
        },
        None => {
            s.append("N/A");
            s.append(",");
            s.append("N/A");
            s.append(",");
            s.append("N/A");
            s.append(",");
            s.append("N/A");
            s.append(",");
            s.append("N/A");
        },
    }
    s.append(",");
    s.append(m.pool.as_str());
    s.append(",");
    s.append(m.worker.as_str());
    s.append("\n");
    proof {
        reveal_strlit(",");
        reveal_strlit("\n");
        assert(s@ =~= export_row_rep(*m));
    }
    s
}

/// Renders the registry snapshot, or nothing at all while the registry
/// is empty — an empty fleet writes no file.
pub fn export_miners_to_csv(registry: &MinerRegistry) -> (r: Option<String>)
    ensures
        r is Some <==> registry.miners@.len() > 0,
        r matches Some(content) ==> content@ == export_rep(registry.miners@),
{
    if registry.is_empty() {
        return None;
    }
    let mut s = String::from_str(
        "Address,Hostname,Model,Firmware,ControlBoard,Hashrate(TH/s),Wattage(W),Efficiency(W/TH),Temperature(°C),FanSpeed(RPM),Pool,Worker",
    );
    s.append("\n");
    proof {
        reveal_strlit("\n");
        assert(s@ =~= export_header_rep() + seq!['\n'] + export_rows_rep(
            registry.miners@.subrange(0, 0),
        ));
    }
    let n = registry.len();
    let mut i: usize = 0;
    while i < n
        invariant
            0 <= i <= n,
            n == registry.miners@.len(),
            s@ == export_header_rep() + seq!['\n'] + export_rows_rep(
                registry.miners@.subrange(0, i as int),
            ),
        decreases n - i,
    {
        proof {
            assert(registry.miners@.subrange(0, i + 1).drop_last() =~= registry.miners@.subrange(
                0,
                i as int,
            ));
            assert(registry.miners@.subrange(0, i + 1).last() == registry.miners@[i as int]);
        }
        let row = export_row(registry.get(i));
        s.append(row.as_str());
        proof {
            assert(s@ =~= export_header_rep() + seq!['\n'] + export_rows_rep(
                registry.miners@.subrange(0, i + 1),
            ));
        }
        i = i + 1;
    }
    proof {
        assert(registry.miners@.subrange(0, n as int) =~= registry.miners@);
    }
    Some(s)
}

} // verus!
