//! The per-device CSV recorder. The column schema — how many board and
//! fan columns a file carries — is fixed once when recording starts,
//! from the device's topology at that moment, and every later row is
//! shaped to that schema whatever the device reports afterwards.

use vstd::prelude::*;

use crate::fmt::{
    comma_count, comma_free, dec_rep, fixed1_rep, fixed1_to_string, fixed2_rep, fixed2_to_string,
    lemma_comma_count_concat, lemma_comma_free_count, lemma_dec_rep_comma_free,
    lemma_fixed1_comma_free, lemma_fixed2_comma_free, lemma_single_comma_count, u64_to_string,
};
use crate::ip::{ip_rep, ip_to_string, lemma_ip_rep_comma_free};
use crate::models::{MinerInfo, MinerMetrics};

verus! {

/// One device's recording: where its file lives, when it started
/// (epoch seconds), how many rows were accepted, whether rows are still
/// being taken, and the column schema fixed at start.
#[derive(Clone, Debug)]
pub struct RecordingState {
    pub file_path: String,
    pub start_time: u64,
    pub row_count: usize,
    pub is_recording: bool,
    pub board_columns: usize,
    pub fan_columns: usize,
}

/// Relies on chrono's `Local::now` formatted with "%Y-%m-%d %H:%M:%S":
/// every specifier renders as decimal digits (with at most a leading
/// sign on the year) and the separators are dashes, colons and a
/// space, so the result never holds a comma or a line break. In a
/// pathological environment — a system clock before the epoch, or an
/// unreadable time zone database — `Local::now` aborts rather than
/// returning.
#[verifier::external_body]
fn now_row_timestamp() -> (r: String)
    ensures
        comma_free(r@),
        forall|i: int| 0 <= i < r@.len() ==> (#[trigger] r@[i]) != '\n',
{
    chrono::Local::now().format("%Y-%m-%d %H:%M:%S").to_string()
}

/// Relies on chrono's `Local::now` formatted with "%Y-%m-%d_%H-%M-%S":
/// every specifier renders as decimal digits (with at most a leading
/// sign on the year) and the separators are dashes and an underscore,
/// so the result never holds a comma, a space, a slash or a line
/// break. The same environment caveat as above applies.
#[verifier::external_body]
fn now_file_timestamp() -> (r: String)
    ensures
        comma_free(r@),
        forall|i: int|
            0 <= i < r@.len() ==> (#[trigger] r@[i]) != '/' && r@[i] != ' ' && r@[i] != '\n',
{
    chrono::Local::now().format("%Y-%m-%d_%H-%M-%S").to_string()
}

/// The board or fan count a recording schema is sized to: the counts of
/// the device's reading, or none at all without a reading.
pub open spec fn schema_boards(m: MinerInfo) -> nat {
    match m.metrics {
        Some(mm) => mm.board_count(),
        None => 0,
    }
}

pub open spec fn schema_fans(m: MinerInfo) -> nat {
    match m.metrics {
        Some(mm) => mm.fan_count(),
        None => 0,
    }
}

/// The device's hardware address cell, or the placeholder without one.
pub open spec fn mac_rep(m: MinerInfo) -> Seq<char> {
    match m.metrics {
        Some(mm) => match mm.mac {
            Some(s) => s@,
            None => "N/A"@,
        },
        None => "N/A"@,
    }
}

pub open spec fn or_zero(v: Option<u64>) -> nat {
    match v {
        Some(x) => x as nat,
        None => 0,
    }
}

/// The value written for board column `i`: the board's reading, or 0
/// when the board reported nothing or the device no longer shows it.
pub open spec fn board_hash_cell(mm: MinerMetrics, i: int) -> nat {
    if 0 <= i < mm.board_hashrate_centi@.len() {
        or_zero(mm.board_hashrate_centi@[i])
    } else {
        0
    }
}

pub open spec fn board_temp_cell(mm: MinerMetrics, i: int) -> nat {
    if 0 <= i < mm.board_temp_centi@.len() {
        or_zero(mm.board_temp_centi@[i])
    } else {
        0
    }
}

pub open spec fn fan_cell(mm: MinerMetrics, i: int) -> nat {
    if 0 <= i < mm.fan_rpm@.len() {
        or_zero(mm.fan_rpm@[i])
    } else {
        0
    }
}

pub open spec fn board_hash_cells(mm: MinerMetrics, n: nat) -> Seq<char>
    decreases n,
{
    if n == 0 {
        Seq::empty()
    } else {
        board_hash_cells(mm, (n - 1) as nat) + seq![','] + fixed2_rep(
            board_hash_cell(mm, n - 1),
        )
    }
}

pub open spec fn board_temp_cells(mm: MinerMetrics, n: nat) -> Seq<char>
    decreases n,
{
    if n == 0 {
        Seq::empty()
    } else {
        board_temp_cells(mm, (n - 1) as nat) + seq![','] + fixed1_rep(
            board_temp_cell(mm, n - 1) / 10,
        )
    }
}

pub open spec fn fan_cells(mm: MinerMetrics, n: nat) -> Seq<char>
    decreases n,
{
    if n == 0 {
        Seq::empty()
    } else {
        fan_cells(mm, (n - 1) as nat) + seq![','] + dec_rep(fan_cell(mm, n - 1))
    }
}

/// The fixed cells of a row: identity, timestamp, and the four whole-
/// device readings, missing readings written as zero. Precision is
/// fixed per column: hashrate to two decimals, efficiency and
/// temperature to one, power as an integer.
pub open spec fn row_fixed_rep(m: MinerInfo, mm: MinerMetrics, ts: Seq<char>) -> Seq<char> {
    ip_rep(m.ip) + seq![','] + mac_rep(m) + seq![','] + m.model@ + seq![','] + m.firmware_version@
        + seq![','] + ts + seq![','] + fixed2_rep(or_zero(mm.hashrate_centi_ths)) + seq![',']
        + dec_rep(or_zero(mm.wattage_watts)) + seq![','] + fixed1_rep(
        or_zero(mm.efficiency_centi) / 10,
    ) + seq![','] + fixed1_rep(or_zero(mm.avg_temp_centi) / 10)
}

/// One data row shaped to a schema of `boards` board columns and `fans`
/// fan columns.
pub open spec fn row_rep(m: MinerInfo, ts: Seq<char>, boards: nat, fans: nat) -> Seq<char> {
    row_fixed_rep(m, m.metrics->0, ts) + board_hash_cells(m.metrics->0, boards)
        + board_temp_cells(m.metrics->0, boards) + fan_cells(m.metrics->0, fans)
}

/// The fixed columns every recording file opens with.
pub open spec fn base_header_rep() -> Seq<char> {
    "DeviceAddress,HardwareId,Model,Firmware,Timestamp,TotalHashrate(TH/s),Power(W),Efficiency(W/TH),AvgTemperature(°C)"@
}

pub open spec fn board_hash_header_cols(n: nat) -> Seq<char>
    decreases n,
{
    if n == 0 {
        Seq::empty()
    } else {
        board_hash_header_cols((n - 1) as nat) + seq![','] + "Board"@ + dec_rep((n - 1) as nat)
            + "Hashrate"@
    }
}

pub open spec fn board_temp_header_cols(n: nat) -> Seq<char>
    decreases n,
{
    if n == 0 {
        Seq::empty()
    } else {
        board_temp_header_cols((n - 1) as nat) + seq![','] + "Board"@ + dec_rep((n - 1) as nat)
            + "Temp"@
    }
}

pub open spec fn fan_header_cols(n: nat) -> Seq<char>
    decreases n,
{
    if n == 0 {
        Seq::empty()
    } else {
        fan_header_cols((n - 1) as nat) + seq![','] + "Fan"@ + dec_rep(n) + "RPM"@
    }
}

/// The header of a file whose schema has `boards` board columns and
/// `fans` fan columns: board columns are numbered from 0, fan columns
/// from 1.
pub open spec fn header_rep(boards: nat, fans: nat) -> Seq<char> {
    base_header_rep() + board_hash_header_cols(boards) + board_temp_header_cols(boards)
        + fan_header_cols(fans)
}

/// Renders the header for a schema.
pub fn recording_header(boards: usize, fans: usize) -> (r: String)
    ensures
        r@ == header_rep(boards as nat, fans as nat),
{
    let mut s = String::from_str(
        "DeviceAddress,HardwareId,Model,Firmware,Timestamp,TotalHashrate(TH/s),Power(W),Efficiency(W/TH),AvgTemperature(°C)",
    );
    proof {
        assert(s@ =~= base_header_rep() + board_hash_header_cols(0));
    }
    let mut i: usize = 0;
    while i < boards
        invariant
            0 <= i <= boards,
            s@ == base_header_rep() + board_hash_header_cols(i as nat),
        decreases boards - i,
    {
        s.append(",");
        s.append("Board");
        let num = u64_to_string(i as u64);
        s.append(num.as_str());
        s.append("Hashrate");
        proof {
            reveal_strlit(",");
            assert(s@ =~= base_header_rep() + board_hash_header_cols((i + 1) as nat));
        }
        i = i + 1;
    }
    proof {
        assert(s@ =~= base_header_rep() + board_hash_header_cols(boards as nat)
            + board_temp_header_cols(0));
    }
    let mut i: usize = 0;
    while i < boards
        invariant
            0 <= i <= boards,
            s@ == base_header_rep() + board_hash_header_cols(boards as nat)
                + board_temp_header_cols(i as nat),
        decreases boards - i,
    {
        s.append(",");
        s.append("Board");
        let num = u64_to_string(i as u64);
        s.append(num.as_str());
        s.append("Temp");
        proof {
            reveal_strlit(",");
            assert(s@ =~= base_header_rep() + board_hash_header_cols(boards as nat)
                + board_temp_header_cols((i + 1) as nat));
        }
        i = i + 1;
    }
    proof {
        assert(s@ =~= base_header_rep() + board_hash_header_cols(boards as nat)
            + board_temp_header_cols(boards as nat) + fan_header_cols(0));
    }
    let mut i: usize = 0;
    while i < fans
        invariant
            0 <= i <= fans,
            s@ == base_header_rep() + board_hash_header_cols(boards as nat)
                + board_temp_header_cols(boards as nat) + fan_header_cols(i as nat),
        decreases fans - i,
    {
        s.append(",");
        s.append("Fan");
        let num = u64_to_string((i as u64) + 1);
        s.append(num.as_str());
        s.append("RPM");
        proof {
            reveal_strlit(",");
            assert(s@ =~= base_header_rep() + board_hash_header_cols(boards as nat)
                + board_temp_header_cols(boards as nat) + fan_header_cols((i + 1) as nat));
        }
        i = i + 1;
    }
    s
}

impl MinerInfo {
    /// The device's hardware address, when a detailed reading carries
    /// one.
    pub fn mac_address(&self) -> (r: Option<String>)
        ensures
            match r {
                Some(s) => self.metrics matches Some(mm) && mm.mac matches Some(inner) && s@
                    == inner@,
                None => !(self.metrics matches Some(mm) && mm.mac is Some),
            },
    {
        match &self.metrics {
            Some(mm) => match &mm.mac {
                Some(s) => Some(s.clone()),
                None => None,
            },
            None => None,
        }
    }
}

/// What a string may hold and still stand in a file name: no path
/// separator, no space, no comma, no line break.
pub open spec fn file_name_safe(s: Seq<char>) -> bool {
    forall|i: int|
        0 <= i < s.len() ==> (#[trigger] s[i]) != '/' && s[i] != ' ' && s[i] != ',' && s[i] != '\n'
}

/// The string with every space removed.
pub open spec fn remove_spaces(s: Seq<char>) -> Seq<char>
    decreases s.len(),
{
    if s.len() == 0 {
        Seq::empty()
    } else if s.last() == ' ' {
        remove_spaces(s.drop_last())
    } else {
        remove_spaces(s.drop_last()) + seq![s.last()]
    }
}

/// The name a device's recording file is created under.
pub open spec fn file_name_rep(m: MinerInfo, ts: Seq<char>) -> Seq<char> {
    "recording_"@ + ip_rep(m.ip) + seq!['_'] + remove_spaces(m.model@) + seq!['_'] + (match m
        .metrics {
        Some(mm) => match mm.mac {
            Some(s) => s@,
            None => "unknown"@,
        },
        None => "unknown"@,
    }) + seq!['_'] + ts + ".csv"@
}

/// Builds the file name for a device's recording: its address, its
/// model with spaces removed, its hardware address (or a placeholder),
/// and the moment recording started.
pub fn recording_file_name(miner: &MinerInfo) -> (r: String)
    ensures
        exists|ts: Seq<char>| r@ == file_name_rep(*miner, ts) && #[trigger] file_name_safe(ts),
{
    let mut s = String::from_str("recording_");
    let ip = ip_to_string(&miner.ip);
    s.append(ip.as_str());
    s.append("_");
    let model = miner.model.as_str();
    let n = model.unicode_len();
    let mut i: usize = 0;
    let ghost before_model = s@;
    while i < n
        invariant
            0 <= i <= n,
            n == model@.len(),
            s@ == before_model + remove_spaces(model@.subrange(0, i as int)),
        decreases n - i,
    {
        let c = model.get_char(i);
        proof {
            assert(model@.subrange(0, i + 1).drop_last() =~= model@.subrange(0, i as int));
            assert(model@.subrange(0, i + 1).last() == model@[i as int]);
        }
        if c != ' ' {
            let piece = model.substring_char(i, i + 1);
            proof {
                assert(piece@ =~= seq![model@[i as int]]);
            }
            s.append(piece);
        }
        i = i + 1;
    }
    proof {
        assert(model@.subrange(0, n as int) =~= model@);
    }
    s.append("_");
    match miner.mac_address() {
        Some(mac) => {
            s.append(mac.as_str());
        },
        None => {
            s.append("unknown");
        },
    }
    s.append("_");
    let ts = now_file_timestamp();
    s.append(ts.as_str());
    s.append(".csv");
    proof {
        reveal_strlit("_");
        assert(s@ =~= file_name_rep(*miner, ts@));
        assert(file_name_safe(ts@));
    }
    s
}

/// Fixes a recording's schema from the device's current topology and
/// renders the header for it: the state starts live, at its path, with
/// no rows yet.
pub fn start_recording(miner: &MinerInfo, file_path: String, now: u64) -> (r: (
    RecordingState,
    String,
))
    ensures
        r.0.file_path == file_path,
        r.0.start_time == now,
        r.0.row_count == 0,
        r.0.is_recording,
        r.0.board_columns == schema_boards(*miner),
        r.0.fan_columns == schema_fans(*miner),
        r.1@ == header_rep(schema_boards(*miner), schema_fans(*miner)),
{
    let (boards, fans): (usize, usize) = match &miner.metrics {
        Some(mm) => (mm.board_hashrate_centi.len(), mm.fan_rpm.len()),
        None => (0, 0),
    };
    let header = recording_header(boards, fans);
    (
        RecordingState {
            file_path,
            start_time: now,
            row_count: 0,
            is_recording: true,
            board_columns: boards,
            fan_columns: fans,
        },
        header,
    )
}

/// Renders one data row for a device against a fixed schema.
pub fn format_data_row(recording: &RecordingState, miner: &MinerInfo, timestamp: &str) -> (r:
    String)
    requires
        miner.metrics is Some,
    ensures
        r@ == row_rep(
            *miner,
            timestamp@,
            recording.board_columns as nat,
            recording.fan_columns as nat,
        ),
{
    let mm = match &miner.metrics {
        Some(mm) => mm,
        None => unreached(),
    };
    let mut s = ip_to_string(&miner.ip);
    s.append(",");
    match &mm.mac {
        Some(mac) => s.append(mac.as_str()),
        None => s.append("N/A"),
    }
    s.append(",");
    s.append(miner.model.as_str());
    s.append(",");
    s.append(miner.firmware_version.as_str());
    s.append(",");
    s.append(timestamp);
    s.append(",");
    let hr = fixed2_to_string(
        match mm.hashrate_centi_ths {
            Some(v) => v,
            None => 0,
        },
    );
    s.append(hr.as_str());
    s.append(",");
    let w = u64_to_string(
        match mm.wattage_watts {
            Some(v) => v,
            None => 0,
        },
    );
    s.append(w.as_str());
    s.append(",");
    let e = fixed1_to_string(
        (match mm.efficiency_centi {
            Some(v) => v,
            None => 0,
        }) / 10,
    );
    s.append(e.as_str());
    s.append(",");
    let t = fixed1_to_string(
        (match mm.avg_temp_centi {
            Some(v) => v,
            None => 0,
        }) / 10,
    );
    s.append(t.as_str());
    proof {
        reveal_strlit(",");
        assert(s@ =~= row_fixed_rep(*miner, *mm, timestamp@));
    }
    let ghost fixed = s@;
    let boards = recording.board_columns;
    let fans = recording.fan_columns;
    proof {
        assert(s@ =~= fixed + board_hash_cells(*mm, 0));
    }
    let mut i: usize = 0;
    while i < boards
        invariant
            0 <= i <= boards,
            s@ == fixed + board_hash_cells(*mm, i as nat),
        decreases boards - i,
    {
        s.append(",");
        let v: u64 = if i < mm.board_hashrate_centi.len() {
            match mm.board_hashrate_centi[i] {
                Some(x) => x,
                None => 0,
            }
        } else {
            0
        };
        let cell = fixed2_to_string(v);
        s.append(cell.as_str());
        proof {
            reveal_strlit(",");
            assert(v as nat == board_hash_cell(*mm, i as int));
            assert(s@ =~= fixed + board_hash_cells(*mm, (i + 1) as nat));
        }
        i = i + 1;
    }
    proof {
        assert(s@ =~= fixed + board_hash_cells(*mm, boards as nat) + board_temp_cells(*mm, 0));
    }
    let mut i: usize = 0;
    while i < boards
        invariant
            0 <= i <= boards,
            s@ == fixed + board_hash_cells(*mm, boards as nat) + board_temp_cells(*mm, i as nat),
        decreases boards - i,
    {
        s.append(",");
        let v: u64 = if i < mm.board_temp_centi.len() {
            match mm.board_temp_centi[i] {
                Some(x) => x,
                None => 0,
            }
        } else {
            0
        };
        let cell = fixed1_to_string(v / 10);
        s.append(cell.as_str());
        proof {
            reveal_strlit(",");
            assert(v as nat == board_temp_cell(*mm, i as int));
            assert(s@ =~= fixed + board_hash_cells(*mm, boards as nat) + board_temp_cells(
                *mm,
                (i + 1) as nat,
            ));
        }
        i = i + 1;
    }
    proof {
        assert(s@ =~= fixed + board_hash_cells(*mm, boards as nat) + board_temp_cells(
            *mm,
            boards as nat,
        ) + fan_cells(*mm, 0));
    }
    let mut i: usize = 0;
    while i < fans
        invariant
            0 <= i <= fans,
            s@ == fixed + board_hash_cells(*mm, boards as nat) + board_temp_cells(
                *mm,
                boards as nat,
            ) + fan_cells(*mm, i as nat),
        decreases fans - i,
    {
        s.append(",");
        let v: u64 = if i < mm.fan_rpm.len() {
            match mm.fan_rpm[i] {
                Some(x) => x,
                None => 0,
            }
        } else {
            0
        };
        let cell = u64_to_string(v);
        s.append(cell.as_str());
        proof {
            reveal_strlit(",");
            assert(v as nat == fan_cell(*mm, i as int));
            assert(s@ =~= fixed + board_hash_cells(*mm, boards as nat) + board_temp_cells(
                *mm,
                boards as nat,
            ) + fan_cells(*mm, (i + 1) as nat));
        }
        i = i + 1;
    }
    s
}

/// Takes one reading into the recording. Nothing happens — and nothing
/// changes — while recording is stopped or the device has no detailed
/// reading; otherwise the returned row, shaped to the schema fixed at
/// start, is owed to the file and the row count moves up.
pub fn append_data_point(recording: &mut RecordingState, miner: &MinerInfo) -> (r: Option<String>)
    ensures
        r is Some <==> (old(recording).is_recording && miner.metrics is Some),
        r is None ==> *final(recording) == *old(recording),
        r matches Some(row) ==> {
            &&& final(recording).row_count == if old(recording).row_count < usize::MAX {
                old(recording).row_count + 1
            } else {
                old(recording).row_count as int
            }
            &&& final(recording).file_path == old(recording).file_path
            &&& final(recording).start_time == old(recording).start_time
            &&& final(recording).is_recording == old(recording).is_recording
            &&& final(recording).board_columns == old(recording).board_columns
            &&& final(recording).fan_columns == old(recording).fan_columns
            &&& exists|ts: Seq<char>|
                row@ == row_rep(
                    *miner,
                    ts,
                    old(recording).board_columns as nat,
                    old(recording).fan_columns as nat,
                ) && #[trigger] comma_free(ts)
            &&& (comma_free(mac_rep(*miner)) && comma_free(miner.model@) && comma_free(
                miner.firmware_version@,
            )) ==> comma_count(row@) == 8 + 2 * old(recording).board_columns + old(
                recording,
            ).fan_columns
        },
{
    if !recording.is_recording {
        return None;
    }
    match &miner.metrics {
        Some(_) => {},
        None => {
            return None;
        },
    }
    let ts = now_row_timestamp();
    let row = format_data_row(recording, miner, ts.as_str());
    if recording.row_count < usize::MAX {
        recording.row_count = recording.row_count + 1;
    }
    proof {
        assert(row@ == row_rep(
            *miner,
            ts@,
            recording.board_columns as nat,
            recording.fan_columns as nat,
        ) && comma_free(ts@));
        if comma_free(mac_rep(*miner)) && comma_free(miner.model@) && comma_free(
            miner.firmware_version@,
        ) {
            lemma_row_column_count(
                *miner,
                ts@,
                recording.board_columns as nat,
                recording.fan_columns as nat,
            );
        }
    }
    Some(row)
}

/// Stops taking rows; the file stays, with everything else, as it was.
pub fn stop_recording(recording: &mut RecordingState)
    ensures
        !final(recording).is_recording,
        final(recording).file_path == old(recording).file_path,
        final(recording).start_time == old(recording).start_time,
        final(recording).row_count == old(recording).row_count,
        final(recording).board_columns == old(recording).board_columns,
        final(recording).fan_columns == old(recording).fan_columns,
{
    recording.is_recording = false;
}

proof fn lemma_board_hash_cells_count(mm: MinerMetrics, n: nat)
    ensures
        comma_count(board_hash_cells(mm, n)) == n,
    decreases n,
{
    if n == 0 {
    } else {
        lemma_board_hash_cells_count(mm, (n - 1) as nat);
        lemma_single_comma_count();
        lemma_fixed2_comma_free(board_hash_cell(mm, n - 1));
        lemma_comma_free_count(fixed2_rep(board_hash_cell(mm, n - 1)));
        lemma_comma_count_concat(board_hash_cells(mm, (n - 1) as nat), seq![',']);
        lemma_comma_count_concat(
            board_hash_cells(mm, (n - 1) as nat) + seq![','],
            fixed2_rep(board_hash_cell(mm, n - 1)),
        );
    }
}

proof fn lemma_board_temp_cells_count(mm: MinerMetrics, n: nat)
    ensures
        comma_count(board_temp_cells(mm, n)) == n,
    decreases n,
{
    if n == 0 {
    } else {
        lemma_board_temp_cells_count(mm, (n - 1) as nat);
        lemma_single_comma_count();
        lemma_fixed1_comma_free(board_temp_cell(mm, n - 1) / 10);
        lemma_comma_free_count(fixed1_rep(board_temp_cell(mm, n - 1) / 10));
        lemma_comma_count_concat(board_temp_cells(mm, (n - 1) as nat), seq![',']);
        lemma_comma_count_concat(
            board_temp_cells(mm, (n - 1) as nat) + seq![','],
            fixed1_rep(board_temp_cell(mm, n - 1) / 10),
        );
    }
}

proof fn lemma_fan_cells_count(mm: MinerMetrics, n: nat)
    ensures
        comma_count(fan_cells(mm, n)) == n,
    decreases n,
{
    if n == 0 {
    } else {
        lemma_fan_cells_count(mm, (n - 1) as nat);
        lemma_single_comma_count();
        lemma_dec_rep_comma_free(fan_cell(mm, n - 1));
        lemma_comma_free_count(dec_rep(fan_cell(mm, n - 1)));
        lemma_comma_count_concat(fan_cells(mm, (n - 1) as nat), seq![',']);
        lemma_comma_count_concat(fan_cells(mm, (n - 1) as nat) + seq![','], dec_rep(fan_cell(mm, n - 1)));
    }
}

/// The schema shapes every row: however the device's topology reads
/// later, a row rendered against a schema of `boards` board columns and
/// `fans` fan columns holds exactly `boards + boards + fans` dynamic
/// cells — its comma count is the 8 of the fixed cells plus one per
/// dynamic cell — provided the identity cells are comma-free.
pub proof fn lemma_row_column_count(m: MinerInfo, ts: Seq<char>, boards: nat, fans: nat)
    requires
        m.metrics is Some,
        comma_free(mac_rep(m)),
        comma_free(m.model@),
        comma_free(m.firmware_version@),
        comma_free(ts),
    ensures
        comma_count(row_rep(m, ts, boards, fans)) == 8 + 2 * boards + fans,
{
    let mm = m.metrics->0;
    assert(comma_count(row_fixed_rep(m, mm, ts)) == 8) by {
        lemma_ip_rep_comma_free(m.ip);
        lemma_comma_free_count(ip_rep(m.ip));
        lemma_comma_free_count(mac_rep(m));
        lemma_comma_free_count(m.model@);
        lemma_comma_free_count(m.firmware_version@);
        lemma_comma_free_count(ts);
        lemma_fixed2_comma_free(or_zero(mm.hashrate_centi_ths));
        lemma_comma_free_count(fixed2_rep(or_zero(mm.hashrate_centi_ths)));
        lemma_dec_rep_comma_free(or_zero(mm.wattage_watts));
        lemma_comma_free_count(dec_rep(or_zero(mm.wattage_watts)));
        lemma_fixed1_comma_free(or_zero(mm.efficiency_centi) / 10);
        lemma_comma_free_count(fixed1_rep(or_zero(mm.efficiency_centi) / 10));
        lemma_fixed1_comma_free(or_zero(mm.avg_temp_centi) / 10);
        lemma_comma_free_count(fixed1_rep(or_zero(mm.avg_temp_centi) / 10));
        lemma_single_comma_count();
        let p1 = ip_rep(m.ip);
        let p2 = p1 + seq![','];
        let p3 = p2 + mac_rep(m);
        let p4 = p3 + seq![','];
        let p5 = p4 + m.model@;
        let p6 = p5 + seq![','];
        let p7 = p6 + m.firmware_version@;
        let p8 = p7 + seq![','];
        let p9 = p8 + ts;
        let p10 = p9 + seq![','];
        let p11 = p10 + fixed2_rep(or_zero(mm.hashrate_centi_ths));
        let p12 = p11 + seq![','];
        let p13 = p12 + dec_rep(or_zero(mm.wattage_watts));
        let p14 = p13 + seq![','];
        let p15 = p14 + fixed1_rep(or_zero(mm.efficiency_centi) / 10);
        let p16 = p15 + seq![','];
        lemma_comma_count_concat(p1, seq![',']);
        lemma_comma_count_concat(p2, mac_rep(m));
        lemma_comma_count_concat(p3, seq![',']);
        lemma_comma_count_concat(p4, m.model@);
        lemma_comma_count_concat(p5, seq![',']);
        lemma_comma_count_concat(p6, m.firmware_version@);
        lemma_comma_count_concat(p7, seq![',']);
        lemma_comma_count_concat(p8, ts);
        lemma_comma_count_concat(p9, seq![',']);
        lemma_comma_count_concat(p10, fixed2_rep(or_zero(mm.hashrate_centi_ths)));
        lemma_comma_count_concat(p11, seq![',']);
        lemma_comma_count_concat(p12, dec_rep(or_zero(mm.wattage_watts)));
        lemma_comma_count_concat(p13, seq![',']);
        lemma_comma_count_concat(p14, fixed1_rep(or_zero(mm.efficiency_centi) / 10));
        lemma_comma_count_concat(p15, seq![',']);
        lemma_comma_count_concat(p16, fixed1_rep(or_zero(mm.avg_temp_centi) / 10));
    }
    lemma_board_hash_cells_count(mm, boards);
    lemma_board_temp_cells_count(mm, boards);
    lemma_fan_cells_count(mm, fans);
    lemma_comma_count_concat(row_fixed_rep(m, mm, ts), board_hash_cells(mm, boards));
    lemma_comma_count_concat(
        row_fixed_rep(m, mm, ts) + board_hash_cells(mm, boards),
        board_temp_cells(mm, boards),
    );
    lemma_comma_count_concat(
        row_fixed_rep(m, mm, ts) + board_hash_cells(mm, boards) + board_temp_cells(mm, boards),
        fan_cells(mm, fans),
    );
}

} // verus!
