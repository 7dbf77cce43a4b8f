//! Addresses and address ranges: a range is a contiguous slice of a
//! /24-style subnet, written "a.b.c.start-end", whose endpoints share
//! their first three octets.

use vstd::prelude::*;

use crate::fmt::{
    all_digits, dec_rep, dec_value, digit_val, is_dec_digit, lemma_dec_rep_digits,
    lemma_dec_rep_value, u64_to_string,
};

verus! {

/// An address as four plain octets.
#[derive(Clone, Copy, PartialEq, Eq, Structural, Debug)]
pub struct IpAddress {
    pub a: u8,
    pub b: u8,
    pub c: u8,
    pub d: u8,
}

/// A contiguous range of addresses differing only in the last octet.
#[derive(Clone, Copy, PartialEq, Eq, Structural, Debug)]
pub struct IpRange {
    pub a: u8,
    pub b: u8,
    pub c: u8,
    pub start: u8,
    pub end: u8,
}

impl IpRange {
    pub open spec fn wf(self) -> bool {
        self.start <= self.end
    }

    /// How many addresses the range covers.
    pub open spec fn count(self) -> nat {
        (self.end - self.start + 1) as nat
    }

    pub open spec fn first(self) -> IpAddress {
        IpAddress { a: self.a, b: self.b, c: self.c, d: self.start }
    }
}

/// Index of the first occurrence of `c` in `s` at or after `from`,
/// or `s.len()` if there is none.
pub open spec fn find_from(s: Seq<char>, c: char, from: int) -> int
    decreases s.len() - from,
{
    if from < 0 {
        find_from(s, c, 0)
    } else if from >= s.len() {
        s.len() as int
    } else if s[from] == c {
        from
    } else {
        find_from(s, c, from + 1)
    }
}

/// Scanning over a stretch known to be free of `c` lands where scanning
/// from its far end does.
pub proof fn lemma_find_from_skip(s: Seq<char>, c: char, from: int, to: int)
    requires
        0 <= from <= to <= s.len(),
        forall|j: int| from <= j < to ==> s[j] != c,
    ensures
        find_from(s, c, from) == find_from(s, c, to),
    decreases to - from,
{
    if from < to {
        lemma_find_from_skip(s, c, from + 1, to);
    }
}

/// A digit string denoting a value that fits in one octet.
pub open spec fn is_dec_u8(s: Seq<char>) -> bool {
    s.len() > 0 && all_digits(s) && dec_value(s) <= 255
}

/// Positions of the three dots of a well-formed address literal.
pub open spec fn dot1(s: Seq<char>) -> int {
    find_from(s, '.', 0)
}

pub open spec fn dot2(s: Seq<char>) -> int {
    find_from(s, '.', dot1(s) + 1)
}

pub open spec fn dot3(s: Seq<char>) -> int {
    find_from(s, '.', dot2(s) + 1)
}

/// Whether `s` is a well-formed dotted-quad address literal: four
/// dot-separated decimal parts, each between 0 and 255.
pub open spec fn is_ip_literal(s: Seq<char>) -> bool {
    &&& dot1(s) < s.len()
    &&& dot2(s) < s.len()
    &&& dot3(s) < s.len()
    &&& find_from(s, '.', dot3(s) + 1) == s.len()
    &&& is_dec_u8(s.subrange(0, dot1(s)))
    &&& is_dec_u8(s.subrange(dot1(s) + 1, dot2(s)))
    &&& is_dec_u8(s.subrange(dot2(s) + 1, dot3(s)))
    &&& is_dec_u8(s.subrange(dot3(s) + 1, s.len() as int))
}

pub open spec fn octet0(s: Seq<char>) -> nat {
    dec_value(s.subrange(0, dot1(s)))
}

pub open spec fn octet1(s: Seq<char>) -> nat {
    dec_value(s.subrange(dot1(s) + 1, dot2(s)))
}

pub open spec fn octet2(s: Seq<char>) -> nat {
    dec_value(s.subrange(dot2(s) + 1, dot3(s)))
}

pub open spec fn octet3(s: Seq<char>) -> nat {
    dec_value(s.subrange(dot3(s) + 1, s.len() as int))
}

/// The address a well-formed literal denotes.
pub open spec fn ip_of(s: Seq<char>) -> IpAddress {
    IpAddress {
        a: octet0(s) as u8,
        b: octet1(s) as u8,
        c: octet2(s) as u8,
        d: octet3(s) as u8,
    }
}

/// The canonical rendering of an address.
pub open spec fn ip_rep(ip: IpAddress) -> Seq<char> {
    dec_rep(ip.a as nat) + seq!['.'] + dec_rep(ip.b as nat) + seq!['.'] + dec_rep(ip.c as nat)
        + seq!['.'] + dec_rep(ip.d as nat)
}

/// The canonical rendering of a range: the subnet prefix, the first
/// last-octet, a dash, the final last-octet.
pub open spec fn range_rep(r: IpRange) -> Seq<char> {
    dec_rep(r.a as nat) + seq!['.'] + dec_rep(r.b as nat) + seq!['.'] + dec_rep(r.c as nat)
        + seq!['.'] + dec_rep(r.start as nat) + seq!['-'] + dec_rep(r.end as nat)
}

/// Index of the first occurrence of `sep` in `s` at or after `from`, or
/// `s`'s length if there is none.
fn find_sep(s: &str, sep: char, from: usize, len: usize) -> (r: usize)
    requires
        len == s@.len(),
        from <= len,
    ensures
        r == find_from(s@, sep, from as int),
        from <= r <= len,
        r < len ==> s@[r as int] == sep,
        forall|j: int| from <= j < r ==> s@[j] != sep,
{
    let mut i = from;
    loop
        invariant
            from <= i <= len,
            len == s@.len(),
            find_from(s@, sep, from as int) == find_from(s@, sep, i as int),
            forall|j: int| from <= j < i ==> s@[j] != sep,
        decreases len - i,
    {
        if i == len {
            return i;
        }
        let c = s.get_char(i);
        if c == sep {
            return i;
        }
        proof {
            assert(find_from(s@, sep, i as int) == find_from(s@, sep, i + 1));
        }
        i = i + 1;
    }
}

/// Reads a decimal octet: succeeds exactly on non-empty digit strings
/// whose value fits in one octet, and then returns that value.
pub fn parse_dec_u8(s: &str) -> (r: Option<u8>)
    ensures
        r is Some <==> is_dec_u8(s@),
        r is Some ==> r->0 == dec_value(s@),
{
    let len = s.unicode_len();
    let mut i: usize = 0;
    let mut acc: u32 = 0;
    while i < len
        invariant
            0 <= i <= len,
            len == s@.len(),
            all_digits(s@.subrange(0, i as int)),
            acc <= 2560,
            dec_value(s@.subrange(0, i as int)) <= 255 ==> acc == dec_value(
                s@.subrange(0, i as int),
            ),
            dec_value(s@.subrange(0, i as int)) > 255 ==> acc > 255,
        decreases len - i,
    {
        let c = s.get_char(i);
        let u = c as u32;
        if u < 48 || u > 57 {
            proof {
                assert(!is_dec_digit(s@[i as int]));
            }
            return None;
        }
        let d = u - 48;
        proof {
            assert(s@.subrange(0, i + 1).drop_last() =~= s@.subrange(0, i as int));
            assert(s@.subrange(0, i + 1).last() == s@[i as int]);
            assert(dec_value(s@.subrange(0, i + 1)) == dec_value(s@.subrange(0, i as int)) * 10
                + digit_val(s@[i as int]));
        }
        let next = acc * 10 + d;
        acc = if next > 2560 {
            2560
        } else {
            next
        };
        i = i + 1;
    }
    proof {
        assert(s@.subrange(0, len as int) =~= s@);
    }
    if len == 0 || acc > 255 {
        None
    } else {
        Some(acc as u8)
    }
}

/// Reads a dotted-quad address literal: succeeds exactly on well-formed
/// literals, and then returns the denoted address.
pub fn parse_ip(s: &str) -> (r: Option<IpAddress>)
    ensures
        r is Some <==> is_ip_literal(s@),
        r is Some ==> r->0 == ip_of(s@),
{
    let len = s.unicode_len();
    let d1 = find_sep(s, '.', 0, len);
    if d1 == len {
        return None;
    }
    let d2 = find_sep(s, '.', d1 + 1, len);
    if d2 == len {
        return None;
    }
    let d3 = find_sep(s, '.', d2 + 1, len);
    if d3 == len {
        return None;
    }
    let d4 = find_sep(s, '.', d3 + 1, len);
    if d4 != len {
        return None;
    }
    let p0 = parse_dec_u8(s.substring_char(0, d1));
    let p1 = parse_dec_u8(s.substring_char(d1 + 1, d2));
    let p2 = parse_dec_u8(s.substring_char(d2 + 1, d3));
    let p3 = parse_dec_u8(s.substring_char(d3 + 1, len));
    match (p0, p1, p2, p3) {
        (Some(a), Some(b), Some(c), Some(d)) => Some(IpAddress { a, b, c, d }),
        _ => None,
    }
}

/// Position of the dash separating the two last-octets of a range literal.
pub open spec fn dash_of(s: Seq<char>) -> int {
    find_from(s, '-', dot3(s) + 1)
}

/// Whether `s` is a well-formed range literal "a.b.c.start-end": three
/// dot-separated decimal parts, then a part holding a dash between two
/// further decimal parts, each octet between 0 and 255.
pub open spec fn is_range_literal(s: Seq<char>) -> bool {
    &&& dot1(s) < s.len()
    &&& dot2(s) < s.len()
    &&& dot3(s) < s.len()
    &&& find_from(s, '.', dot3(s) + 1) == s.len()
    &&& dash_of(s) < s.len()
    &&& is_dec_u8(s.subrange(0, dot1(s)))
    &&& is_dec_u8(s.subrange(dot1(s) + 1, dot2(s)))
    &&& is_dec_u8(s.subrange(dot2(s) + 1, dot3(s)))
    &&& is_dec_u8(s.subrange(dot3(s) + 1, dash_of(s)))
    &&& is_dec_u8(s.subrange(dash_of(s) + 1, s.len() as int))
}

/// The range a well-formed range literal denotes.
pub open spec fn range_of(s: Seq<char>) -> IpRange {
    IpRange {
        a: dec_value(s.subrange(0, dot1(s))) as u8,
        b: dec_value(s.subrange(dot1(s) + 1, dot2(s))) as u8,
        c: dec_value(s.subrange(dot2(s) + 1, dot3(s))) as u8,
        start: dec_value(s.subrange(dot3(s) + 1, dash_of(s))) as u8,
        end: dec_value(s.subrange(dash_of(s) + 1, s.len() as int)) as u8,
    }
}

/// The address count an encoding denotes: `end - start + 1` for a
/// well-formed, rightly ordered range literal, and 0 for anything else.
pub open spec fn range_count_spec(s: Seq<char>) -> nat {
    if is_range_literal(s) && range_of(s).wf() {
        range_of(s).count()
    } else {
        0
    }
}

/// Renders an address in its canonical dotted-quad form.
pub fn ip_to_string(ip: &IpAddress) -> (r: String)
    ensures
        r@ == ip_rep(*ip),
{
    let mut out = u64_to_string(ip.a as u64);
    out.append(".");
    let sb = u64_to_string(ip.b as u64);
    out.append(sb.as_str());
    out.append(".");
    let sc = u64_to_string(ip.c as u64);
    out.append(sc.as_str());
    out.append(".");
    let sd = u64_to_string(ip.d as u64);
    out.append(sd.as_str());
    proof {
        reveal_strlit(".");
        assert(out@ =~= ip_rep(*ip));
    }
    out
}

/// Renders a range in its canonical "a.b.c.start-end" form.
pub fn encode_range(r: &IpRange) -> (s: String)
    ensures
        s@ == range_rep(*r),
{
    let mut out = u64_to_string(r.a as u64);
    out.append(".");
    let sb = u64_to_string(r.b as u64);
    out.append(sb.as_str());
    out.append(".");
    let sc = u64_to_string(r.c as u64);
    out.append(sc.as_str());
    out.append(".");
    let ss = u64_to_string(r.start as u64);
    out.append(ss.as_str());
    out.append("-");
    let se = u64_to_string(r.end as u64);
    out.append(se.as_str());
    proof {
        reveal_strlit(".");
        reveal_strlit("-");
        assert(out@ =~= range_rep(*r));
    }
    out
}

/// Reads a range encoding back: succeeds exactly on well-formed range
/// literals, and then returns the denoted range.
pub fn parse_range_encoding(s: &str) -> (r: Option<IpRange>)
    ensures
        r is Some <==> is_range_literal(s@),
        r is Some ==> r->0 == range_of(s@),
{
    let len = s.unicode_len();
    let d1 = find_sep(s, '.', 0, len);
    if d1 == len {
        return None;
    }
    let d2 = find_sep(s, '.', d1 + 1, len);
    if d2 == len {
        return None;
    }
    let d3 = find_sep(s, '.', d2 + 1, len);
    if d3 == len {
        return None;
    }
    let d4 = find_sep(s, '.', d3 + 1, len);
    if d4 != len {
        return None;
    }
    let m = find_sep(s, '-', d3 + 1, len);
    if m == len {
        return None;
    }
    let p0 = parse_dec_u8(s.substring_char(0, d1));
    let p1 = parse_dec_u8(s.substring_char(d1 + 1, d2));
    let p2 = parse_dec_u8(s.substring_char(d2 + 1, d3));
    let p3 = parse_dec_u8(s.substring_char(d3 + 1, m));
    let p4 = parse_dec_u8(s.substring_char(m + 1, len));
    match (p0, p1, p2, p3, p4) {
        (Some(a), Some(b), Some(c), Some(start), Some(end)) => Some(
            IpRange { a, b, c, start, end },
        ),
        _ => None,
    }
}

/// Whether the two addresses share their first three octets.
pub open spec fn same_subnet(sv: Seq<char>, ev: Seq<char>) -> bool {
    octet0(sv) == octet0(ev) && octet1(sv) == octet1(ev) && octet2(sv) == octet2(ev)
}

/// Whether a start/end pair of literals makes a valid range: both
/// well-formed, in one subnet, and rightly ordered.
pub open spec fn range_pair_ok(sv: Seq<char>, ev: Seq<char>) -> bool {
    &&& is_ip_literal(sv)
    &&& is_ip_literal(ev)
    &&& same_subnet(sv, ev)
    &&& octet3(sv) <= octet3(ev)
}

/// The range a valid start/end pair denotes.
pub open spec fn pair_range(sv: Seq<char>, ev: Seq<char>) -> IpRange {
    IpRange {
        a: octet0(sv) as u8,
        b: octet1(sv) as u8,
        c: octet2(sv) as u8,
        start: octet3(sv) as u8,
        end: octet3(ev) as u8,
    }
}

/// The message an invalid pair is rejected with: malformedness first,
/// then a subnet mismatch, then an inverted order.
pub open spec fn pair_err_rep(sv: Seq<char>, ev: Seq<char>) -> Seq<char> {
    if !is_ip_literal(sv) || !is_ip_literal(ev) {
        "Invalid IP address format"@
    } else if !same_subnet(sv, ev) {
        "IP ranges must be in the same subnet (first 3 octets must match)"@
    } else {
        "Start IP must be less than or equal to end IP"@
    }
}

/// Validates a pair of address literals and encodes the slice of the
/// subnet between their last octets.
///
/// Fails when either address is malformed, when the two addresses lie in
/// different subnets (first three octets), or when the start's last octet
/// exceeds the end's — in that order.
pub fn parse_ip_range(start: &str, end: &str) -> (r: Result<String, String>)
    ensures
        r is Ok <==> range_pair_ok(start@, end@),
        r matches Ok(enc) ==> enc@ == range_rep(pair_range(start@, end@)),
        r matches Err(m) ==> m@ == pair_err_rep(start@, end@),
{
    let ps = parse_ip(start);
    let pe = parse_ip(end);
    match (ps, pe) {
        (Some(s0), Some(e0)) => {
            if s0.a != e0.a || s0.b != e0.b || s0.c != e0.c {
                Err(String::from_str("IP ranges must be in the same subnet (first 3 octets must match)"))
            } else if s0.d > e0.d {
                Err(String::from_str("Start IP must be less than or equal to end IP"))
            } else {
                Ok(encode_range(&IpRange { a: s0.a, b: s0.b, c: s0.c, start: s0.d, end: e0.d }))
            }
        },
        _ => Err(String::from_str("Invalid IP address format")),
    }
}

/// How many addresses a range encoding covers; 0 for a malformed or
/// inverted encoding rather than an error.
pub fn calculate_total_ips(range: &str) -> (r: usize)
    ensures
        r == range_count_spec(range@),
{
    match parse_range_encoding(range) {
        Some(rg) => {
            if rg.start <= rg.end {
                (rg.end as usize) - (rg.start as usize) + 1
            } else {
                0
            }
        },
        None => 0,
    }
}

proof fn lemma_digits_no_sep(s: Seq<char>)
    requires
        all_digits(s),
    ensures
        forall|j: int| 0 <= j < s.len() ==> s[j] != '.' && s[j] != '-',
{
    assert forall|j: int| 0 <= j < s.len() implies s[j] != '.' && s[j] != '-' by {
        assert(is_dec_digit(s[j]));
    }
}

/// Encoding a well-ordered range and reading its address count back
/// yields exactly `end - start + 1` addresses; the encoding is
/// well-formed and denotes the range it was made from.
pub proof fn lemma_count_of_encoded_range(r: IpRange)
    ensures
        is_range_literal(range_rep(r)),
        range_of(range_rep(r)) == r,
        r.wf() ==> range_count_spec(range_rep(r)) == r.count(),
{
    let av = dec_rep(r.a as nat);
    let bv = dec_rep(r.b as nat);
    let cv = dec_rep(r.c as nat);
    let sv = dec_rep(r.start as nat);
    let ev = dec_rep(r.end as nat);
    lemma_dec_rep_digits(r.a as nat);
    lemma_dec_rep_digits(r.b as nat);
    lemma_dec_rep_digits(r.c as nat);
    lemma_dec_rep_digits(r.start as nat);
    lemma_dec_rep_digits(r.end as nat);
    lemma_dec_rep_value(r.a as nat);
    lemma_dec_rep_value(r.b as nat);
    lemma_dec_rep_value(r.c as nat);
    lemma_dec_rep_value(r.start as nat);
    lemma_dec_rep_value(r.end as nat);
    lemma_digits_no_sep(av);
    lemma_digits_no_sep(bv);
    lemma_digits_no_sep(cv);
    lemma_digits_no_sep(sv);
    lemma_digits_no_sep(ev);
    let s = range_rep(r);
    let la = av.len() as int;
    let lb = bv.len() as int;
    let lc = cv.len() as int;
    let ls = sv.len() as int;
    let le = ev.len() as int;
    let i1 = la;
    let i2 = la + 1 + lb;
    let i3 = la + lb + 2 + lc;
    let i4 = i3 + 1 + ls;
    let n = s.len() as int;
    assert(n == la + lb + lc + ls + le + 4);
    assert(s[i1] == '.');
    assert(s[i2] == '.');
    assert(s[i3] == '.');
    assert(s[i4] == '-');
    assert forall|j: int| 0 <= j < i1 implies s[j] == av[j] by {}
    assert forall|j: int| i1 + 1 <= j < i2 implies s[j] == bv[j - i1 - 1] by {}
    assert forall|j: int| i2 + 1 <= j < i3 implies s[j] == cv[j - i2 - 1] by {}
    assert forall|j: int| i3 + 1 <= j < i4 implies s[j] == sv[j - i3 - 1] by {}
    assert forall|j: int| i4 + 1 <= j < n implies s[j] == ev[j - i4 - 1] by {}
    lemma_find_from_skip(s, '.', 0, i1);
    assert(dot1(s) == i1);
    lemma_find_from_skip(s, '.', i1 + 1, i2);
    assert(dot2(s) == i2);
    lemma_find_from_skip(s, '.', i2 + 1, i3);
    assert(dot3(s) == i3);
    assert forall|j: int| i3 + 1 <= j < n implies s[j] != '.' by {
        if j < i4 {
            assert(is_dec_digit(s[j]));
        } else if j > i4 {
            assert(is_dec_digit(s[j]));
        }
    }
    lemma_find_from_skip(s, '.', i3 + 1, n);
    assert(find_from(s, '.', i3 + 1) == n);
    lemma_find_from_skip(s, '-', i3 + 1, i4);
    assert(dash_of(s) == i4);
    assert(s.subrange(0, i1) =~= av);
    assert(s.subrange(i1 + 1, i2) =~= bv);
    assert(s.subrange(i2 + 1, i3) =~= cv);
    assert(s.subrange(i3 + 1, i4) =~= sv);
    assert(s.subrange(i4 + 1, n) =~= ev);
    assert(is_range_literal(s));
    assert(range_of(s) == r);
}

/// For every valid pair of address literals — well-formed, one subnet,
/// start at or before end — validation succeeds, and the address count
/// of the range it encodes is exactly `end - start + 1`.
pub proof fn lemma_pair_count(sv: Seq<char>, ev: Seq<char>)
    requires
        range_pair_ok(sv, ev),
    ensures
        range_count_spec(range_rep(pair_range(sv, ev))) == octet3(ev) - octet3(sv) + 1,
{
    lemma_count_of_encoded_range(pair_range(sv, ev));
}

/// A rendered address holds only digits and dots, so it stands as one
/// CSV cell.
pub proof fn lemma_ip_rep_comma_free(ip: IpAddress)
    ensures
        crate::fmt::comma_free(ip_rep(ip)),
{
    lemma_dec_rep_digits(ip.a as nat);
    lemma_dec_rep_digits(ip.b as nat);
    lemma_dec_rep_digits(ip.c as nat);
    lemma_dec_rep_digits(ip.d as nat);
    let s = ip_rep(ip);
    assert forall|i: int| 0 <= i < s.len() implies (#[trigger] s[i]) != ',' by {
        let av = dec_rep(ip.a as nat);
        let bv = dec_rep(ip.b as nat);
        let cv = dec_rep(ip.c as nat);
        let dv = dec_rep(ip.d as nat);
        let la = av.len() as int;
        let lb = bv.len() as int;
        let lc = cv.len() as int;
        if i < la {
            assert(s[i] == av[i] && is_dec_digit(av[i]));
        } else if i == la {
            assert(s[i] == '.');
        } else if i < la + 1 + lb {
            assert(s[i] == bv[i - la - 1] && is_dec_digit(bv[i - la - 1]));
        } else if i == la + 1 + lb {
            assert(s[i] == '.');
        } else if i < la + lb + 2 + lc {
            assert(s[i] == cv[i - la - lb - 2] && is_dec_digit(cv[i - la - lb - 2]));
        } else if i == la + lb + 2 + lc {
            assert(s[i] == '.');
        } else {
            assert(s[i] == dv[i - la - lb - lc - 3] && is_dec_digit(dv[i - la - lb - lc - 3]));
        }
    }
}

/// Rendering an address and reading it back is the identity: the
/// rendering is a well-formed literal denoting the same address.
pub proof fn lemma_ip_rep_parses(ip: IpAddress)
    ensures
        is_ip_literal(ip_rep(ip)),
        ip_of(ip_rep(ip)) == ip,
{
    let av = dec_rep(ip.a as nat);
    let bv = dec_rep(ip.b as nat);
    let cv = dec_rep(ip.c as nat);
    let dv = dec_rep(ip.d as nat);
    lemma_dec_rep_digits(ip.a as nat);
    lemma_dec_rep_digits(ip.b as nat);
    lemma_dec_rep_digits(ip.c as nat);
    lemma_dec_rep_digits(ip.d as nat);
    lemma_dec_rep_value(ip.a as nat);
    lemma_dec_rep_value(ip.b as nat);
    lemma_dec_rep_value(ip.c as nat);
    lemma_dec_rep_value(ip.d as nat);
    lemma_digits_no_sep(av);
    lemma_digits_no_sep(bv);
    lemma_digits_no_sep(cv);
    lemma_digits_no_sep(dv);
    let s = ip_rep(ip);
    let la = av.len() as int;
    let lb = bv.len() as int;
    let lc = cv.len() as int;
    let ld = dv.len() as int;
    let i1 = la;
    let i2 = la + 1 + lb;
    let i3 = la + lb + 2 + lc;
    let n = s.len() as int;
    assert(n == la + lb + lc + ld + 3);
    assert(s[i1] == '.');
    assert(s[i2] == '.');
    assert(s[i3] == '.');
    assert forall|j: int| 0 <= j < i1 implies s[j] == av[j] by {}
    assert forall|j: int| i1 + 1 <= j < i2 implies s[j] == bv[j - i1 - 1] by {}
    assert forall|j: int| i2 + 1 <= j < i3 implies s[j] == cv[j - i2 - 1] by {}
    assert forall|j: int| i3 + 1 <= j < n implies s[j] == dv[j - i3 - 1] by {}
    lemma_find_from_skip(s, '.', 0, i1);
    assert(dot1(s) == i1);
    lemma_find_from_skip(s, '.', i1 + 1, i2);
    assert(dot2(s) == i2);
    lemma_find_from_skip(s, '.', i2 + 1, i3);
    assert(dot3(s) == i3);
    assert forall|j: int| i3 + 1 <= j < n implies s[j] != '.' by {
        assert(is_dec_digit(s[j]));
    }
    lemma_find_from_skip(s, '.', i3 + 1, n);
    assert(find_from(s, '.', i3 + 1) == n);
    assert(s.subrange(0, i1) =~= av);
    assert(s.subrange(i1 + 1, i2) =~= bv);
    assert(s.subrange(i2 + 1, i3) =~= cv);
    assert(s.subrange(i3 + 1, n) =~= dv);
    assert(is_ip_literal(s));
    assert(ip_of(s) == ip);
}

} // verus!
