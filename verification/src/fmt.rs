//! Decimal rendering of unsigned values, including the fixed-point
//! forms used for telemetry readings (hundredths and tenths).

use vstd::prelude::*;

verus! {

/// The character for a single decimal digit.
pub open spec fn digit_char(d: nat) -> char {
    if d == 0 {
        '0'
    } else if d == 1 {
        '1'
    } else if d == 2 {
        '2'
    } else if d == 3 {
        '3'
    } else if d == 4 {
        '4'
    } else if d == 5 {
        '5'
    } else if d == 6 {
        '6'
    } else if d == 7 {
        '7'
    } else if d == 8 {
        '8'
    } else {
        '9'
    }
}

pub open spec fn is_dec_digit(c: char) -> bool {
    48 <= c as u32 <= 57
}

/// The numeric value of a decimal digit character.
pub open spec fn digit_val(c: char) -> nat {
    (c as u32 - 48) as nat
}

pub open spec fn all_digits(s: Seq<char>) -> bool {
    forall|i: int| 0 <= i < s.len() ==> is_dec_digit(#[trigger] s[i])
}

/// The number denoted by a digit string (most significant digit first).
pub open spec fn dec_value(s: Seq<char>) -> nat
    decreases s.len(),
{
    if s.len() == 0 {
        0
    } else {
        dec_value(s.drop_last()) * 10 + digit_val(s.last())
    }
}

/// The canonical decimal rendering of a number, without leading zeros.
pub open spec fn dec_rep(n: nat) -> Seq<char>
    decreases n,
{
    if n < 10 {
        seq![digit_char(n)]
    } else {
        dec_rep(n / 10) + seq![digit_char(n % 10)]
    }
}

/// Rendering of a value held in hundredths: integer part, '.', two digits.
pub open spec fn fixed2_rep(centi: nat) -> Seq<char> {
    dec_rep(centi / 100) + seq!['.', digit_char((centi / 10) % 10), digit_char(centi % 10)]
}

/// Rendering of a value held in tenths: integer part, '.', one digit.
pub open spec fn fixed1_rep(deci: nat) -> Seq<char> {
    dec_rep(deci / 10) + seq!['.', digit_char(deci % 10)]
}

pub proof fn lemma_digit_char_is_digit(d: nat)
    requires
        d < 10,
    ensures
        is_dec_digit(digit_char(d)),
        digit_val(digit_char(d)) == d,
{
}

pub proof fn lemma_dec_rep_digits(n: nat)
    ensures
        all_digits(dec_rep(n)),
        dec_rep(n).len() >= 1,
    decreases n,
{
    if n < 10 {
        lemma_digit_char_is_digit(n);
    } else {
        lemma_dec_rep_digits(n / 10);
        lemma_digit_char_is_digit(n % 10);
        assert forall|i: int| 0 <= i < dec_rep(n).len() implies is_dec_digit(
            #[trigger] dec_rep(n)[i],
        ) by {
            if i < dec_rep(n / 10).len() {
                assert(dec_rep(n)[i] == dec_rep(n / 10)[i]);
            }
        }
    }
}

/// A digit string denotes its value back: rendering then reading is the identity.
pub proof fn lemma_dec_rep_value(n: nat)
    ensures
        dec_value(dec_rep(n)) == n,
    decreases n,
{
    if n < 10 {
        lemma_digit_char_is_digit(n);
        assert(dec_rep(n).drop_last() =~= Seq::<char>::empty());
        assert(dec_value(Seq::<char>::empty()) == 0);
        assert(dec_rep(n).last() == digit_char(n));
        assert(dec_value(dec_rep(n)) == dec_value(dec_rep(n).drop_last()) * 10 + digit_val(
            dec_rep(n).last(),
        ));
    } else {
        lemma_dec_rep_value(n / 10);
        lemma_digit_char_is_digit(n % 10);
        lemma_dec_rep_digits(n / 10);
        assert(dec_rep(n).drop_last() =~= dec_rep(n / 10));
        assert(dec_rep(n).last() == digit_char(n % 10));
        assert(dec_value(dec_rep(n)) == dec_value(dec_rep(n / 10)) * 10 + digit_val(
            digit_char(n % 10),
        ));
        assert((n / 10) * 10 + n % 10 == n) by (nonlinear_arith);
    }
}

/// Whether a string can stand as one CSV cell: it holds no comma.
pub open spec fn comma_free(s: Seq<char>) -> bool {
    forall|i: int| 0 <= i < s.len() ==> (#[trigger] s[i]) != ','
}

/// How many commas a string holds; a row of `n + 1` comma-free cells
/// joined by commas holds exactly `n`.
pub open spec fn comma_count(s: Seq<char>) -> nat
    decreases s.len(),
{
    if s.len() == 0 {
        0
    } else {
        comma_count(s.drop_last()) + if s.last() == ',' {
            1nat
        } else {
            0nat
        }
    }
}

pub proof fn lemma_comma_count_concat(a: Seq<char>, b: Seq<char>)
    ensures
        comma_count(a + b) == comma_count(a) + comma_count(b),
    decreases b.len(),
{
    if b.len() == 0 {
        assert(a + b =~= a);
    } else {
        lemma_comma_count_concat(a, b.drop_last());
        assert((a + b).drop_last() =~= a + b.drop_last());
        assert((a + b).last() == b.last());
    }
}

pub proof fn lemma_comma_free_count(s: Seq<char>)
    requires
        comma_free(s),
    ensures
        comma_count(s) == 0,
    decreases s.len(),
{
    if s.len() > 0 {
        assert(comma_free(s.drop_last()));
        lemma_comma_free_count(s.drop_last());
        assert(s.last() != ',');
    }
}

pub proof fn lemma_single_comma_count()
    ensures
        comma_count(seq![',']) == 1,
{
    assert(seq![','].drop_last() =~= Seq::<char>::empty());
    assert(comma_count(Seq::<char>::empty()) == 0);
}

pub proof fn lemma_dec_rep_comma_free(n: nat)
    ensures
        comma_free(dec_rep(n)),
{
    lemma_dec_rep_digits(n);
    assert forall|i: int| 0 <= i < dec_rep(n).len() implies (#[trigger] dec_rep(n)[i]) != ',' by {
        assert(is_dec_digit(dec_rep(n)[i]));
    }
}

pub proof fn lemma_fixed2_comma_free(c: nat)
    ensures
        comma_free(fixed2_rep(c)),
{
    lemma_dec_rep_comma_free(c / 100);
    assert forall|i: int| 0 <= i < fixed2_rep(c).len() implies (#[trigger] fixed2_rep(c)[i])
        != ',' by {
        if i < dec_rep(c / 100).len() {
            assert(fixed2_rep(c)[i] == dec_rep(c / 100)[i]);
        }
    }
}

pub proof fn lemma_fixed1_comma_free(d: nat)
    ensures
        comma_free(fixed1_rep(d)),
{
    lemma_dec_rep_comma_free(d / 10);
    assert forall|i: int| 0 <= i < fixed1_rep(d).len() implies (#[trigger] fixed1_rep(d)[i])
        != ',' by {
        if i < dec_rep(d / 10).len() {
            assert(fixed1_rep(d)[i] == dec_rep(d / 10)[i]);
        }
    }
}

fn digit_to_str(d: u64) -> (r: &'static str)
    requires
        d < 10,
    ensures
        r@ =~= seq![digit_char(d as nat)],
{
    proof {
        reveal_strlit("0");
        reveal_strlit("1");
        reveal_strlit("2");
        reveal_strlit("3");
        reveal_strlit("4");
        reveal_strlit("5");
        reveal_strlit("6");
        reveal_strlit("7");
        reveal_strlit("8");
        reveal_strlit("9");
    }
    if d == 0 {
        "0"
    } else if d == 1 {
        "1"
    } else if d == 2 {
        "2"
    } else if d == 3 {
        "3"
    } else if d == 4 {
        "4"
    } else if d == 5 {
        "5"
    } else if d == 6 {
        "6"
    } else if d == 7 {
        "7"
    } else if d == 8 {
        "8"
    } else {
        "9"
    }
}

/// Renders a number in decimal, without leading zeros.
pub fn u64_to_string(n: u64) -> (r: String)
    ensures
        r@ == dec_rep(n as nat),
    decreases n,
{
    if n < 10 {
        String::from_str(digit_to_str(n))
    } else {
        let mut s = u64_to_string(n / 10);
        s.append(digit_to_str(n % 10));
        proof {
            assert(s@ =~= dec_rep(n as nat));
        }
        s
    }
}

/// Renders a value held in hundredths with two decimal places ("12.34").
pub fn fixed2_to_string(centi: u64) -> (r: String)
    ensures
        r@ == fixed2_rep(centi as nat),
{
    let mut s = u64_to_string(centi / 100);
    s.append(".");
    s.append(digit_to_str((centi / 10) % 10));
    s.append(digit_to_str(centi % 10));
    proof {
        reveal_strlit(".");
        assert(s@ =~= fixed2_rep(centi as nat));
    }
    s
}

/// Renders a value held in tenths with one decimal place ("65.0").
pub fn fixed1_to_string(deci: u64) -> (r: String)
    ensures
        r@ == fixed1_rep(deci as nat),
{
    let mut s = u64_to_string(deci / 10);
    s.append(".");
    s.append(digit_to_str(deci % 10));
    proof {
        reveal_strlit(".");
        assert(s@ =~= fixed1_rep(deci as nat));
    }
    s
}

} // verus!
