//! `Money`: an exact fixed-point quantity with four decimal places.
use crate::decimal::{
    all_digits, ascii_len, decimal_digits, decimal_value, digit_run_end, digit_value,
    digits_value, fixed_digits, is_digit, lemma_decimal_digits, lemma_decimal_value_bound,
    lemma_decimal_value_concat, lemma_decimal_value_push, lemma_fixed_digits,
    lemma_pow10_positive, pow10, push_decimal, push_fixed,
};
use core::cmp::Ordering;
use vstd::arithmetic::div_mod::{
    lemma_div_multiples_vanish_quotient, lemma_div_pos_is_pos, lemma_fundamental_div_mod,
    lemma_fundamental_div_mod_converse, lemma_mod_pos_bound,
};
use vstd::prelude::*;
use vstd::string::*;
use vstd::std_specs::cmp::PartialOrdSpecImpl;
use vstd::std_specs::ops::AddSpec;
use vstd::std_specs::ops::AddSpecImpl;
use vstd::std_specs::ops::SubSpec;
use vstd::std_specs::ops::SubSpecImpl;

verus! {

/// The number of `Money` units in one whole.
pub const ONE_MONEY: i64 = 10000;

/// `Money` is a numeric quantity with four decimal places, held as a signed
/// count of ten-thousandths.
#[derive(Clone, Copy, Debug, PartialEq, Eq, Structural, Ord, Hash)]
pub struct Money(pub i64);

impl View for Money {
    type V = int;

    /// The amount as a count of ten-thousandths.
    open spec fn view(&self) -> int {
        self.0 as int
    }
}

/// Whether `v` ten-thousandths can be held by a `Money`.
pub open spec fn representable(v: int) -> bool {
    i64::MIN <= v <= i64::MAX
}

/// Why a text is not an amount of money.
#[derive(Clone, Copy, Debug, PartialEq, Eq, Structural)]
pub enum ParseMoneyError {
    /// The text is not of the shape `[-]INT[.FRAC]`: an optional minus sign,
    /// digits, and optionally a point and digits, with a digit somewhere.
    Malformed,
    /// The text is of that shape, but the amount is too large for `Money`.
    OutOfRange,
}

/// Whether `p` is where the first `.` of `s` stands, or the length of `s`
/// where `s` has none.
pub open spec fn is_first_point(s: Seq<char>, p: int) -> bool {
    &&& 0 <= p <= s.len()
    &&& forall|i: int| 0 <= i < p ==> s[i] != '.'
    &&& p < s.len() ==> s[p] == '.'
}

/// Where the first `.` of `s` stands, or the length of `s` where it has none.
pub open spec fn first_point(s: Seq<char>) -> int
    decreases s.len(),
{
    if s.len() == 0 || s[0] == '.' {
        0
    } else {
        1 + first_point(s.drop_first())
    }
}

/// Whether the text starts with a minus sign.
pub open spec fn has_sign(s: Seq<char>) -> bool {
    s.len() > 0 && s[0] == '-'
}

/// The text without its minus sign.
pub open spec fn unsigned_part(s: Seq<char>) -> Seq<char> {
    if has_sign(s) {
        s.drop_first()
    } else {
        s
    }
}

/// What stands between the sign and the first point: the integer part.
pub open spec fn whole_digits(s: Seq<char>) -> Seq<char> {
    let body = unsigned_part(s);
    body.take(first_point(body))
}

/// What stands after the first point: the fractional part. Empty where the
/// text has no point.
pub open spec fn fraction_digits(s: Seq<char>) -> Seq<char> {
    let body = unsigned_part(s);
    let p = first_point(body);
    if p < body.len() {
        body.skip(p + 1)
    } else {
        Seq::empty()
    }
}

/// Whether the text is of the shape `[-]INT[.FRAC]`. Either part may be
/// empty, not both; neither holds anything but digits, so a second sign or a
/// second point makes the text malformed.
pub open spec fn well_formed(s: Seq<char>) -> bool {
    &&& all_digits(whole_digits(s))
    &&& all_digits(fraction_digits(s))
    &&& whole_digits(s).len() + fraction_digits(s).len() > 0
}

/// The whole number nearest to `numerator / denominator`; a half rounds up.
pub open spec fn round_half_up(numerator: nat, denominator: nat) -> nat {
    ((2 * numerator + denominator) / (2 * denominator)) as nat
}

/// The ten-thousandths that a fractional part is worth, rounded half up to a
/// whole number of them.
pub open spec fn fraction_units(fraction: Seq<char>) -> nat {
    round_half_up(decimal_value(fraction) * 10000, pow10(fraction.len()))
}

/// The ten-thousandths that a well-formed text is worth, without its sign.
pub open spec fn magnitude(s: Seq<char>) -> nat {
    decimal_value(whole_digits(s)) * 10000 + fraction_units(fraction_digits(s))
}

/// The ten-thousandths that a well-formed text is worth. The sign applies to
/// the rounded magnitude, so a negative half rounds away from zero.
pub open spec fn text_value(s: Seq<char>) -> int {
    if has_sign(s) {
        -(magnitude(s) as int)
    } else {
        magnitude(s) as int
    }
}

/// What parsing a text as money gives.
pub open spec fn parse_spec(s: Seq<char>) -> Result<Money, ParseMoneyError> {
    if !well_formed(s) {
        Err(ParseMoneyError::Malformed)
    } else if !representable(text_value(s)) {
        Err(ParseMoneyError::OutOfRange)
    } else {
        Ok(Money(text_value(s) as i64))
    }
}

/// `first_point` finds the first point.
pub proof fn lemma_first_point(s: Seq<char>)
    ensures
        is_first_point(s, first_point(s)),
    decreases s.len(),
{
    if s.len() == 0 || s[0] == '.' {
    } else {
        let rest = s.drop_first();
        lemma_first_point(rest);
        let p = first_point(s);
        assert forall|i: int| 0 <= i < p implies s[i] != '.' by {
            if i > 0 {
                assert(rest[i - 1] == s[i]);
            }
        }
        if p < s.len() {
            assert(rest[p - 1] == s[p]);
        }
    }
}

/// There is one first point.
pub proof fn lemma_first_point_unique(s: Seq<char>, p: int)
    requires
        is_first_point(s, p),
    ensures
        p == first_point(s),
{
    lemma_first_point(s);
}

/// Ten to the power `a + b` is the product of the two powers.
pub proof fn lemma_pow10_add(a: nat, b: nat)
    ensures
        pow10(a + b) == pow10(a) * pow10(b),
    decreases a,
{
    if a == 0 {
        assert(pow10(0) == 1);
        assert(pow10(a) * pow10(b) == pow10(b)) by (nonlinear_arith)
            requires
                pow10(a) == 1,
        ;
    } else {
        lemma_pow10_add((a - 1) as nat, b);
        assert(pow10(a + b) == 10 * pow10((a - 1 + b) as nat));
        assert(pow10(a) == 10 * pow10((a - 1) as nat));
        assert(10 * (pow10((a - 1) as nat) * pow10(b)) == (10 * pow10((a - 1) as nat)) * pow10(b))
            by (nonlinear_arith);
    }
}

/// A fractional part of at most four digits is worth exactly what its digits
/// say: nothing is rounded.
pub proof fn lemma_fraction_units_short(fraction: Seq<char>)
    requires
        fraction.len() <= 4,
    ensures
        fraction_units(fraction) == decimal_value(fraction) * pow10((4 - fraction.len()) as nat),
{
    let n = fraction.len();
    let d = pow10(n) as int;
    let k = (decimal_value(fraction) * pow10((4 - n) as nat)) as int;
    lemma_pow10_positive(n);
    lemma_pow10_add((4 - n) as nat, n);
    assert(pow10(4) == 10000) by {
        reveal_with_fuel(pow10, 5);
    }
    let v = decimal_value(fraction) as int;
    let e = pow10((4 - n) as nat) as int;
    assert(2 * (v * 10000) + d == k * (2 * d) + d) by (nonlinear_arith)
        requires
            k == v * e,
            10000 == e * d,
    ;
    lemma_fundamental_div_mod_converse(2 * (v * 10000) + d, 2 * d, k, d);
}

/// A fractional part of more than four digits is worth its first four
/// digits, and one more where the fifth digit is 5 or more.
pub proof fn lemma_fraction_units_long(fraction: Seq<char>)
    requires
        all_digits(fraction),
        fraction.len() > 4,
    ensures
        fraction_units(fraction) == decimal_value(fraction.take(4)) + (if digit_value(fraction[4])
            >= 5 {
            1nat
        } else {
            0nat
        }),
{
    let kept = fraction.take(4);
    let dropped = fraction.skip(4);
    let rest = dropped.drop_first();
    assert(fraction =~= kept + dropped);
    assert(dropped =~= seq![fraction[4]] + rest);
    assert forall|i: int| 0 <= i < dropped.len() implies is_digit(#[trigger] dropped[i]) by {
        assert(dropped[i] == fraction[i + 4]);
    }
    assert forall|i: int| 0 <= i < rest.len() implies is_digit(#[trigger] rest[i]) by {
        assert(rest[i] == fraction[i + 5]);
    }
    lemma_decimal_value_concat(kept, dropped);
    lemma_decimal_value_concat(seq![fraction[4]], rest);
    lemma_decimal_value_bound(rest);
    assert(decimal_value(seq![fraction[4]]) == digit_value(fraction[4])) by {
        reveal_with_fuel(decimal_value, 2);
        assert(seq![fraction[4]].drop_last() =~= Seq::<char>::empty());
    }
    assert(is_digit(fraction[4]));
    let g = decimal_value(kept) as int;
    let h = decimal_value(dropped) as int;
    let c = digit_value(fraction[4]) as int;
    let r = decimal_value(rest) as int;
    let q = pow10(rest.len()) as int;
    let m = pow10(dropped.len()) as int;
    let d = pow10(fraction.len()) as int;
    lemma_pow10_positive(rest.len());
    assert(m == 10 * q);
    lemma_pow10_add(4, dropped.len());
    assert(pow10(4) == 10000) by {
        reveal_with_fuel(pow10, 5);
    }
    assert(d == 10000 * m);
    assert(h == c * q + r);
    let up: int = if c >= 5 {
        1
    } else {
        0
    };
    // 2h >= m exactly where the first dropped digit is 5 or more
    assert(up == 1 ==> 2 * h >= m) by (nonlinear_arith)
        requires
            h == c * q + r,
            m == 10 * q,
            r >= 0,
            q > 0,
            up == 1 ==> c >= 5,
    ;
    assert(up == 0 ==> 2 * h < m) by (nonlinear_arith)
        requires
            h == c * q + r,
            m == 10 * q,
            0 <= r < q,
            up == 0 ==> 0 <= c <= 4,
    ;
    let v = decimal_value(fraction) as int;
    assert(v == g * m + h);
    let rem = 10000 * (2 * h + m - up * (2 * m));
    assert(2 * (v * 10000) + d == (g + up) * (2 * d) + rem) by (nonlinear_arith)
        requires
            v == g * m + h,
            d == 10000 * m,
            rem == 10000 * (2 * h + m - up * (2 * m)),
    ;
    assert(h < m) by {
        lemma_decimal_value_bound(dropped);
    }
    assert(0 <= rem < 2 * d);
    lemma_fundamental_div_mod_converse(2 * (v * 10000) + d, 2 * d, g + up, rem);
}

/// A well-formed text holds nothing but a sign, digits and a point, so it is
/// ASCII.
pub proof fn lemma_well_formed_is_ascii(s: Seq<char>)
    requires
        well_formed(s),
    ensures
        vstd::utf8::is_ascii_chars(s),
{
    let body = unsigned_part(s);
    let shift: int = if has_sign(s) {
        1
    } else {
        0
    };
    let p = first_point(body);
    lemma_first_point(body);
    assert forall|i: int| 0 <= i < s.len() implies '\0' <= #[trigger] s[i] <= '\u{7f}' by {
        if i >= shift {
            let j = i - shift;
            assert(body[j] == s[i]);
            if j < p {
                assert(whole_digits(s)[j] == body[j]);
                assert(is_digit(whole_digits(s)[j]));
            } else if j > p {
                assert(fraction_digits(s)[j - p - 1] == body[j]);
                assert(is_digit(fraction_digits(s)[j - p - 1]));
            }
        }
    }
}

/// The size of `v`, without its sign.
pub open spec fn abs(v: int) -> nat {
    if v < 0 {
        (-v) as nat
    } else {
        v as nat
    }
}

/// How an amount of `v` ten-thousandths is written: a minus sign where it is
/// negative, the whole part, a point, and four fractional digits.
pub open spec fn money_text(v: int) -> Seq<char> {
    (if v < 0 {
        seq!['-']
    } else {
        Seq::<char>::empty()
    }) + decimal_digits(abs(v) / 10000) + seq!['.'] + fixed_digits(abs(v) % 10000, 4)
}

/// `round_half_up` gives the whole number nearest to the exact quotient: it
/// is no more than a half above the quotient and less than a half below it,
/// so that of two whole numbers equally near it is the larger.
pub proof fn lemma_round_half_up_is_nearest(numerator: nat, denominator: nat)
    requires
        denominator > 0,
    ensures
        2 * numerator - denominator < 2 * (round_half_up(numerator, denominator) * denominator)
            <= 2 * numerator + denominator,
{
    let x = 2 * numerator + denominator;
    let d = 2 * denominator;
    lemma_fundamental_div_mod(x as int, d as int);
    lemma_mod_pos_bound(x as int, d as int);
    let q = x as int / d as int;
    assert(q >= 0) by {
        lemma_div_pos_is_pos(x as int, d as int);
    }
    assert(d * q == 2 * (q * denominator)) by (nonlinear_arith)
        requires
            d == 2 * denominator,
    ;
}

/// The size of the amount that a well-formed text is worth is the size that
/// the text writes, rounded to the nearest ten-thousandth, a half upwards.
/// With `n` fractional digits and `scale` ten to the power `n`, the text
/// writes `(whole * scale + fraction) / scale`; `exact` below is that size in
/// ten-thousandths, times `scale`.
pub proof fn lemma_text_value_is_rounded(text: Seq<char>)
    requires
        well_formed(text),
    ensures
        ({
            let scale = pow10(fraction_digits(text).len());
            let exact = (decimal_value(whole_digits(text)) * scale + decimal_value(
                fraction_digits(text),
            )) * 10000;
            2 * exact - scale < 2 * (magnitude(text) * scale) <= 2 * exact + scale
        }),
{
    let fraction = fraction_digits(text);
    let scale = pow10(fraction.len());
    lemma_pow10_positive(fraction.len());
    lemma_round_half_up_is_nearest(decimal_value(fraction) * 10000, scale);
    let w = decimal_value(whole_digits(text)) as int;
    let f = decimal_value(fraction) as int;
    let u = fraction_units(fraction) as int;
    let s = scale as int;
    assert((w * s + f) * 10000 == (w * 10000) * s + f * 10000) by (nonlinear_arith);
    assert((w * 10000 + u) * s == (w * 10000) * s + u * s) by (nonlinear_arith);
}

/// Writing an amount and reading the text back gives the amount: the text
/// that `format` writes is well formed, and is worth what was written.
pub proof fn lemma_format_then_parse(amount: Money)
    ensures
        parse_spec(money_text(amount@)) == Ok::<Money, ParseMoneyError>(amount),
{
    let v = amount@;
    let whole = decimal_digits(abs(v) / 10000);
    let fraction = fixed_digits(abs(v) % 10000, 4);
    let text = money_text(v);
    let body = whole + seq!['.'] + fraction;
    lemma_decimal_digits(abs(v) / 10000);
    assert(pow10(4) == 10000 && pow10(0) == 1) by {
        reveal_with_fuel(pow10, 5);
    }
    lemma_fixed_digits(abs(v) % 10000, 4);
    if v < 0 {
        assert(text[0] == '-');
        assert(text.drop_first() =~= body);
    } else {
        assert(text =~= body);
        assert(text[0] == whole[0]);
        assert(is_digit(whole[0]));
    }
    assert(unsigned_part(text) == body);
    assert(is_first_point(body, whole.len() as int)) by {
        assert forall|i: int| 0 <= i < whole.len() implies body[i] != '.' by {
            assert(body[i] == whole[i]);
            assert(is_digit(whole[i]));
        }
        assert(body[whole.len() as int] == '.');
    }
    lemma_first_point_unique(body, whole.len() as int);
    assert(whole_digits(text) =~= whole);
    assert(fraction_digits(text) =~= fraction);
    lemma_fraction_units_short(fraction);
    assert(fraction_units(fraction) == abs(v) % 10000) by (nonlinear_arith)
        requires
            fraction_units(fraction) == decimal_value(fraction) * pow10((4 - fraction.len()) as nat),
            fraction.len() == 4,
            pow10(0) == 1,
            decimal_value(fraction) == abs(v) % 10000,
    ;
    assert(magnitude(text) == abs(v));
}

/// Reading a text, writing the amount and reading that again gives the same
/// amount: what `format` writes of a parsed amount is the canonical text of
/// the rounded value.
pub proof fn lemma_parse_then_format(text: Seq<char>)
    requires
        parse_spec(text) is Ok,
    ensures
        parse_spec(money_text(parse_spec(text)->Ok_0@)) == parse_spec(text),
{
    lemma_format_then_parse(parse_spec(text)->Ok_0);
}

/// A zero after the last fractional digit changes nothing: a well-formed
/// text with a point reads the same with one more `0` at its end.
pub proof fn lemma_trailing_zero(text: Seq<char>)
    requires
        first_point(unsigned_part(text)) < unsigned_part(text).len(),
        well_formed(text),
    ensures
        parse_spec(text.push('0')) == parse_spec(text),
{
    let padded = text.push('0');
    let body = unsigned_part(text);
    let p = first_point(body);
    let fraction = fraction_digits(text);
    lemma_first_point(body);
    assert(has_sign(padded) == has_sign(text));
    assert(unsigned_part(padded) =~= body.push('0'));
    assert(is_first_point(body.push('0'), p)) by {
        assert forall|i: int| 0 <= i < p implies body.push('0')[i] != '.' by {
            assert(body.push('0')[i] == body[i]);
        }
        assert(body.push('0')[p] == body[p]);
    }
    lemma_first_point_unique(body.push('0'), p);
    assert(whole_digits(padded) =~= whole_digits(text));
    assert(fraction_digits(padded) =~= fraction.push('0'));
    assert forall|i: int| 0 <= i < fraction.push('0').len() implies is_digit(
        #[trigger] fraction.push('0')[i],
    ) by {
        if i < fraction.len() {
            assert(fraction.push('0')[i] == fraction[i]);
        }
    }
    lemma_decimal_value_push(fraction, '0');
    lemma_pow10_positive(fraction.len());
    let n = decimal_value(fraction) as int;
    let d = pow10(fraction.len()) as int;
    assert(pow10(fraction.push('0').len()) == 10 * d);
    lemma_div_multiples_vanish_quotient(10, 2 * (n * 10000) + d, 2 * d);
    assert(2 * ((n * 10) * 10000) + 10 * d == 10 * (2 * (n * 10000) + d));
    assert(2 * (10 * d) == 10 * (2 * d));
    assert(fraction_units(fraction.push('0')) == fraction_units(fraction));
}

/// Adding an amount and taking it away again gives the first amount back,
/// wherever the sum can be held.
pub proof fn lemma_add_then_sub(a: Money, b: Money)
    requires
        AddSpec::add_req(a, b),
    ensures
        SubSpec::sub_req(AddSpec::add_spec(a, b), b),
        SubSpec::sub_spec(AddSpec::add_spec(a, b), b) == a,
        AddSpec::add_spec(a, b)@ == a@ + b@,
{
}

/// Where the parts of a well-formed text stand in it.
struct Parts {
    negative: bool,
    whole_start: usize,
    whole_end: usize,
    fraction_start: usize,
}

/// Finds the sign, the integer part and the fractional part of `text`, or
/// finds that it is malformed.
fn find_parts(text: &str) -> (found: Option<Parts>)
    requires
        text.is_ascii(),
    ensures
        found is Some <==> well_formed(text@),
        found matches Some(parts) ==> {
            &&& parts.negative == has_sign(text@)
            &&& parts.whole_start <= parts.whole_end <= parts.fraction_start <= text@.len()
            &&& whole_digits(text@) == text@.subrange(
                parts.whole_start as int,
                parts.whole_end as int,
            )
            &&& fraction_digits(text@) == text@.subrange(
                parts.fraction_start as int,
                text@.len() as int,
            )
        },
{
    let n = ascii_len(text);
    let negative = n > 0 && text.get_ascii(0) == 45;
    let start: usize = if negative {
        1
    } else {
        0
    };
    let ghost body = unsigned_part(text@);
    assert(negative == has_sign(text@));
    assert(body =~= text@.subrange(start as int, n as int));
    let whole_end = digit_run_end(text, start);
    let ghost whole = text@.subrange(start as int, whole_end as int);
    proof {
        lemma_first_point(body);
        assert forall|i: int| 0 <= i < whole_end - start implies body[i] != '.' by {
            assert(whole[i] == body[i]);
            assert(is_digit(whole[i]));
        }
    }
    let fraction_start: usize = if whole_end == n {
        n
    } else if text.get_ascii(whole_end) == 46 {
        whole_end + 1
    } else {
        proof {
            // the first point, if any, comes later: the integer part holds
            // what stands here, which is no digit
            let p = first_point(body);
            let at = whole_end - start;
            assert(body[at] == text@[whole_end as int]);
            assert(p > at);
            assert(whole_digits(text@)[at] == body[at]);
        }
        return None;
    };
    let ghost fraction = text@.subrange(fraction_start as int, n as int);
    proof {
        if whole_end == n {
            lemma_first_point_unique(body, body.len() as int);
        } else {
            assert(body[whole_end - start] == text@[whole_end as int]);
            lemma_first_point_unique(body, whole_end - start);
        }
        assert(whole_digits(text@) =~= whole);
        assert(fraction_digits(text@) =~= fraction);
    }
    let fraction_end = digit_run_end(text, fraction_start);
    if fraction_end != n {
        proof {
            assert(fraction[fraction_end - fraction_start] == text@[fraction_end as int]);
        }
        return None;
    }
    if whole_end - start + (n - fraction_start) == 0 {
        return None;
    }
    Some(Parts { negative, whole_start: start, whole_end, fraction_start })
}

/// The ten-thousandths that the digits of `text` from `fraction_start` on are
/// worth as a fractional part.
fn read_fraction_units(text: &str, fraction_start: usize) -> (units: u64)
    requires
        text.is_ascii(),
        fraction_start <= text@.len(),
        all_digits(text@.subrange(fraction_start as int, text@.len() as int)),
    ensures
        units == fraction_units(text@.subrange(fraction_start as int, text@.len() as int)),
        units <= 10000,
{
    let n = ascii_len(text);
    let ghost fraction = text@.subrange(fraction_start as int, n as int);
    let fraction_len = n - fraction_start;
    let kept_end: usize = if fraction_len > 4 {
        fraction_start + 4
    } else {
        n
    };
    let ghost kept = text@.subrange(fraction_start as int, kept_end as int);
    proof {
        assert(kept =~= fraction.take(kept_end - fraction_start));
        assert forall|i: int| 0 <= i < kept.len() implies is_digit(#[trigger] kept[i]) by {
            assert(kept[i] == fraction[i]);
        }
        lemma_decimal_value_bound(kept);
        assert(pow10(kept.len()) <= 10000) by {
            reveal_with_fuel(pow10, 5);
        }
    }
    let kept_value = digits_value(text, fraction_start, kept_end, 9999).unwrap();
    if fraction_len > 4 {
        let fifth = text.get_ascii(fraction_start + 4);
        proof {
            lemma_fraction_units_long(fraction);
            assert(fraction[4] == text@[fraction_start + 4]);
            assert(is_digit(fraction[4]));
            assert(digit_value(fraction[4]) == fifth - 48);
        }
        let units = if fifth >= 53 {
            kept_value + 1
        } else {
            kept_value
        };
        assert(units == fraction_units(fraction));
        units
    } else {
        proof {
            lemma_fraction_units_short(fraction);
            assert(kept =~= fraction);
            assert(pow10(0) == 1 && pow10(1) == 10 && pow10(2) == 100 && pow10(3) == 1000 && pow10(4)
                == 10000) by {
                reveal_with_fuel(pow10, 5);
            }
            assert(fraction.len() == fraction_len);
            assert(kept_value < pow10(fraction_len as nat));
        }
        let ghost shift = (4 - fraction.len()) as nat;
        let scale: u64 = if fraction_len == 4 {
            1
        } else if fraction_len == 3 {
            10
        } else if fraction_len == 2 {
            100
        } else if fraction_len == 1 {
            1000
        } else {
            10000
        };
        assert(scale == pow10(shift));
        assert(kept_value * scale < 10000 && fraction_units(fraction) == kept_value * scale)
            by (nonlinear_arith)
            requires
                fraction_units(fraction) == kept_value * pow10(shift),
                scale == pow10(shift),
                kept_value < pow10(fraction_len as nat),
                pow10(fraction_len as nat) * scale == 10000,
        ;
        kept_value * scale
    }
}

impl Money {
    /// The amount of nothing.
    pub fn zero() -> (m: Money)
        ensures
            m@ == 0,
    {
        Money(0)
    }

    /// The amount of `num` ten-thousandths.
    pub fn from_i64(num: i64) -> (m: Money)
        ensures
            m@ == num,
    {
        Money(num)
    }

    /// Reads an amount of the shape `[-]INT[.FRAC]`. A missing integer part
    /// or a missing fractional part counts as zero; a fractional part of more
    /// than four digits is rounded half up to four.
    pub fn parse(text: &str) -> (result: Result<Money, ParseMoneyError>)
        ensures
            result == parse_spec(text@),
    {
        if !text.is_ascii() {
            proof {
                if well_formed(text@) {
                    lemma_well_formed_is_ascii(text@);
                }
            }
            return Err(ParseMoneyError::Malformed);
        }
        let parts = match find_parts(text) {
            Some(parts) => parts,
            None => {
                return Err(ParseMoneyError::Malformed);
            },
        };
        let units = read_fraction_units(text, parts.fraction_start);
        let whole_value = match digits_value(
            text,
            parts.whole_start,
            parts.whole_end,
            922_337_203_685_477,
        ) {
            Some(value) => value,
            None => {
                return Err(ParseMoneyError::OutOfRange);
            },
        };
        let total: u64 = whole_value * 10000 + units;
        assert(total == magnitude(text@));
        if parts.negative {
            if total > 9_223_372_036_854_775_808 {
                Err(ParseMoneyError::OutOfRange)
            } else if total == 9_223_372_036_854_775_808 {
                Ok(Money(i64::MIN))
            } else {
                Ok(Money(-(total as i64)))
            }
        } else {
            if total > 9_223_372_036_854_775_807 {
                Err(ParseMoneyError::OutOfRange)
            } else {
                Ok(Money(total as i64))
            }
        }
    }

    /// Writes the amount: the whole part with its sign, a point, and exactly
    /// four fractional digits.
    pub fn format(&self) -> (text: String)
        ensures
            text@ == money_text(self@),
    {
        let size: u64 = if self.0 == i64::MIN {
            9_223_372_036_854_775_808
        } else if self.0 < 0 {
            (-self.0) as u64
        } else {
            self.0 as u64
        };
        let mut text = String::new();
        if self.0 < 0 {
            proof {
                reveal_strlit("-");
            }
            text.append("-");
        }
        push_decimal(&mut text, size / 10000);
        proof {
            reveal_strlit(".");
        }
        text.append(".");
        push_fixed(&mut text, size % 10000, 4);
        assert(text@ =~= money_text(self@));
        text
    }

    /// Gives the amount the sign asked for and keeps its size.
    pub fn set_sign_negative(&mut self, negative: bool)
        requires
            old(self)@ != i64::MIN,
        ensures
            final(self)@ == (if negative {
                -abs(old(self)@)
            } else {
                abs(old(self)@) as int
            }),
    {
        let size: i64 = if self.0 < 0 {
            -self.0
        } else {
            self.0
        };
        self.0 = if negative {
            -size
        } else {
            size
        };
    }

    /// Whether the amount is more than nothing.
    pub fn is_positive(&self) -> (b: bool)
        ensures
            b == (self@ > 0),
    {
        self.0 > 0
    }

    /// Whether the amount is less than nothing.
    pub fn is_negative(&self) -> (b: bool)
        ensures
            b == (self@ < 0),
    {
        self.0 < 0
    }
}

impl Default for Money {
    /// The amount of nothing.
    fn default() -> (m: Money)
        ensures
            m@ == 0,
    {
        Money(0)
    }
}

impl core::ops::Add for Money {
    type Output = Money;

    fn add(self, rhs: Money) -> (sum: Money)
    {
        Money(self.0 + rhs.0)
    }
}

impl AddSpecImpl for Money {
    open spec fn obeys_add_spec() -> bool {
        true
    }

    open spec fn add_req(self, rhs: Money) -> bool {
        representable(self@ + rhs@)
    }

    open spec fn add_spec(self, rhs: Money) -> Money {
        Money((self.0 + rhs.0) as i64)
    }
}

impl core::ops::Sub for Money {
    type Output = Money;

    fn sub(self, rhs: Money) -> (difference: Money)
    {
        Money(self.0 - rhs.0)
    }
}

impl SubSpecImpl for Money {
    open spec fn obeys_sub_spec() -> bool {
        true
    }

    open spec fn sub_req(self, rhs: Money) -> bool {
        representable(self@ - rhs@)
    }

    open spec fn sub_spec(self, rhs: Money) -> Money {
        Money((self.0 - rhs.0) as i64)
    }
}

impl PartialOrd for Money {
    fn partial_cmp(&self, other: &Money) -> (order: Option<Ordering>) {
        if self.0 < other.0 {
            Some(Ordering::Less)
        } else if self.0 == other.0 {
            Some(Ordering::Equal)
        } else {
            Some(Ordering::Greater)
        }
    }
}

/// Amounts are ordered as their counts of ten-thousandths are.
impl PartialOrdSpecImpl for Money {
    open spec fn obeys_partial_cmp_spec() -> bool {
        true
    }

    open spec fn partial_cmp_spec(&self, other: &Money) -> Option<Ordering> {
        if self.0 < other.0 {
            Some(Ordering::Less)
        } else if self.0 == other.0 {
            Some(Ordering::Equal)
        } else {
            Some(Ordering::Greater)
        }
    }
}

} // verus!
