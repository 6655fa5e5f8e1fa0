//! Decimal digits as text: what a run of digits is worth, and how to read it.
use vstd::prelude::*;
use vstd::string::*;

verus! {

/// Whether `c` is one of `0` to `9`.
pub open spec fn is_digit(c: char) -> bool {
    '0' <= c <= '9'
}

/// What the digit `c` is worth.
pub open spec fn digit_value(c: char) -> nat {
    (c as int - '0' as int) as nat
}

/// Whether `s` holds digits and nothing else. The empty text does.
pub open spec fn all_digits(s: Seq<char>) -> bool {
    forall|i: int| 0 <= i < s.len() ==> is_digit(#[trigger] s[i])
}

/// The number that the digits of `s` write in base ten; 0 for the empty text.
pub open spec fn decimal_value(s: Seq<char>) -> nat
    decreases s.len(),
{
    if s.len() == 0 {
        0
    } else {
        decimal_value(s.drop_last()) * 10 + digit_value(s.last())
    }
}

/// Ten to the power `n`.
pub open spec fn pow10(n: nat) -> nat
    decreases n,
{
    if n == 0 {
        1
    } else {
        10 * pow10((n - 1) as nat)
    }
}

/// Ten to any power is positive.
pub proof fn lemma_pow10_positive(n: nat)
    ensures
        pow10(n) > 0,
    decreases n,
{
    if n > 0 {
        lemma_pow10_positive((n - 1) as nat);
    }
}

/// Appending one digit multiplies the value by ten and adds the digit.
pub proof fn lemma_decimal_value_push(s: Seq<char>, c: char)
    ensures
        decimal_value(s.push(c)) == decimal_value(s) * 10 + digit_value(c),
{
    assert(s.push(c).drop_last() =~= s);
    assert(s.push(c).last() == c);
}

/// A run of `n` digits is worth less than ten to the power `n`.
pub proof fn lemma_decimal_value_bound(s: Seq<char>)
    requires
        all_digits(s),
    ensures
        decimal_value(s) < pow10(s.len()),
    decreases s.len(),
{
    if s.len() > 0 {
        let front = s.drop_last();
        assert forall|i: int| 0 <= i < front.len() implies is_digit(#[trigger] front[i]) by {
            assert(front[i] == s[i]);
        }
        lemma_decimal_value_bound(front);
        assert(is_digit(s.last()));
    }
}

/// A prefix of a run of digits is worth no more than the whole run.
pub proof fn lemma_decimal_value_prefix(s: Seq<char>, k: int)
    requires
        0 <= k <= s.len(),
    ensures
        decimal_value(s.take(k)) <= decimal_value(s),
    decreases s.len() - k,
{
    if k == s.len() {
        assert(s.take(k) =~= s);
    } else {
        assert(s.drop_last().take(k) =~= s.take(k));
        if k < s.len() - 1 {
            lemma_decimal_value_prefix(s.drop_last(), k);
        } else {
            assert(s.drop_last().take(k) =~= s.drop_last());
        }
    }
}

/// The value of two runs written one after the other.
pub proof fn lemma_decimal_value_concat(a: Seq<char>, b: Seq<char>)
    ensures
        decimal_value(a + b) == decimal_value(a) * pow10(b.len()) + decimal_value(b),
    decreases b.len(),
{
    if b.len() == 0 {
        assert(a + b =~= a);
        assert(pow10(0) == 1);
        assert(decimal_value(b) == 0);
    } else {
        let front = b.drop_last();
        assert((a + b).drop_last() =~= a + front);
        assert((a + b).last() == b.last());
        lemma_decimal_value_concat(a, front);
        assert(pow10(b.len()) == 10 * pow10(front.len()));
        assert(decimal_value(a) * pow10(b.len()) == (decimal_value(a) * pow10(front.len())) * 10)
            by (nonlinear_arith)
            requires
                pow10(b.len()) == 10 * pow10(front.len()),
        ;
        assert(decimal_value(a + b) == decimal_value(a + front) * 10 + digit_value(b.last()));
        assert(decimal_value(b) == decimal_value(front) * 10 + digit_value(b.last()));
    }
}

/// The number of characters of an ASCII text.
pub fn ascii_len(s: &str) -> (n: usize)
    requires
        s.is_ascii(),
    ensures
        n == s@.len(),
{
    broadcast use vstd::string::is_ascii_spec_bytes;

    s.as_bytes().len()
}

/// The index at which the run of digits that starts at `start` ends: that of
/// the first character from `start` on that is no digit, or the length of
/// the text.
pub fn digit_run_end(s: &str, start: usize) -> (end: usize)
    requires
        s.is_ascii(),
        start <= s@.len(),
    ensures
        start <= end <= s@.len(),
        all_digits(s@.subrange(start as int, end as int)),
        end < s@.len() ==> !is_digit(s@[end as int]),
{
    let n = ascii_len(s);
    let mut end = start;
    while end < n
        invariant
            s.is_ascii(),
            n == s@.len(),
            start <= end <= n,
            all_digits(s@.subrange(start as int, end as int)),
        ensures
            start <= end <= n,
            all_digits(s@.subrange(start as int, end as int)),
            end < n ==> !is_digit(s@[end as int]),
        decreases n - end,
    {
        let b = s.get_ascii(end);
        if !(48 <= b && b <= 57) {
            break;
        }
        assert forall|i: int| 0 <= i < end + 1 - start implies is_digit(
            #[trigger] s@.subrange(start as int, end + 1)[i],
        ) by {
            if i < end - start {
                assert(s@.subrange(start as int, end as int)[i] == s@[start + i]);
            }
        }
        end = end + 1;
    }
    end
}

/// The value of the digits of `s` from `start` up to `end`, where it is at
/// most `cap`.
pub fn digits_value(s: &str, start: usize, end: usize, cap: u64) -> (value: Option<u64>)
    requires
        s.is_ascii(),
        start <= end <= s@.len(),
        all_digits(s@.subrange(start as int, end as int)),
        cap <= 1_000_000_000_000_000_000,
    ensures
        value == (if decimal_value(s@.subrange(start as int, end as int)) <= cap {
            Some(decimal_value(s@.subrange(start as int, end as int)) as u64)
        } else {
            None
        }),
{
    let ghost digits = s@.subrange(start as int, end as int);
    let mut acc: u64 = 0;
    let mut i = start;
    proof {
        assert(s@.subrange(start as int, start as int) =~= Seq::<char>::empty());
    }
    while i < end
        invariant
            s.is_ascii(),
            start <= i <= end <= s@.len(),
            digits == s@.subrange(start as int, end as int),
            all_digits(digits),
            cap <= 1_000_000_000_000_000_000,
            acc == decimal_value(s@.subrange(start as int, i as int)),
            acc <= cap,
        decreases end - i,
    {
        let b = s.get_ascii(i);
        proof {
            assert(digits[i - start] == s@[i as int]);
            assert(is_digit(s@[i as int]));
            assert(s@.subrange(start as int, i + 1) =~= s@.subrange(start as int, i as int).push(
                s@[i as int],
            ));
            lemma_decimal_value_push(s@.subrange(start as int, i as int), s@[i as int]);
        }
        let d: u64 = (b - 48) as u64;
        let next: u64 = acc * 10 + d;
        if next > cap {
            proof {
                assert(digits.take(i + 1 - start) =~= s@.subrange(start as int, i + 1));
                lemma_decimal_value_prefix(digits, i + 1 - start);
            }
            return None;
        }
        acc = next;
        i = i + 1;
    }
    Some(acc)
}

/// The number that `text` writes, where `text` is one digit or more and the
/// number is at most `max`.
pub open spec fn unsigned_of(text: Seq<char>, max: nat) -> Option<nat> {
    if text.len() > 0 && all_digits(text) && decimal_value(text) <= max {
        Some(decimal_value(text))
    } else {
        None
    }
}

/// Reads an unsigned decimal number of at most `max`: digits and nothing
/// else, with no sign.
pub fn parse_unsigned(text: &str, max: u64) -> (value: Option<u64>)
    requires
        max <= 1_000_000_000_000_000_000,
    ensures
        value == (match unsigned_of(text@, max as nat) {
            Some(v) => Some(v as u64),
            None => None,
        }),
{
    if !text.is_ascii() {
        proof {
            if all_digits(text@) {
                assert forall|i: int| 0 <= i < text@.len() implies '\0' <= #[trigger] text@[i]
                    <= '\u{7f}' by {
                    assert(is_digit(text@[i]));
                }
            }
        }
        return None;
    }
    let n = ascii_len(text);
    if n == 0 {
        return None;
    }
    let end = digit_run_end(text, 0);
    assert(text@.subrange(0, n as int) =~= text@);
    if end != n {
        return None;
    }
    digits_value(text, 0, n, max)
}

/// The character that writes the digit `d`.
pub open spec fn digit_char(d: nat) -> char {
    ((d + 48) as u8) as char
}

/// The digits that write `n` in base ten, without leading zeros; `0` for 0.
pub open spec fn decimal_digits(n: nat) -> Seq<char>
    decreases n,
{
    if n < 10 {
        seq![digit_char(n)]
    } else {
        decimal_digits(n / 10).push(digit_char(n % 10))
    }
}

/// The last `width` digits of `n` in base ten, with leading zeros.
pub open spec fn fixed_digits(n: nat, width: nat) -> Seq<char>
    decreases width,
{
    if width == 0 {
        Seq::empty()
    } else {
        fixed_digits(n / 10, (width - 1) as nat).push(digit_char(n % 10))
    }
}

/// What `decimal_digits` writes is digits, at least one, and reads back as
/// the number.
pub proof fn lemma_decimal_digits(n: nat)
    ensures
        decimal_digits(n).len() > 0,
        all_digits(decimal_digits(n)),
        decimal_value(decimal_digits(n)) == n,
    decreases n,
{
    if n < 10 {
        let s = seq![digit_char(n)];
        assert(s.drop_last() =~= Seq::<char>::empty());
        assert(decimal_value(s) == decimal_value(s.drop_last()) * 10 + digit_value(s.last()));
        assert(decimal_value(s.drop_last()) == 0);
    } else {
        lemma_decimal_digits(n / 10);
        lemma_decimal_value_push(decimal_digits(n / 10), digit_char(n % 10));
    }
}

/// What `fixed_digits` writes is `width` digits, and reads back as the number
/// where that has no more than `width` digits.
pub proof fn lemma_fixed_digits(n: nat, width: nat)
    ensures
        fixed_digits(n, width).len() == width,
        all_digits(fixed_digits(n, width)),
        n < pow10(width) ==> decimal_value(fixed_digits(n, width)) == n,
    decreases width,
{
    if width > 0 {
        lemma_fixed_digits(n / 10, (width - 1) as nat);
        lemma_decimal_value_push(fixed_digits(n / 10, (width - 1) as nat), digit_char(n % 10));
    }
}

/// The text of one digit.
fn digit_text(d: u64) -> (text: &'static str)
    requires
        d < 10,
    ensures
        text@ == seq![digit_char(d as nat)],
{
    proof {
        reveal_strlit("0");
        reveal_strlit("1");
        reveal_strlit("2");
        reveal_strlit("3");
        reveal_strlit("4");
        reveal_strlit("5");
        reveal_strlit("6");
        reveal_strlit("7");
        reveal_strlit("8");
        reveal_strlit("9");
    }
    let text = if d == 0 {
        "0"
    } else if d == 1 {
        "1"
    } else if d == 2 {
        "2"
    } else if d == 3 {
        "3"
    } else if d == 4 {
        "4"
    } else if d == 5 {
        "5"
    } else if d == 6 {
        "6"
    } else if d == 7 {
        "7"
    } else if d == 8 {
        "8"
    } else {
        "9"
    };
    assert(text@ =~= seq![digit_char(d as nat)]);
    text
}

/// Appends the digits of `n`, without leading zeros, to `out`.
pub fn push_decimal(out: &mut String, n: u64)
    ensures
        final(out)@ == old(out)@ + decimal_digits(n as nat),
    decreases n,
{
    if n >= 10 {
        push_decimal(out, n / 10);
    }
    out.append(digit_text(n % 10));
    assert(out@ =~= old(out)@ + decimal_digits(n as nat));
}

/// Appends the last `width` digits of `n`, with leading zeros, to `out`.
pub fn push_fixed(out: &mut String, n: u64, width: u8)
    ensures
        final(out)@ == old(out)@ + fixed_digits(n as nat, width as nat),
    decreases width,
{
    if width > 0 {
        push_fixed(out, n / 10, width - 1);
        out.append(digit_text(n % 10));
    }
    assert(out@ =~= old(out)@ + fixed_digits(n as nat, width as nat));
}

} // verus!
