//! Comparing texts: exactly, and without regard to the case of ASCII letters.
use crate::decimal::ascii_len;
use vstd::prelude::*;
use vstd::string::*;
use vstd::utf8::encode_utf8_decode_utf8;

verus! {

/// `c`, or its lower-case form where `c` is one of `A` to `Z`.
pub open spec fn lower(c: char) -> char {
    if 'A' <= c <= 'Z' {
        ((c as u8) + 32) as char
    } else {
        c
    }
}

/// Whether two texts are the same but for the case of ASCII letters.
pub open spec fn same_ignoring_case(a: Seq<char>, b: Seq<char>) -> bool {
    &&& a.len() == b.len()
    &&& forall|i: int| 0 <= i < a.len() ==> lower(#[trigger] a[i]) == lower(b[i])
}

/// Whether two texts are the same.
pub fn same_text(a: &str, b: &str) -> (same: bool)
    ensures
        same == (a@ == b@),
{
    let x = a.as_bytes();
    let y = b.as_bytes();
    proof {
        encode_utf8_decode_utf8(a@);
        encode_utf8_decode_utf8(b@);
    }
    if x.len() != y.len() {
        return false;
    }
    let mut i: usize = 0;
    while i < x.len()
        invariant
            x@ == a.spec_bytes(),
            y@ == b.spec_bytes(),
            x.len() == y.len(),
            i <= x.len(),
            forall|j: int| 0 <= j < i ==> x@[j] == y@[j],
        decreases x.len() - i,
    {
        if x[i] != y[i] {
            return false;
        }
        i = i + 1;
    }
    assert(x@ =~= y@);
    true
}

/// The lower-case form of an ASCII byte.
fn lower_byte(b: u8) -> (l: u8)
    requires
        b < 128,
    ensures
        l == lower(b as char) as u8,
        l < 128,
{
    if 65 <= b && b <= 90 {
        b + 32
    } else {
        b
    }
}

/// Whether `text` is `name` but for the case of ASCII letters, for a `name`
/// that is ASCII.
pub fn matches_ignoring_case(text: &str, name: &str) -> (same: bool)
    requires
        name.is_ascii(),
    ensures
        same == same_ignoring_case(text@, name@),
{
    if !text.is_ascii() {
        proof {
            if same_ignoring_case(text@, name@) {
                let i = choose|i: int| 0 <= i < text@.len() && !('\0' <= #[trigger] text@[i] <= '\u{7f}');
                assert(lower(text@[i]) == lower(name@[i]));
                assert('\0' <= name@[i] <= '\u{7f}');
            }
        }
        return false;
    }
    let n = ascii_len(text);
    if n != ascii_len(name) {
        return false;
    }
    let mut i: usize = 0;
    while i < n
        invariant
            text.is_ascii(),
            name.is_ascii(),
            n == text@.len(),
            n == name@.len(),
            i <= n,
            forall|j: int| 0 <= j < i ==> lower(#[trigger] text@[j]) == lower(name@[j]),
        decreases n - i,
    {
        let x = text.get_ascii(i);
        let y = name.get_ascii(i);
        if lower_byte(x) != lower_byte(y) {
            assert(lower(text@[i as int]) != lower(name@[i as int]));
            return false;
        }
        assert(lower(text@[i as int]) == lower(name@[i as int]));
        i = i + 1;
    }
    true
}

} // verus!
