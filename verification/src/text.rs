//! Textual projections of byte data: the character form of raw bytes
//! used for display values, and lowercase hex renderings of digests.

use vstd::prelude::*;

verus! {

/// Each byte as the character with the same code point.
pub open spec fn chars_of_bytes(s: Seq<u8>) -> Seq<char> {
    s.map_values(|b: u8| b as char)
}

/// The lowercase hex character for a value below 16.
pub open spec fn hex_digit(n: int) -> char {
    if n < 10 {
        (48 + n) as char
    } else {
        (87 + n) as char
    }
}

/// The lowercase hex rendering of a byte sequence: two characters per
/// byte, high nibble first.
pub open spec fn hex_chars(s: Seq<u8>) -> Seq<char> {
    Seq::new(
        2 * s.len(),
        |i: int|
            if i % 2 == 0 {
                hex_digit(s[i / 2] as int / 16)
            } else {
                hex_digit(s[i / 2] as int % 16)
            },
    )
}

/// Relies on `String::push`: appends exactly one character.
#[verifier::external_body]
pub(crate) fn push_char(s: &mut String, c: char)
    ensures
        final(s)@ == old(s)@.push(c),
{
    s.push(c);
}

/// Builds the string whose characters are the given bytes, code point
/// for code point.
pub fn bytes_to_string(v: &Vec<u8>) -> (r: String)
    ensures
        r@ == chars_of_bytes(v@),
{
    let mut r = String::new();
    let mut i: usize = 0;
    while i < v.len()
        invariant
            0 <= i <= v@.len(),
            r@ =~= chars_of_bytes(v@.take(i as int)),
        decreases v@.len() - i,
    {
        push_char(&mut r, v[i] as char);
        proof {
            assert(chars_of_bytes(v@.take(i + 1)) =~= chars_of_bytes(
                v@.take(i as int),
            ).push(v@[i as int] as char));
        }
        i = i + 1;
    }
    proof {
        assert(v@.take(v@.len() as int) =~= v@);
    }
    r
}

/// The exec form of one hex character.
fn hex_digit_char(n: u8) -> (c: char)
    requires
        n < 16,
    ensures
        c == hex_digit(n as int),
{
    if n < 10 {
        (48 + n) as char
    } else {
        (87 + n) as char
    }
}

/// Renders bytes as a lowercase hex string, two characters per byte.
pub fn to_hex_string(v: &Vec<u8>) -> (r: String)
    ensures
        r@ == hex_chars(v@),
        r@.len() == 2 * v@.len(),
{
    let mut r = String::new();
    let mut i: usize = 0;
    while i < v.len()
        invariant
            0 <= i <= v@.len(),
            r@ =~= hex_chars(v@.take(i as int)),
        decreases v@.len() - i,
    {
        let b = v[i];
        push_char(&mut r, hex_digit_char(b / 16));
        push_char(&mut r, hex_digit_char(b % 16));
        proof {
            let pre = v@.take(i as int);
            let post = v@.take(i + 1);
            assert forall|k: int| 0 <= k < 2 * post.len() implies hex_chars(post)[k]
                == hex_chars(pre).push(hex_digit(v@[i as int] as int / 16)).push(
                hex_digit(v@[i as int] as int % 16),
            )[k] by {
                assert(post[k / 2] == v@[k / 2]);
            }
            assert(hex_chars(post) =~= hex_chars(pre).push(
                hex_digit(v@[i as int] as int / 16),
            ).push(hex_digit(v@[i as int] as int % 16)));
        }
        i = i + 1;
    }
    proof {
        assert(v@.take(v@.len() as int) =~= v@);
    }
    r
}

} // verus!
