//! The canonical object header `"<kind> <decimal-length>\0"`. The
//! declared length is the only reliable terminator for payloads that
//! may themselves contain NUL or space bytes.

use vstd::prelude::*;
use crate::bytesutil::{digit_run_end, lemma_digit_run_end, lemma_digit_run_end_exact, NUL_BYTE,
    SPACE_BYTE};
use crate::digits::{all_digits, dec_digits, dec_value, is_digit, lemma_dec_digits_wf,
    lemma_dec_value_nonneg, lemma_dec_value_of_digits, parse_decimal_range};
use crate::errors::ObjectError;

verus! {

/// The canonical header for an object of the given kind and payload
/// length: the kind word, one space, the decimal length, one NUL.
pub open spec fn header_bytes(kind: Seq<u8>, payload_len: nat) -> Seq<u8> {
    kind + seq![SPACE_BYTE] + dec_digits(payload_len) + seq![NUL_BYTE]
}

/// Reads a header of the given kind off the front of `s`: the declared
/// payload length and the index just past the terminating NUL, or
/// `None` when the front of `s` does not match `"<kind> <digits>\0"`.
pub open spec fn spec_parse_header(s: Seq<u8>, kind: Seq<u8>) -> Option<(int, int)> {
    let klen = kind.len() as int;
    if s.len() <= klen {
        None
    } else if s.subrange(0, klen) != kind {
        None
    } else if s[klen] != SPACE_BYTE {
        None
    } else {
        let d = digit_run_end(s, klen + 1);
        if d == klen + 1 || d >= s.len() || s[d] != NUL_BYTE {
            None
        } else {
            Some((dec_value(s.subrange(klen + 1, d)), d + 1))
        }
    }
}

/// Validates the header of a whole canonical byte buffer: the header
/// must parse and its declared length must equal the byte count that
/// follows it. Yields the payload start.
pub open spec fn spec_check_header(s: Seq<u8>, kind: Seq<u8>) -> Result<int, ObjectError> {
    match spec_parse_header(s, kind) {
        None => Err(ObjectError::InvalidHeader),
        Some((v, after)) => if v == s.len() - after {
            Ok(after)
        } else {
            Err(ObjectError::LengthMismatch)
        },
    }
}

/// The canonical encoding of a payload parses back to that payload:
/// its header is valid and declares exactly the payload's length.
pub proof fn lemma_header_round_trip(kind: Seq<u8>, payload: Seq<u8>)
    requires
        forall|i: int| 0 <= i < kind.len() ==> !is_digit(kind[i]) && kind[i] != SPACE_BYTE
            && kind[i] != NUL_BYTE,
    ensures
        spec_check_header(header_bytes(kind, payload.len()) + payload, kind) == Ok::<
            int,
            ObjectError,
        >(header_bytes(kind, payload.len()).len() as int),
        header_bytes(kind, payload.len()).len() == kind.len() + 2 + dec_digits(
            payload.len(),
        ).len(),
{
    let digits = dec_digits(payload.len());
    let header = header_bytes(kind, payload.len());
    let s = header + payload;
    let klen = kind.len() as int;
    let d = klen + 1 + digits.len() as int;
    lemma_dec_digits_wf(payload.len());
    assert(s.subrange(0, klen) =~= kind);
    assert(s[klen] == SPACE_BYTE);
    assert forall|j: int| klen + 1 <= j < d implies is_digit(s[j]) by {
        assert(s[j] == digits[j - (klen + 1)]);
    }
    assert(s[d] == NUL_BYTE);
    lemma_digit_run_end_exact(s, klen + 1, d);
    assert(s.subrange(klen + 1, d) =~= digits);
    lemma_dec_value_of_digits(payload.len());
    assert(s.len() - (d + 1) == payload.len());
}

/// Whether a byte is an ASCII decimal digit.
fn is_digit_byte(b: u8) -> (r: bool)
    ensures
        r == is_digit(b),
{
    48 <= b && b <= 57
}

/// Checks the canonical header of `s` against the given kind word and
/// returns the payload start, or the typed error the header earns:
/// `InvalidHeader` when the shape is wrong, `LengthMismatch` when the
/// declared length disagrees with the remaining byte count.
pub fn check_header(s: &Vec<u8>, kind: &Vec<u8>) -> (r: Result<usize, ObjectError>)
    ensures
        match r {
            Ok(after) => spec_check_header(s@, kind@) == Ok::<int, ObjectError>(after as int)
                && kind@.len() < after <= s@.len(),
            Err(e) => spec_check_header(s@, kind@) == Err::<int, ObjectError>(e),
        },
{
    let klen = kind.len();
    if s.len() <= klen {
        return Err(ObjectError::InvalidHeader);
    }
    let mut i: usize = 0;
    while i < klen
        invariant
            0 <= i <= klen,
            klen == kind@.len(),
            klen < s@.len(),
            forall|j: int| 0 <= j < i ==> s@[j] == kind@[j],
        decreases klen - i,
    {
        if s[i] != kind[i] {
            proof {
                assert(s@.subrange(0, klen as int)[i as int] != kind@[i as int]);
            }
            return Err(ObjectError::InvalidHeader);
        }
        i = i + 1;
    }
    proof {
        assert(s@.subrange(0, klen as int) =~= kind@);
    }
    if s[klen] != SPACE_BYTE {
        return Err(ObjectError::InvalidHeader);
    }
    let mut d: usize = klen + 1;
    while d < s.len() && is_digit_byte(s[d])
        invariant
            klen + 1 <= d <= s@.len(),
            forall|j: int| klen + 1 <= j < d ==> is_digit(s@[j]),
        decreases s@.len() - d,
    {
        d = d + 1;
    }
    proof {
        lemma_digit_run_end_exact(s@, klen + 1, d as int);
    }
    if d == klen + 1 {
        return Err(ObjectError::InvalidHeader);
    }
    if d == s.len() {
        return Err(ObjectError::InvalidHeader);
    }
    if s[d] != NUL_BYTE {
        return Err(ObjectError::InvalidHeader);
    }
    proof {
        lemma_digit_run_end(s@, klen + 1);
        assert(all_digits(s@.subrange(klen + 1, d as int)));
    }
    let after = d + 1;
    match parse_decimal_range(s, klen + 1, d) {
        None => {
            proof {
                assert(dec_value(s@.subrange(klen + 1, d as int)) > s@.len() - after);
            }
            Err(ObjectError::LengthMismatch)
        },
        Some(v) => {
            if v == s.len() - after {
                Ok(after)
            } else {
                Err(ObjectError::LengthMismatch)
            }
        },
    }
}

} // verus!
