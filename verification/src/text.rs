//! UTF-8 validation, written out and proved against the UTF-8 model,
//! and `String` construction over validated bytes.

use vstd::prelude::*;

use vstd::slice::slice_index_get;
use vstd::utf8::{
    codepoint_width_2, codepoint_width_3, codepoint_width_4, decode_utf8, is_continuation_byte,
    length_of_first_scalar, not_overlong_encoding, not_surrogate,
    partial_valid_partial_invalid_utf8, partial_valid_utf8, partial_valid_utf8_extend,
    valid_first_scalar, valid_utf8,
};

verus! {

/// A two-byte encoding is well formed exactly when its leading byte is
/// at least 0xC2 (below that it would be overlong) and a continuation
/// byte follows.
proof fn lemma_width_2(b0: u8, b1: u8)
    by (bit_vector)
    requires
        0xc0 <= b0 <= 0xdf,
    ensures
        not_overlong_encoding(codepoint_width_2(b0, b1), 2) <==> b0 >= 0xc2,
        not_surrogate(codepoint_width_2(b0, b1)),
{
}

/// The byte conditions under which a three-byte encoding is neither
/// overlong nor a surrogate.
proof fn lemma_width_3(b0: u8, b1: u8, b2: u8)
    by (bit_vector)
    requires
        0xe0 <= b0 <= 0xef,
        0x80 <= b1 <= 0xbf,
    ensures
        not_overlong_encoding(codepoint_width_3(b0, b1, b2), 3) <==> (b0 != 0xe0 || b1 >= 0xa0),
        not_surrogate(codepoint_width_3(b0, b1, b2)) <==> !(b0 == 0xed && b1 >= 0xa0),
{
}

/// The byte conditions under which a four-byte encoding lands in the
/// scalar range.
proof fn lemma_width_4(b0: u8, b1: u8, b2: u8, b3: u8)
    by (bit_vector)
    requires
        0xf0 <= b0 <= 0xf7,
        0x80 <= b1 <= 0xbf,
    ensures
        not_overlong_encoding(codepoint_width_4(b0, b1, b2, b3), 4) <==> ((b0 != 0xf0 || b1
            >= 0x90) && (b0 < 0xf4 || (b0 == 0xf4 && b1 <= 0x8f))),
        not_overlong_encoding(codepoint_width_4(b0, b1, b2, b3), 4) ==> not_surrogate(
            codepoint_width_4(b0, b1, b2, b3),
        ),
{
}

/// Validates UTF-8: true exactly when the bytes are a well-formed
/// encoding under the UTF-8 model.
pub fn utf8_is_valid(s: &[u8]) -> (r: bool)
    ensures
        r == valid_utf8(s@),
{
    let n = s.len();
    let mut i: usize = 0;
    loop
        invariant_except_break
            0 <= i <= n,
            n == s@.len(),
            partial_valid_utf8(s@, i as int),
        ensures
            i == n,
            partial_valid_utf8(s@, i as int),
        decreases n - i,
    {
        if i >= n {
            break ;
        }
        let ghost tail = s@.skip(i as int);
        proof {
            assert(tail.len() == n - i);
            assert(tail[0] == s@[i as int]);
        }
        let b0 = *slice_index_get(s, i);
        let width: usize;
        if b0 <= 0x7f {
            // one byte: always a scalar
            proof {
                assert(valid_first_scalar(tail));
                assert(length_of_first_scalar(tail) == 1);
            }
            width = 1;
        } else if 0xc2 <= b0 && b0 <= 0xdf {
            if n - i < 2 || !is_cont(*slice_index_get(s, i + 1)) {
                proof {
                    lemma_tail_invalid(s@, i as int);
                }
                return false;
            }
            proof {
                assert(tail[1] == s@[i as int + 1]);
                lemma_width_2(tail[0], tail[1]);
                assert(valid_first_scalar(tail));
                assert(length_of_first_scalar(tail) == 2);
            }
            width = 2;
        } else if 0xe0 <= b0 && b0 <= 0xef {
            if n - i < 3 || !is_cont(*slice_index_get(s, i + 1)) || !is_cont(
                *slice_index_get(s, i + 2),
            ) {
                proof {
                    lemma_tail_invalid(s@, i as int);
                }
                return false;
            }
            let b1 = *slice_index_get(s, i + 1);
            if (b0 == 0xe0 && b1 < 0xa0) || (b0 == 0xed && b1 >= 0xa0) {
                proof {
                    assert(tail[1] == b1 && tail[2] == s@[i as int + 2]);
                    lemma_width_3(tail[0], tail[1], tail[2]);
                    lemma_tail_invalid(s@, i as int);
                }
                return false;
            }
            proof {
                assert(tail[1] == b1 && tail[2] == s@[i as int + 2]);
                lemma_width_3(tail[0], tail[1], tail[2]);
                assert(valid_first_scalar(tail));
                assert(length_of_first_scalar(tail) == 3);
            }
            width = 3;
        } else if 0xf0 <= b0 && b0 <= 0xf4 {
            if n - i < 4 || !is_cont(*slice_index_get(s, i + 1)) || !is_cont(
                *slice_index_get(s, i + 2),
            ) || !is_cont(*slice_index_get(s, i + 3)) {
                proof {
                    lemma_tail_invalid(s@, i as int);
                }
                return false;
            }
            let b1 = *slice_index_get(s, i + 1);
            if (b0 == 0xf0 && b1 < 0x90) || (b0 == 0xf4 && b1 > 0x8f) {
                proof {
                    assert(tail[1] == b1 && tail[2] == s@[i as int + 2] && tail[3] == s@[i as int
                        + 3]);
                    lemma_width_4(tail[0], tail[1], tail[2], tail[3]);
                    lemma_tail_invalid(s@, i as int);
                }
                return false;
            }
            proof {
                assert(tail[1] == b1 && tail[2] == s@[i as int + 2] && tail[3] == s@[i as int + 3]);
                lemma_width_4(tail[0], tail[1], tail[2], tail[3]);
                assert(valid_first_scalar(tail));
                assert(length_of_first_scalar(tail) == 4);
            }
            width = 4;
        } else {
            // a bare continuation byte, an overlong 0xc0/0xc1 lead, or a
            // lead past the scalar range
            proof {
                if 0xf5 <= b0 <= 0xf7 && tail.len() >= 4 && is_continuation_byte(tail[1])
                    && is_continuation_byte(tail[2]) && is_continuation_byte(tail[3]) {
                    lemma_width_4(tail[0], tail[1], tail[2], tail[3]);
                }
                if 0xc0 <= b0 <= 0xc1 && tail.len() >= 2 && is_continuation_byte(tail[1]) {
                    lemma_width_2(tail[0], tail[1]);
                }
                lemma_tail_invalid(s@, i as int);
            }
            return false;
        }
        proof {
            partial_valid_utf8_extend(s@, i as int);
        }
        i = i + width;
    }
    proof {
        assert(s@.subrange(0, n as int) =~= s@);
    }
    true
}

/// Recognizes a UTF-8 continuation byte.
fn is_cont(b: u8) -> (r: bool)
    ensures
        r == is_continuation_byte(b),
{
    0x80 <= b && b <= 0xbf
}

/// When the first scalar at position `i` is ill-formed, the whole
/// sequence is not valid UTF-8.
proof fn lemma_tail_invalid(s: Seq<u8>, i: int)
    requires
        0 <= i < s.len(),
        partial_valid_utf8(s, i),
        !valid_first_scalar(s.skip(i)),
    ensures
        !valid_utf8(s),
{
    assert(!valid_utf8(s.skip(i)));
    assert(s.subrange(i, s.len() as int) =~= s.skip(i));
    partial_valid_partial_invalid_utf8(s, i);
}

/// Relies on `String::from_utf8`: succeeds exactly on valid UTF-8 and
/// carries the bytes over unchanged.
#[verifier::external_body]
pub(crate) fn string_from_utf8(v: Vec<u8>) -> (r: Option<String>)
    ensures
        r is Some <==> valid_utf8(v@),
        r matches Some(s) ==> s@ == decode_utf8(v@),
{
    String::from_utf8(v).ok()
}

/// Relies on `str::from_utf8`: a valid UTF-8 byte slice viewed as a
/// string slice with exactly those bytes.
#[verifier::external_body]
pub(crate) fn str_from_utf8(v: &[u8]) -> (r: &str)
    requires
        valid_utf8(v@),
    ensures
        r@ == decode_utf8(v@),
{
    core::str::from_utf8(v).unwrap_or("")
}

} // verus!
