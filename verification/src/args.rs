//! The connection endpoint a user names on the command line, and the
//! URL it stands for.

use vstd::prelude::*;

use vstd::string::StringExecFns;
use vstd::utf8::{
    decode_utf8, is_leading_byte_width_1, partial_valid_utf8, partial_valid_utf8_extend_ascii_block,
    valid_utf8,
};

use crate::text::string_from_utf8;

verus! {

/// The decimal digits of a number, most significant first, as ASCII
/// bytes.
pub open spec fn spec_dec_bytes(n: int) -> Seq<u8>
    recommends
        n >= 0,
    decreases n,
{
    if n < 10 {
        seq![(0x30 + n) as u8]
    } else {
        spec_dec_bytes(n / 10) + seq![(0x30 + n % 10) as u8]
    }
}

/// Decimal digits are the ASCII digit bytes.
pub proof fn lemma_dec_bytes_ascii(n: int)
    requires
        n >= 0,
    ensures
        spec_dec_bytes(n).len() >= 1,
        forall|i: int|
            0 <= i < spec_dec_bytes(n).len() ==> 0x30 <= #[trigger] spec_dec_bytes(n)[i] <= 0x39,
    decreases n,
{
    if n >= 10 {
        lemma_dec_bytes_ascii(n / 10);
    }
}

/// Writes a number as its decimal digits.
pub fn u16_dec_bytes(v: u16) -> (r: Vec<u8>)
    ensures
        r@ == spec_dec_bytes(v as int),
{
    let mut digits: Vec<u8> = Vec::new();
    let mut x = v;
    loop
        invariant_except_break
            ({
                if digits@.len() == 0 {
                    x == v
                } else if x == 0 {
                    spec_dec_bytes(v as int) == digits@.reverse()
                } else {
                    spec_dec_bytes(v as int) == spec_dec_bytes(x as int) + digits@.reverse()
                }
            }),
        ensures
            spec_dec_bytes(v as int) == digits@.reverse(),
            digits@.len() >= 1,
        decreases
                x,
                (if digits@.len() == 0 {
                    1int
                } else {
                    0int
                }),
    {
        if x == 0 && digits.len() > 0 {
            break ;
        }
        let ghost x0 = x as int;
        let ghost d0 = digits@;
        let digit = (x % 10) as u8 + 0x30;
        digits.push(digit);
        x = x / 10;
        proof {
            assert(digits@.drop_last() =~= d0);
            assert(digits@.reverse() =~= seq![digit] + d0.reverse());
            if d0.len() == 0 {
                assert(d0.reverse() =~= Seq::<u8>::empty());
                assert(spec_dec_bytes(x0) + d0.reverse() =~= spec_dec_bytes(x0));
            }
            assert(spec_dec_bytes(v as int) == spec_dec_bytes(x0) + d0.reverse());
            if x0 < 10 {
                assert(spec_dec_bytes(x0) == seq![(0x30 + x0) as u8]);
                assert(seq![(0x30 + x0) as u8] + d0.reverse() =~= digits@.reverse());
            } else {
                assert(spec_dec_bytes(x0) == spec_dec_bytes(x0 / 10) + seq![
                    (0x30 + x0 % 10) as u8,
                ]);
                assert(spec_dec_bytes(x0 / 10) + (seq![digit] + d0.reverse()) =~= (spec_dec_bytes(
                    x0 / 10,
                ) + seq![digit]) + d0.reverse());
            }
        }
    }
    let mut out: Vec<u8> = Vec::new();
    proof {
        assert(out@ + digits@.reverse() =~= digits@.reverse());
    }
    loop
        invariant_except_break
            out@ + digits@.reverse() == spec_dec_bytes(v as int),
        ensures
            out@ == spec_dec_bytes(v as int),
        decreases digits@.len(),
    {
        let ghost d0 = digits@;
        let ghost o0 = out@;
        match digits.pop() {
            Some(d) => {
                out.push(d);
                proof {
                    assert(d0.reverse() =~= seq![d] + d0.drop_last().reverse());
                    assert(o0.push(d) + d0.drop_last().reverse() =~= o0 + d0.reverse());
                }
            },
            None => {
                proof {
                    assert(digits@.reverse() =~= Seq::<u8>::empty());
                    assert(out@ + Seq::<u8>::empty() =~= out@);
                }
                break ;
            },
        }
    }
    out
}

/// The endpoint named on the command line.
pub struct Args {
    /// The server address to connect to.
    pub addr: String,
    /// The port to connect to.
    pub port: u16,
}

impl Args {
    /// The endpoint as a WebSocket URL.
    pub fn as_url(&self) -> (r: String)
        ensures
            r@ == "ws://"@ + self.addr@ + ":"@ + decode_utf8(spec_dec_bytes(self.port as int)),
    {
        let mut r = String::from_str("ws://");
        r.append(self.addr.as_str());
        r.append(":");
        let digits = u16_dec_bytes(self.port);
        proof {
            lemma_dec_bytes_ascii(self.port as int);
            assert(digits@.subrange(0, 0) =~= Seq::<u8>::empty());
            assert(partial_valid_utf8(digits@, 0));
            assert forall|i: int| 0 <= i < digits@.len() implies #[trigger] is_leading_byte_width_1(
                digits@[i],
            ) by {
                assert(0x30 <= digits@[i] <= 0x39);
            }
            partial_valid_utf8_extend_ascii_block(digits@, 0, digits@.len() as int);
            assert(digits@.subrange(0, digits@.len() as int) =~= digits@);
            assert(valid_utf8(digits@));
        }
        let ghost db = digits@;
        let ds = match string_from_utf8(digits) {
            Some(s) => s,
            None => {
                proof {
                    assert(false);
                }
                String::new()
            },
        };
        r.append(ds.as_str());
        r
    }
}

} // verus!
