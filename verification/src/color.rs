//! Decoding of `#RGB` and `#RRGGBB` hex color text into its three
//! channels. The decoded channels are plain bytes; painting with them is
//! the surrounding program's business.

use vstd::prelude::*;
use crate::text::{spec_u64_digits, u64_to_string};

verus! {

/// A decoded color: one byte per channel.
#[derive(Clone, Copy, PartialEq, Eq, Structural, Debug)]
pub struct Rgb {
    pub r: u8,
    pub g: u8,
    pub b: u8,
}

/// Why hex color text was rejected.
#[derive(Debug)]
pub struct HexDecodeError {
    pub msg: String,
}

/// The text with every `#` removed.
pub open spec fn strip_hash(s: Seq<char>) -> Seq<char>
    decreases s.len(),
{
    if s.len() == 0 {
        s
    } else {
        strip_hash(s.drop_last()) + (if s.last() == '#' {
            Seq::<char>::empty()
        } else {
            seq![s.last()]
        })
    }
}

/// Whether `c` is a hexadecimal digit.
pub open spec fn is_hex(c: char) -> bool {
    ('0' <= c && c <= '9') || ('a' <= c && c <= 'f') || ('A' <= c && c <= 'F')
}

/// Value of a hexadecimal digit.
pub open spec fn hex_val(c: char) -> u8 {
    if '0' <= c && c <= '9' {
        (c as int - '0' as int) as u8
    } else if 'a' <= c && c <= 'f' {
        (10 + c as int - 'a' as int) as u8
    } else {
        (10 + c as int - 'A' as int) as u8
    }
}

pub open spec fn all_hex(t: Seq<char>) -> bool {
    forall|i: int| 0 <= i < t.len() ==> is_hex(#[trigger] t[i])
}

/// The color that well-formed stripped hex text denotes: three digits
/// duplicate each digit into both halves of a channel, six digits pair
/// them up.
pub open spec fn spec_rgb(t: Seq<char>) -> Rgb
    recommends
        t.len() == 3 || t.len() == 6,
        all_hex(t),
{
    if t.len() == 3 {
        Rgb {
            r: hex_val(t[0]) << 4 | hex_val(t[0]),
            g: hex_val(t[1]) << 4 | hex_val(t[1]),
            b: hex_val(t[2]) << 4 | hex_val(t[2]),
        }
    } else {
        Rgb {
            r: hex_val(t[0]) << 4 | hex_val(t[1]),
            g: hex_val(t[2]) << 4 | hex_val(t[3]),
            b: hex_val(t[4]) << 4 | hex_val(t[5]),
        }
    }
}

/// Decode `#RGB` or `#RRGGBB` hex color text (every `#` is ignored,
/// wherever it stands). Text of any other length, or with a character
/// that is no hex digit, is rejected with a message naming the fault.
pub fn get_color(hexval: &str) -> (r: Result<Rgb, HexDecodeError>)
    ensures
        r is Ok <==> ((strip_hash(hexval@).len() == 3 || strip_hash(hexval@).len() == 6)
            && all_hex(strip_hash(hexval@))),
        r matches Ok(c) ==> c == spec_rgb(strip_hash(hexval@)),
        !(strip_hash(hexval@).len() == 3 || strip_hash(hexval@).len() == 6) ==> (r matches Err(
            e,
        ) && e.msg@ == "Invalid hexval length: "@ + spec_u64_digits(
            strip_hash(hexval@).len() as int,
        ) + ", must be 3 or 6"@),
        (strip_hash(hexval@).len() == 3 || strip_hash(hexval@).len() == 6) && !all_hex(
            strip_hash(hexval@),
        ) ==> (r matches Err(e) && e.msg@ == "invalid digit found in string"@),
{
    let ghost stripped = strip_hash(hexval@);
    let n = hexval.unicode_len();
    let mut digits: Vec<char> = Vec::new();
    let mut i: usize = 0;
    proof {
        assert(hexval@.take(0) =~= Seq::<char>::empty());
    }
    while i < n
        invariant
            n == hexval@.len(),
            0 <= i <= n,
            digits@ =~= strip_hash(hexval@.take(i as int)),
        decreases n - i,
    {
        let c = hexval.get_char(i);
        proof {
            assert(hexval@.take(i + 1).drop_last() =~= hexval@.take(i as int));
            assert(hexval@.take(i + 1).last() == hexval@[i as int]);
        }
        if c != '#' {
            digits.push(c);
        }
        i += 1;
    }
    proof {
        assert(hexval@.take(n as int) =~= hexval@);
    }
    let len = digits.len();
    if len != 3 && len != 6 {
        let mut msg = String::from_str("Invalid hexval length: ");
        let num = u64_to_string(len as u64);
        msg.append(num.as_str());
        msg.append(", must be 3 or 6");
        return Err(HexDecodeError { msg });
    }
    let mut values: Vec<u8> = Vec::new();
    let mut j: usize = 0;
    while j < len
        invariant
            len == digits@.len(),
            digits@ == stripped,
            stripped == strip_hash(hexval@),
            len == 3 || len == 6,
            0 <= j <= len,
            values@.len() == j,
            forall|k: int| 0 <= k < j ==> is_hex(#[trigger] stripped[k]),
            forall|k: int| 0 <= k < j ==> #[trigger] values@[k] == hex_val(stripped[k]),
        decreases len - j,
    {
        let c = digits[j];
        proof {
            assert(c == stripped[j as int]);
        }
        let v: u8 = if '0' <= c && c <= '9' {
            proof {
                assert(is_hex(c));
            }
            (c as u32 - 0x30) as u8
        } else if 'a' <= c && c <= 'f' {
            proof {
                assert(is_hex(c));
            }
            (c as u32 - 0x61 + 10) as u8
        } else if 'A' <= c && c <= 'F' {
            proof {
                assert(is_hex(c));
            }
            (c as u32 - 0x41 + 10) as u8
        } else {
            proof {
                assert(!is_hex(stripped[j as int]));
            }
            return Err(HexDecodeError { msg: String::from_str("invalid digit found in string") });
        };
        values.push(v);
        j += 1;
    }
    if len == 3 {
        Ok(Rgb {
            r: values[0] << 4 | values[0],
            g: values[1] << 4 | values[1],
            b: values[2] << 4 | values[2],
        })
    } else {
        Ok(Rgb {
            r: values[0] << 4 | values[1],
            g: values[2] << 4 | values[3],
            b: values[4] << 4 | values[5],
        })
    }
}

} // verus!
