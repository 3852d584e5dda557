//! Shared interfaces of the library: the configuration-loading and
//! result-printing traits that the surrounding program implements, and the
//! byte decomposition of a 64-bit entropy word.

use vstd::prelude::*;

verus! {

/// Implemented by the surrounding program for every catalog that is read
/// from a configuration file; `file` overrides the default location.
pub trait Loadable<T> {
    fn load(file: Option<&str>) -> T;
}

/// Implemented by the surrounding program to present a roll result.
pub trait PrintResult {
    fn print_results(&self, old_style: bool, no_summary: bool);
}

/// Byte `i` of the word `w`, counted from the least significant end.
pub open spec fn byte_of(w: u64, i: int) -> u8 {
    ((w >> (8 * i)) & 0xFF) as u8
}

/// The eight bytes of `w`, least significant first.
pub open spec fn word_bytes(w: u64) -> Seq<u8> {
    Seq::new(8, |i: int| byte_of(w, i))
}

/// Splitting a value into its bytes, least significant first.
pub trait ToByteArray {
    fn to_byte_array(self) -> [u8; 8];
}

impl ToByteArray for u64 {
    fn to_byte_array(self) -> (b: [u8; 8])
        ensures
            b@ =~= word_bytes(self),
    {
        let b: [u8; 8] = [
            (self & 0xFF) as u8,
            ((self >> 8) & 0xFF) as u8,
            ((self >> 16) & 0xFF) as u8,
            ((self >> 24) & 0xFF) as u8,
            ((self >> 32) & 0xFF) as u8,
            ((self >> 40) & 0xFF) as u8,
            ((self >> 48) & 0xFF) as u8,
            ((self >> 56) & 0xFF) as u8,
        ];
        proof {
            assert(self & 0xFF < 256) by (bit_vector);
            assert((self >> 8) & 0xFF < 256) by (bit_vector);
            assert((self >> 16) & 0xFF < 256) by (bit_vector);
            assert((self >> 24) & 0xFF < 256) by (bit_vector);
            assert((self >> 32) & 0xFF < 256) by (bit_vector);
            assert((self >> 40) & 0xFF < 256) by (bit_vector);
            assert((self >> 48) & 0xFF < 256) by (bit_vector);
            assert((self >> 56) & 0xFF < 256) by (bit_vector);
            assert(self >> (8 * 0) == self) by (bit_vector);
        }
        b
    }
}

} // verus!
