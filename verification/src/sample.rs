//! Decoding the sensor's two-byte register reply into a temperature sample.
//!
//! The sensor answers a temperature-register read with two bytes, most
//! significant byte first. The upper 12 bits form a two's-complement
//! sample in sixteenths of a degree Celsius; the low 4 bits of the second
//! byte are non-data padding.

use vstd::prelude::*;

verus! {

/// A decoded temperature sample.
///
/// The physical temperature in degrees Celsius is `sixteenths` times
/// 0.0625, i.e. `sixteenths / 16` exactly: the sensor reports in steps of
/// one sixteenth of a degree.
#[derive(Clone, Copy, PartialEq, Eq, Structural, Debug)]
pub struct Temperature {
    pub sixteenths: i16,
}

impl Temperature {
    /// A sample is well formed when it fits the sensor's 12-bit
    /// two's-complement range.
    pub open spec fn wf(self) -> bool {
        -2048 <= self.sixteenths <= 2047
    }
}

/// The 12-bit two's-complement sample carried by a two-byte reply:
/// the first byte holds the top 8 bits, the upper nibble of the second
/// byte the low 4 bits, and values at or above 2048 wrap to negatives.
pub open spec fn raw_sample_spec(b0: u8, b1: u8) -> int {
    let v = (b0 as int) * 16 + (b1 as int) / 16;
    if v >= 2048 {
        v - 4096
    } else {
        v
    }
}

/// Decode a raw two-byte reply into the sample it carries.
pub fn decode_raw_sample(reply: [u8; 2]) -> (t: Temperature)
    ensures
        t.sixteenths as int == raw_sample_spec(reply@[0], reply@[1]),
        t.wf(),
{
    let b0 = reply[0];
    let b1 = reply[1];
    let v: u16 = (b0 as u16) * 16 + (b1 as u16) / 16;
    let s: i16 = if v >= 2048 {
        (v as i16) - 4096
    } else {
        v as i16
    };
    Temperature { sixteenths: s }
}

/// Decoding is a pure function of the two reply bytes: any two samples
/// decoded from the same raw reply are one and the same temperature.
pub proof fn lemma_decode_deterministic(t1: Temperature, t2: Temperature, b0: u8, b1: u8)
    requires
        t1.sixteenths == raw_sample_spec(b0, b1),
        t2.sixteenths == raw_sample_spec(b0, b1),
    ensures
        t1 == t2,
{
}

/// The first reply byte of the wire encoding of sample `s`.
pub open spec fn reply_msb_of(s: int) -> u8 {
    (((s + 4096) % 4096) / 16) as u8
}

/// The second reply byte of the wire encoding of sample `s`: the low
/// 4 bits of the sample in the upper nibble, padding zeroes below.
pub open spec fn reply_lsb_of(s: int) -> u8 {
    ((((s + 4096) % 4096) % 16) * 16) as u8
}

/// Decoding inverts the sensor's wire encoding: every 12-bit
/// two's-complement sample is recovered exactly, sign included, from the
/// byte pair that encodes it.
pub proof fn lemma_decode_inverts_encoding(s: int)
    requires
        -2048 <= s <= 2047,
    ensures
        raw_sample_spec(reply_msb_of(s), reply_lsb_of(s)) == s,
{
    let u = (s + 4096) % 4096;
    if s >= 0 {
        assert((s + 4096) % 4096 == s) by (nonlinear_arith)
            requires 0 <= s <= 2047;
    } else {
        assert((s + 4096) % 4096 == s + 4096) by (nonlinear_arith)
            requires -2048 <= s < 0;
    }
    let hi = u / 16;
    let lo = u % 16;
    vstd::arithmetic::div_mod::lemma_fundamental_div_mod(u, 16);
    assert(u == 16 * hi + lo);
    assert(0 <= lo < 16);
    assert(0 <= hi < 256);
    assert(reply_msb_of(s) as int == hi);
    assert(reply_lsb_of(s) as int == lo * 16);
    assert((lo * 16) / 16 == lo) by (nonlinear_arith)
        requires 0 <= lo < 16;
    assert(raw_sample_spec(reply_msb_of(s), reply_lsb_of(s)) == if u >= 2048 { u - 4096 } else { u });
}

} // verus!
