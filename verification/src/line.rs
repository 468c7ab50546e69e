//! The report line: a bounded `heapless` string of 26 bytes.
//!
//! The report loop renders each temperature into one such buffer and the
//! surrounding firmware drains it to the serial port. Verus sees the
//! buffer only through the trusted wrappers below, whose contracts speak
//! of `report_bytes`, the bytes the buffer currently holds.

use vstd::prelude::*;

verus! {

#[verifier::external_type_specification]
#[verifier::external_body]
pub struct ExHeaplessString<const N: usize>(heapless::String<N>);

/// The bytes a report line currently holds, oldest first.
pub uninterp spec fn report_bytes(s: heapless::String<26>) -> Seq<u8>;

/// Relies on heapless::String::new: a freshly made string holds nothing.
#[verifier::external_body]
pub fn new_report_line() -> (r: heapless::String<26>)
    ensures
        report_bytes(r) == Seq::<u8>::empty(),
{
    heapless::String::new()
}

/// Relies on heapless::String::push: a one-byte character is appended
/// exactly when the buffer has room for it, and a full buffer is left
/// unchanged.
#[verifier::external_body]
pub fn push_byte(s: &mut heapless::String<26>, b: u8) -> (r: Result<(), ()>)
    requires
        b < 128,
    ensures
        r is Ok <==> report_bytes(*old(s)).len() < 26,
        r is Ok ==> report_bytes(*final(s)) == report_bytes(*old(s)).push(b),
        r is Err ==> report_bytes(*final(s)) == report_bytes(*old(s)),
{
    s.push(b as char)
}

/// Relies on heapless::String::clear: removes every byte.
#[verifier::external_body]
pub fn clear_line(s: &mut heapless::String<26>)
    ensures
        report_bytes(*final(s)) == Seq::<u8>::empty(),
{
    s.clear()
}

/// Relies on heapless::String::as_str and str::as_bytes: hands out
/// exactly the bytes the buffer holds.
#[verifier::external_body]
pub fn line_as_bytes(s: &heapless::String<26>) -> (r: &[u8])
    ensures
        r@ == report_bytes(*s),
{
    s.as_str().as_bytes()
}

} // verus!
