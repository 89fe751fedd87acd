//! The fixed-capacity string that holds one row of text, and what is taken on
//! trust about it.

use arrayvec::ArrayString;
use vstd::prelude::*;
use vstd::string::StringSliceAdditionalSpecFns;

verus! {

/// The number of bytes in a row of the display, and in its title.
pub const ROW_WIDTH: usize = 16;

/// `arrayvec::ArrayString`, a string of fixed capacity. Nothing is known of a
/// value of it but what the functions below say.
#[verifier::external_type_specification]
#[verifier::external_body]
pub struct ExArrayString<const CAP: usize>(ArrayString<CAP>);

/// `core::fmt::Error`, the error of formatting, which says nothing more.
#[verifier::external_type_specification]
#[verifier::external_body]
pub struct ExFmtError(core::fmt::Error);

/// The bytes of UTF-8 that a row buffer holds, first to last.
pub uninterp spec fn stored_bytes(buffer: ArrayString<16>) -> Seq<u8>;

/// `ArrayString::new`: the buffer it returns holds nothing. It panics only for
/// a capacity above `u32::MAX`, which 16 is not.
#[verifier::external_body]
pub(crate) fn buffer_new() -> (buffer: ArrayString<16>)
    ensures
        stored_bytes(buffer) == Seq::<u8>::empty(),
{
    ArrayString::new()
}

/// `ArrayString::remaining_capacity`: the capacity less the number of bytes
/// held, which is never more than the capacity.
#[verifier::external_body]
pub(crate) fn buffer_remaining(buffer: &ArrayString<16>) -> (room: usize)
    ensures
        room + stored_bytes(*buffer).len() == ROW_WIDTH,
{
    buffer.remaining_capacity()
}

/// `ArrayString::try_push_str`: where the bytes of `s` fit in what is left of
/// the capacity they are appended, else the buffer stays as it was. The result
/// says which.
#[verifier::external_body]
pub(crate) fn buffer_try_push_str(buffer: &mut ArrayString<16>, s: &str) -> (pushed: bool)
    ensures
        pushed == (stored_bytes(*old(buffer)).len() + s.spec_bytes().len() <= ROW_WIDTH),
        pushed ==> stored_bytes(*final(buffer)) == stored_bytes(*old(buffer)) + s.spec_bytes(),
        !pushed ==> stored_bytes(*final(buffer)) == stored_bytes(*old(buffer)),
{
    buffer.try_push_str(s).is_ok()
}

/// `ArrayString::as_str`: the text held, as a string slice.
#[verifier::external_body]
pub(crate) fn buffer_as_str(buffer: &ArrayString<16>) -> (text: &str)
    ensures
        text.spec_bytes() == stored_bytes(*buffer),
{
    buffer.as_str()
}

/// The text of a row.
pub fn row_text(buffer: &ArrayString<16>) -> (text: &str)
    ensures
        text.spec_bytes() == stored_bytes(*buffer),
{
    buffer_as_str(buffer)
}

/// The unit value `core::fmt::Error`, which has no content to state.
#[verifier::external_body]
pub(crate) fn fmt_error() -> core::fmt::Error {
    core::fmt::Error
}

} // verus!
