//! Small trusted shims over `std` string operations that vstd leaves
//! unspecified.

use vstd::prelude::*;
use vstd::string::StringSliceAdditionalSpecFns;

verus! {

/// Relies on `String::push`: appends exactly the one character `c`.
#[verifier::external_body]
pub(crate) fn push_char(s: &mut String, c: char)
    ensures
        final(s)@ == old(s)@.push(c),
{
    s.push(c)
}

/// Relies on `core::str::from_utf8`: succeeds exactly when `b` is valid
/// UTF-8, returning the string slice over those same bytes — the contract
/// vstd itself gives `str::from_utf8_unchecked`, plus the validity check.
#[verifier::external_body]
pub(crate) fn bytes_to_str(b: &[u8]) -> (r: Option<&str>)
    ensures
        match r {
            Some(t) => vstd::utf8::valid_utf8(b@) && t.spec_bytes() =~= b@,
            None => !vstd::utf8::valid_utf8(b@),
        },
{
    core::str::from_utf8(b).ok()
}

} // verus!
