//! Numbers of bytes as people read them.

use vstd::prelude::*;

use crate::text::decimal;

verus! {

/// What bytesize writes for a number of bytes, with the given number of digits
/// behind the point.
pub uninterp spec fn byte_size(bytes: u64, decimals: nat) -> Seq<char>;

/// `Display` of bytesize's `ByteSize`: the number of bytes in the largest binary
/// unit that it fills, such as `1.5 MiB`. Less than 1024 bytes are written as a
/// whole number.
#[verifier::external_body]
pub(crate) fn size_text(bytes: u64, decimals: usize) -> (r: String)
    requires
        decimals <= 2,
    ensures
        r@ == byte_size(bytes, decimals as nat),
        bytes < 1024 ==> r@ == decimal(bytes as nat) + " B"@,
{
    format!("{:.*}", decimals, bytesize::ByteSize(bytes))
}

/// A number of bytes with two digits behind the point.
pub fn format_bytes(bytes: u64) -> (r: String)
    ensures
        r@ == byte_size(bytes, 2),
        bytes < 1024 ==> r@ == decimal(bytes as nat) + " B"@,
{
    size_text(bytes, 2)
}

/// A number of bytes with one digit behind the point.
pub fn fmt_bytes(bytes: u64) -> (r: String)
    ensures
        r@ == byte_size(bytes, 1),
        bytes < 1024 ==> r@ == decimal(bytes as nat) + " B"@,
{
    size_text(bytes, 1)
}

} // verus!
