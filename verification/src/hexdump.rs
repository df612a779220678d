//! Hex dumps of packet data, for diagnostics.

use vstd::prelude::*;

verus! {

/// The text of the multi-line hex dump of the bytes in the default format of
/// the `pretty_hex` crate: a title line with the length, then rows of 16
/// bytes, each with its address, its hex digits in groups of four and its
/// ASCII column.
pub uninterp spec fn hex_dump_text(bytes: Seq<u8>) -> Seq<char>;

/// Calls `pretty_hex::pretty_hex` on the bytes. The text that comes back
/// depends on the bytes alone; the contract gives it its name and claims
/// nothing else of it.
#[verifier::external_body]
pub(crate) fn hex_dump(data: &[u8]) -> (text: String)
    ensures
        text@ == hex_dump_text(data@),
{
    pretty_hex::pretty_hex(&data)
}

} // verus!
