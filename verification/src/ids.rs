//! Random names: ids of requests to the browser, and names of temporary files.

use vstd::prelude::*;
use crate::digest::{hex_lower, to_hex};
use crate::paths::{join_path, path_join};
use vstd::slice::slice_subrange;

verus! {

/// The 16 bytes of a new random (version 4) UUID from `uuid::Uuid::new_v4`.
/// The result is random; what holds of every outcome, by the crate's source,
/// is that the version nibble is 4 and the variant bits are `10`.
#[verifier::external_body]
fn random_uuid() -> (res: [u8; 16])
    ensures
        res@.len() == 16,
        res@[6] / 16 == 4,
        res@[8] / 64 == 2,
{
    uuid::Uuid::new_v4().into_bytes()
}

/// Whether `b` are the bytes of a version 4 UUID.
pub open spec fn is_uuid_v4(b: Seq<u8>) -> bool {
    b.len() == 16 && b[6] / 16 == 4 && b[8] / 64 == 2
}

/// A UUID as 32 lowercase hexadecimal digits (its "simple" form).
pub open spec fn uuid_simple(b: Seq<u8>) -> Seq<char> {
    hex_lower(b)
}

/// A UUID in its hyphenated form: 8, 4, 4, 4 and 12 digits, joined by `-`.
pub open spec fn uuid_hyphenated(b: Seq<u8>) -> Seq<char> {
    hex_lower(b.take(4)) + "-"@ + hex_lower(b.subrange(4, 6)) + "-"@ + hex_lower(b.subrange(6, 8))
        + "-"@ + hex_lower(b.subrange(8, 10)) + "-"@ + hex_lower(b.skip(10))
}

/// A new request id: a random version 4 UUID in its simple form.
pub fn new_request_id() -> (res: String)
    ensures
        exists|b: Seq<u8>| is_uuid_v4(b) && res@ == uuid_simple(b),
{
    let bytes = random_uuid();
    let res = to_hex(&bytes);
    assert(is_uuid_v4(bytes@));
    res
}

/// The path of a new temporary file in `parent`: `.zen-tab-` followed by a
/// random version 4 UUID in its hyphenated form.
pub fn temporary_path(parent: &str) -> (res: String)
    ensures
        exists|b: Seq<u8>| is_uuid_v4(b) && res@ == path_join(
            parent@,
            ".zen-tab-"@ + uuid_hyphenated(b),
        ),
{
    let bytes = random_uuid();
    let all: &[u8] = &bytes;
    assert(all@ == bytes@);
    let mut name = String::from_str(".zen-tab-");
    let a = to_hex(slice_subrange(all, 0, 4));
    name.append(a.as_str());
    name.append("-");
    let b = to_hex(slice_subrange(all, 4, 6));
    name.append(b.as_str());
    name.append("-");
    let c = to_hex(slice_subrange(all, 6, 8));
    name.append(c.as_str());
    name.append("-");
    let d = to_hex(slice_subrange(all, 8, 10));
    name.append(d.as_str());
    name.append("-");
    let e = to_hex(slice_subrange(all, 10, 16));
    name.append(e.as_str());
    assert(bytes@.take(4) == bytes@.subrange(0, 4));
    assert(bytes@.skip(10) == bytes@.subrange(10, 16));
    assert(is_uuid_v4(bytes@));
    join_path(parent, name.as_str())
}

} // verus!
