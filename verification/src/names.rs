//! The byte classes allowed in namespaces and tags.

use vstd::prelude::*;
use crate::bytes::text_bytes;

verus! {

/// An ASCII letter or digit.
pub open spec fn is_alnum(b: u8) -> bool {
    (48 <= b <= 57) || (65 <= b <= 90) || (97 <= b <= 122)
}

/// A byte allowed in a namespace: ASCII letters, digits, `-` and `_`.
pub open spec fn is_namespace_byte(b: u8) -> bool {
    is_alnum(b) || b == 45 || b == 95
}

/// A byte allowed in a tag: ASCII letters, digits, `-`, `_`, `:`, `.` and `/`.
pub open spec fn is_tag_byte(b: u8) -> bool {
    is_alnum(b) || b == 45 || b == 95 || b == 58 || b == 46 || b == 47
}

/// A namespace is non-empty and made of namespace bytes only.
pub open spec fn valid_namespace(b: Seq<u8>) -> bool {
    b.len() > 0 && forall|i: int| 0 <= i < b.len() ==> #[trigger] is_namespace_byte(b[i])
}

/// A tag is non-empty and made of tag bytes only.
pub open spec fn valid_tag(b: Seq<u8>) -> bool {
    b.len() > 0 && forall|i: int| 0 <= i < b.len() ==> #[trigger] is_tag_byte(b[i])
}

pub fn is_alnum_byte(b: u8) -> (r: bool)
    ensures
        r == is_alnum(b),
{
    (48 <= b && b <= 57) || (65 <= b && b <= 90) || (97 <= b && b <= 122)
}

/// Whether the bytes form a valid namespace.
pub fn namespace_bytes_ok(b: &[u8]) -> (r: bool)
    ensures
        r == valid_namespace(b@),
{
    if b.len() == 0 {
        return false;
    }
    let mut i: usize = 0;
    while i < b.len()
        invariant
            0 <= i <= b@.len(),
            forall|j: int| 0 <= j < i ==> #[trigger] is_namespace_byte(b@[j]),
        decreases b@.len() - i,
    {
        let c = b[i];
        if !(is_alnum_byte(c) || c == 45 || c == 95) {
            assert(!is_namespace_byte(b@[i as int]));
            return false;
        }
        i = i + 1;
    }
    true
}

/// Whether the bytes form a valid tag.
pub fn tag_bytes_ok(b: &[u8]) -> (r: bool)
    ensures
        r == valid_tag(b@),
{
    if b.len() == 0 {
        return false;
    }
    let mut i: usize = 0;
    while i < b.len()
        invariant
            0 <= i <= b@.len(),
            forall|j: int| 0 <= j < i ==> #[trigger] is_tag_byte(b@[j]),
        decreases b@.len() - i,
    {
        let c = b[i];
        if !(is_alnum_byte(c) || c == 45 || c == 95 || c == 58 || c == 46 || c == 47) {
            assert(!is_tag_byte(b@[i as int]));
            return false;
        }
        i = i + 1;
    }
    true
}

/// Whether `namespace` is a valid namespace.
pub fn is_valid_namespace(namespace: &str) -> (r: bool)
    ensures
        r == valid_namespace(text_bytes(namespace@)),
{
    namespace_bytes_ok(namespace.as_bytes())
}

/// Whether `tag` is a valid tag.
pub fn is_valid_tag(tag: &str) -> (r: bool)
    ensures
        r == valid_tag(text_bytes(tag@)),
{
    tag_bytes_ok(tag.as_bytes())
}

} // verus!
