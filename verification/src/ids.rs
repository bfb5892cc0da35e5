//! Random identifiers, drawn by the `uuid` crate.
use vstd::prelude::*;
use crate::text::{chars_of, string_of_range, concat2};

verus! {

/// A lower-case hexadecimal digit.
pub open spec fn is_hex_lower(c: char) -> bool {
    ('0' <= c && c <= '9') || ('a' <= c && c <= 'f')
}

/// Text made of lower-case hexadecimal digits only.
pub open spec fn all_hex_lower(s: Seq<char>) -> bool {
    forall|i: int| 0 <= i < s.len() ==> is_hex_lower(#[trigger] s[i])
}

/// The text of a UUID as `Uuid` displays it: 36 characters, with hyphens
/// at 8, 13, 18 and 23 and lower-case hexadecimal digits elsewhere.
pub open spec fn uuid_text(s: Seq<char>) -> bool {
    &&& s.len() == 36
    &&& forall|i: int|
        0 <= i < 36 ==> (if i == 8 || i == 13 || i == 18 || i == 23 {
            #[trigger] s[i] == '-'
        } else {
            is_hex_lower(s[i])
        })
}

/// `uuid::Uuid::new_v4().to_string()`: a random UUID in its hyphenated
/// form; only the shape of the text is stated.
#[verifier::external_body]
pub(crate) fn random_uuid() -> (r: String)
    ensures
        uuid_text(r@),
{
    uuid::Uuid::new_v4().to_string()
}

/// `uuid::Uuid::new_v4().simple().to_string()`: a random UUID as 32
/// lower-case hexadecimal digits; only the shape of the text is stated.
#[verifier::external_body]
pub(crate) fn random_uuid_simple() -> (r: String)
    ensures
        r@.len() == 32,
        all_hex_lower(r@),
{
    uuid::Uuid::new_v4().simple().to_string()
}

/// `prefix` followed by the first `n` digits of `hex`.
pub open spec fn spec_id_from(prefix: Seq<char>, hex: Seq<char>, n: nat) -> Seq<char> {
    prefix + hex.take(n as int)
}

/// `prefix` followed by the first `n` digits of `hex`.
pub fn id_from(prefix: &str, hex: &str, n: usize) -> (r: String)
    requires
        n <= hex@.len(),
    ensures
        r@ == spec_id_from(prefix@, hex@, n as nat),
{
    let v = chars_of(hex);
    let head = string_of_range(&v, 0, n);
    concat2(prefix, head.as_str())
}

/// `prefix` followed by `n` random lower-case hexadecimal digits.
pub fn new_id(prefix: &str, n: usize) -> (r: String)
    requires
        n <= 32,
    ensures
        exists|hex: Seq<char>| hex.len() == n && all_hex_lower(hex) && r@ == prefix@ + hex,
{
    let u = random_uuid_simple();
    let r = id_from(prefix, u.as_str(), n);
    assert(all_hex_lower(u@.take(n as int)));
    r
}

} // verus!
