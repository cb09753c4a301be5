//! Opaque identifiers.

use crate::refs;
use vstd::prelude::*;

verus! {

/// The positions of the hyphens in a hyphenated UUID.
pub open spec fn hyphen_at(i: int) -> bool {
    i == 8 || i == 13 || i == 18 || i == 23
}

/// A hyphenated UUID in lower case whose version digit is `version`.
pub open spec fn hyphenated_uuid(s: Seq<char>, version: char) -> bool {
    &&& s.len() == 36
    &&& s[14] == version
    &&& forall|i: int|
        0 <= i < 36 ==> if hyphen_at(i) {
            #[trigger] s[i] == '-'
        } else {
            refs::lower_hex(s[i])
        }
}

/// Thirty-two lower-case hexadecimal digits.
pub open spec fn simple_uuid(s: Seq<char>) -> bool {
    s.len() == 32 && forall|i: int| 0 <= i < 32 ==> refs::lower_hex(#[trigger] s[i])
}

/// `uuid::Uuid::now_v7` rendered by its `Display`: a hyphenated, lower-case UUID of version 7.
/// Which one depends on the clock and on chance. That later identifiers of one process sort
/// behind earlier ones is not stated.
#[verifier::external_body]
fn uuid_v7() -> (r: String)
    ensures
        hyphenated_uuid(r@, '7'),
{
    uuid::Uuid::now_v7().to_string()
}

/// `uuid::Uuid::new_v4` rendered by its `Display`: a hyphenated, lower-case UUID of version 4.
/// Which one is left to chance.
#[verifier::external_body]
pub(crate) fn uuid_v4() -> (r: String)
    ensures
        hyphenated_uuid(r@, '4'),
{
    uuid::Uuid::new_v4().to_string()
}

/// `uuid::Uuid::new_v4` rendered by `simple`: thirty-two lower-case hexadecimal digits. Which
/// ones is left to chance.
#[verifier::external_body]
pub(crate) fn uuid_v4_simple() -> (r: String)
    ensures
        simple_uuid(r@),
{
    uuid::Uuid::new_v4().simple().to_string()
}

/// Mint a fresh run id.
pub fn new_run_id() -> (r: String)
    ensures
        hyphenated_uuid(r@, '7'),
{
    uuid_v7()
}

/// The ids of a connection, from a random suffix: the forge's name with eight digits behind
/// it, and the handle of its credential.
pub open spec fn connection_ids(kind: Seq<char>, suffix: Seq<char>) -> (Seq<char>, Seq<char>) {
    let id = kind + "-"@ + suffix.subrange(0, 8);
    (id, id + "-credential"@)
}

/// The connection id and credential handle that go with `suffix`.
pub fn connection_ids_of(kind: &str, suffix: &str) -> (r: (String, String))
    requires
        suffix@.len() >= 8,
    ensures
        (r.0@, r.1@) == connection_ids(kind@, suffix@),
{
    let mut id = kind.to_owned();
    id.append("-");
    id.append(suffix.substring_char(0, 8));
    let mut credential_ref = id.clone();
    credential_ref.append("-credential");
    (id, credential_ref)
}

/// Mint the ids of a manually created connection: the connection's id and the handle its
/// credential is stored under, which belong together by construction.
pub fn mint_connection_ids(kind: &str) -> (r: (String, String))
    ensures
        exists|suffix: Seq<char>| simple_uuid(suffix) && (r.0@, r.1@) == connection_ids(kind@, suffix),
{
    let suffix = uuid_v4_simple();
    connection_ids_of(kind, suffix.as_str())
}

} // verus!
