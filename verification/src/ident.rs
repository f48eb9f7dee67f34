//! Identifiers: the store's document identifiers and the random identifiers
//! given to comments and uploaded images.

use vstd::prelude::*;
use crate::error::EngineError;

verus! {

/// Whether `c` is a hexadecimal digit, of either case.
pub open spec fn is_hex_digit(c: char) -> bool {
    ('0' <= c <= '9') || ('a' <= c <= 'f') || ('A' <= c <= 'F')
}

/// Whether `c` is a hexadecimal digit as written by a formatter: a decimal
/// digit or a lower-case letter up to `f`.
pub open spec fn is_lower_hex_digit(c: char) -> bool {
    ('0' <= c <= '9') || ('a' <= c <= 'f')
}

/// Whether `id` has the form of a document identifier: twenty-four
/// hexadecimal digits.
pub open spec fn is_object_id(id: Seq<char>) -> bool {
    id.len() == 24 && forall|i: int| 0 <= i < 24 ==> is_hex_digit(#[trigger] id[i])
}

/// Whether `id` has the hyphenated form of a random identifier: thirty-six
/// characters, hyphens at positions 8, 13, 18 and 23, lower-case hexadecimal
/// digits elsewhere.
pub open spec fn is_random_id(id: Seq<char>) -> bool {
    id.len() == 36 && forall|i: int|
        0 <= i < 36 ==> if i == 8 || i == 13 || i == 18 || i == 23 {
            #[trigger] id[i] == '-'
        } else {
            is_lower_hex_digit(id[i])
        }
}

#[verifier::external_type_specification]
#[verifier::external_body]
pub struct ExObjectId(bson::oid::ObjectId);

#[verifier::external_type_specification]
#[verifier::external_body]
pub struct ExObjectIdError(bson::oid::Error);

/// `bson::oid::ObjectId::parse_str`.  It decodes the text as hexadecimal and
/// accepts it where that gives twelve bytes: the call succeeds exactly on
/// twenty-four hexadecimal digits.
#[verifier::external_body]
fn parse_object_id(id: &str) -> (r: Result<bson::oid::ObjectId, bson::oid::Error>)
    ensures
        r is Ok <==> is_object_id(id@),
{
    bson::oid::ObjectId::parse_str(id)
}

/// `bson::oid::ObjectId::new` followed by `to_hex`: a new document
/// identifier, written as its twenty-four hexadecimal digits.  Which one is
/// not said: it is made from the clock, a random value of the process and a
/// counter.  The call ends the program where the clock is set before 1970.
#[verifier::external_body]
pub(crate) fn generate_object_id() -> (id: String)
    ensures
        is_object_id(id@),
{
    bson::oid::ObjectId::new().to_hex()
}

/// `uuid::Uuid::new_v4` followed by `to_string`: a random identifier in
/// hyphenated lower-case form.  Which one is not said.  The call ends the
/// program where the system has no random bytes to give.
#[verifier::external_body]
pub(crate) fn generate_random_id() -> (id: String)
    ensures
        is_random_id(id@),
{
    uuid::Uuid::new_v4().to_string()
}

/// Checks that `id` is a well-formed document identifier.
pub fn check_identifier(id: &str) -> (r: Result<(), EngineError>)
    ensures
        r is Ok <==> is_object_id(id@),
        r matches Err(e) ==> e == EngineError::InvalidIdentifier,
{
    match parse_object_id(id) {
        Ok(_) => Ok(()),
        Err(_) => Err(EngineError::InvalidIdentifier),
    }
}

} // verus!
