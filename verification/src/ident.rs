//! The references by which polls are known outside the store: version-4
//! UUIDs, held as their 128 bits, made by the `uuid` crate and read and
//! written in its text forms.

use vstd::prelude::*;
use vstd::string::StringExecFns;
use crate::error::ParamError;
use crate::models::ExternalRef;

verus! {

/// Whether the bits are laid out as a version-4 UUID: the version is 4 and the
/// variant is the RFC's. The other 122 bits are free.
pub open spec fn is_random_ref(r: ExternalRef) -> bool {
    r & 0x0000_0000_0000_f000_c000_0000_0000_0000 == 0x0000_0000_0000_4000_8000_0000_0000_0000
}

/// The sixteen digits in which a reference is written.
pub open spec fn hex_digits() -> Seq<char> {
    seq!['0', '1', '2', '3', '4', '5', '6', '7', '8', '9', 'a', 'b', 'c', 'd', 'e', 'f']
}

/// The `k`-th group of four bits of `r`, counted from the most significant (0)
/// to the least (31).
pub open spec fn nibble(r: ExternalRef, k: int) -> int {
    ((r >> ((4 * (31 - k)) as u128)) & 0xf) as int
}

/// The canonical text of a reference: its 32 hexadecimal digits in lower case,
/// in groups of 8, 4, 4, 4 and 12 with a hyphen between the groups.
pub open spec fn canonical_text(r: ExternalRef) -> Seq<char> {
    Seq::new(
        36,
        |i: int|
            if i == 8 || i == 13 || i == 18 || i == 23 {
                '-'
            } else {
                let k = if i < 8 {
                    i
                } else if i < 13 {
                    i - 1
                } else if i < 18 {
                    i - 2
                } else if i < 23 {
                    i - 3
                } else {
                    i - 4
                };
                hex_digits()[nibble(r, k)]
            },
    )
}

/// The reference that `uuid::Uuid::parse_str` reads from a text, if it reads one.
pub uninterp spec fn parsed_uuid(text: Seq<char>) -> Option<u128>;

/// The error of `uuid::Uuid::parse_str`, `uuid::Error`. Nothing is read from
/// it: that there is one says that the text is no UUID.
#[verifier::external_type_specification]
#[verifier::external_body]
pub struct ExUuidError(uuid::Error);

/// A fresh reference, from `uuid::Uuid::new_v4`. Trusted: the crate draws 128
/// random bits from the operating system and then sets the version to 4 and
/// the variant to the RFC's, which is all that is claimed of the result. Two
/// calls may well differ; nothing says that they do. Where the system hands
/// out no random bits, the crate panics.
#[verifier::external_body]
pub(crate) fn generate_uuid() -> (r: ExternalRef)
    ensures
        is_random_ref(r),
{
    uuid::Uuid::new_v4().as_u128()
}

/// Reads a reference with `uuid::Uuid::parse_str`. Trusted: the result is
/// that function's, named `parsed_uuid`; nothing more is claimed of it.
#[verifier::external_body]
pub(crate) fn parse_uuid(text: &str) -> (r: Result<ExternalRef, uuid::Error>)
    ensures
        match r {
            Ok(value) => parsed_uuid(text@) == Some(value),
            Err(_) => parsed_uuid(text@) is None,
        },
{
    match uuid::Uuid::parse_str(text) {
        Ok(value) => Ok(value.as_u128()),
        Err(e) => Err(e),
    }
}

/// Writes a reference as `uuid::Uuid` displays it. Trusted: the crate's
/// `Display` writes the hyphenated lower-case form, which `canonical_text` states.
#[verifier::external_body]
pub(crate) fn uuid_text(r: ExternalRef) -> (text: String)
    ensures
        text@ == canonical_text(r),
{
    uuid::Uuid::from_u128(r).to_string()
}

/// What becomes of the reference in a request's path: `None` where the path
/// holds none, else what was read from it.
pub open spec fn param_outcome(read: Option<Option<ExternalRef>>) -> Result<
    ExternalRef,
    ParamError,
> {
    match read {
        None => Err(ParamError::Missing),
        Some(None) => Err(ParamError::Invalid),
        Some(Some(r)) => Ok(r),
    }
}

/// Judges what was read from a request's path.
pub fn judge_uuid_param(read: Option<Option<ExternalRef>>) -> (r: Result<ExternalRef, ParamError>)
    ensures
        r == param_outcome(read),
{
    match read {
        None => Err(ParamError::Missing),
        Some(None) => Err(ParamError::Invalid),
        Some(Some(value)) => Ok(value),
    }
}

/// The reference that a request's path holds.
pub fn get_uuid_param(raw: Option<&str>) -> (r: Result<ExternalRef, ParamError>)
    ensures
        r == param_outcome(
            match raw {
                None => None,
                Some(text) => Some(parsed_uuid(text@)),
            },
        ),
{
    match raw {
        None => judge_uuid_param(None),
        Some(text) => match parse_uuid(text) {
            Ok(value) => judge_uuid_param(Some(Some(value))),
            Err(_) => judge_uuid_param(Some(None)),
        },
    }
}

/// The path under which a poll is shown.
pub fn poll_path(r: ExternalRef) -> (path: String)
    ensures
        path@ == "/poll/"@ + canonical_text(r),
{
    let mut path = String::from_str("/poll/");
    let text = uuid_text(r);
    path.append(text.as_str());
    path
}

/// The path under which a poll's results are shown.
pub fn results_path(r: ExternalRef) -> (path: String)
    ensures
        path@ == "/poll/"@ + canonical_text(r) + "/results"@,
{
    let mut path = poll_path(r);
    path.append("/results");
    path
}

/// The body that answers the creation of a poll: a JSON object whose one
/// member, `poll`, is the text of the poll's reference.
pub fn created_body(r: ExternalRef) -> (body: String)
    ensures
        body@ == "{\"poll\":\""@ + canonical_text(r) + "\"}"@,
{
    let mut body = String::from_str("{\"poll\":\"");
    let text = uuid_text(r);
    body.append(text.as_str());
    body.append("\"}");
    body
}

} // verus!
