//! What the client of the platform's API decides: the address to ask,
//! and what an answer other than the record means.

use vstd::prelude::*;
use vstd::string::StringExecFns;
use crate::error::CliError;

verus! {

/// Whether a text is a UUID in one of the forms that the `uuid` crate
/// reads.
pub uninterp spec fn is_uuid_text(text: Seq<char>) -> bool;

/// `Uuid::parse_str`: whether the text is read as a UUID. This depends
/// on the text alone.
#[verifier::external_body]
pub(crate) fn is_uuid(text: &str) -> (r: bool)
    ensures
        r == is_uuid_text(text@),
{
    uuid::Uuid::parse_str(text).is_ok()
}

/// The address of a record: by its id under the collection, or by its
/// name as a query on the collection.
pub open spec fn record_url(
    base_url: Seq<char>,
    collection: Seq<char>,
    identifier: Seq<char>,
    by_id: bool,
) -> Seq<char> {
    if by_id {
        base_url + "/"@ + collection + "/"@ + identifier
    } else {
        base_url + "/"@ + collection + "?name="@ + identifier
    }
}

/// The address of a record.
pub fn build_url(base_url: &str, collection: &str, identifier: &str, by_id: bool) -> (r: String)
    ensures
        r@ == record_url(base_url@, collection@, identifier@, by_id),
{
    let mut r = String::from_str(base_url);
    r.append("/");
    r.append(collection);
    if by_id {
        r.append("/");
    } else {
        r.append("?name=");
    }
    r.append(identifier);
    r
}

/// The address of a blueprint: by id where the identifier is a UUID, by
/// name otherwise.
pub fn build_blueprint_url(base_url: &str, identifier: &str) -> (r: String)
    ensures
        r@ == record_url(base_url@, "blueprints"@, identifier@, is_uuid_text(identifier@)),
{
    build_url(base_url, "blueprints", identifier, is_uuid(identifier))
}

/// The address of a stack: by id where the identifier is a UUID, by name
/// otherwise.
pub fn build_stack_url(base_url: &str, identifier: &str) -> (r: String)
    ensures
        r@ == record_url(base_url@, "stacks"@, identifier@, is_uuid_text(identifier@)),
{
    build_url(base_url, "stacks", identifier, is_uuid(identifier))
}

/// The value of the header that authorizes a request.
pub fn authorization(api_key: &str) -> (r: String)
    ensures
        r@ == "Bearer "@ + api_key@,
{
    String::from_str("Bearer ").concat(api_key)
}

/// The body of an answer, or `fallback` where the body could not be
/// read.
pub open spec fn body_or(body: Option<&str>, fallback: Seq<char>) -> Seq<char> {
    match body {
        Some(text) => text@,
        None => fallback,
    }
}

/// What an answer means that is not the record: nothing for status 200,
/// else the error for the status.
pub fn response_error(status: u16, status_text: &str, body: Option<&str>, identifier: &str) -> (r:
    Option<CliError>)
    ensures
        status == 200 ==> r is None,
        status == 401 ==> (r matches Some(CliError::AuthenticationError(m)) && m@
            == "Invalid or missing API key"@),
        status == 404 ==> (r matches Some(CliError::NotFoundError(m)) && m@ == identifier@),
        status == 500 ==> (r matches Some(CliError::ApiError(m)) && m@ == "Server error (500): "@
            + body_or(body, "Unknown server error"@)),
        status != 200 && status != 401 && status != 404 && status != 500 ==> (r matches Some(
            CliError::ApiError(m),
        ) && m@ == "Unexpected status code "@ + status_text@ + ": "@ + body_or(
            body,
            "Unknown error"@,
        )),
{
    if status == 200 {
        None
    } else if status == 401 {
        Some(CliError::AuthenticationError(String::from_str("Invalid or missing API key")))
    } else if status == 404 {
        Some(CliError::NotFoundError(String::from_str(identifier)))
    } else if status == 500 {
        let mut m = String::from_str("Server error (500): ");
        match body {
            Some(text) => m.append(text),
            None => m.append("Unknown server error"),
        }
        Some(CliError::ApiError(m))
    } else {
        let mut m = String::from_str("Unexpected status code ");
        m.append(status_text);
        m.append(": ");
        match body {
            Some(text) => m.append(text),
            None => m.append("Unknown error"),
        }
        Some(CliError::ApiError(m))
    }
}

/// The error for an answer with status 200 whose body is no record.
pub fn parse_failure(cause: &str) -> (r: CliError)
    ensures
        r matches CliError::ApiError(m) && m@ == "Failed to parse response: "@ + cause@,
{
    CliError::ApiError(String::from_str("Failed to parse response: ").concat(cause))
}

} // verus!
