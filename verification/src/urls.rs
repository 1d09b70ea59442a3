//! Building endpoint URLs.
//!
//! Resolving a relative path against a base URL follows the WHATWG URL
//! standard; that work is done by the `url` crate behind one trusted
//! wrapper, whose result is named by `url_join_of`. The query flag of the
//! streaming endpoints is plain string work and stays verified.

use vstd::prelude::*;
use vstd::string::StringExecFns;
use crate::errors::ApiError;

verus! {

/// The serialization of the URL that `rel` resolves to against the absolute
/// URL `base`, when both parse; a function of the two strings alone.
pub uninterp spec fn url_join_of(base: Seq<char>, rel: Seq<char>) -> Seq<char>;

/// Relies on url::Url::parse and url::Url::join: resolving `rel` against
/// `base` and serializing the result depends on the two strings alone.
#[verifier::external_body]
fn join_url_raw(base: &String, rel: &String) -> (r: Option<String>)
    ensures
        r matches Some(s) ==> s@ == url_join_of(base@, rel@),
{
    match url::Url::parse(base) {
        Err(_) => None,
        Ok(u) => match u.join(rel) {
            Err(_) => None,
            Ok(j) => Some(j.as_str().to_string()),
        },
    }
}

/// Resolves `rel` against `base`; a base that does not parse as an absolute
/// URL, or a path that cannot be resolved against it, is a configuration
/// error.
pub fn join_url(base: &String, rel: &String) -> (r: Result<String, ApiError>)
    ensures
        r matches Ok(s) ==> s@ == url_join_of(base@, rel@),
        r matches Err(e) ==> e is Config,
{
    match join_url_raw(base, rel) {
        Some(s) => Ok(s),
        None => Err(
            ApiError::Config { msg: String::from_str("base URL or endpoint path is malformed") },
        ),
    }
}

/// Adds the query flag that selects the streaming response shape.
pub fn with_stream_query(url: String) -> (r: String)
    ensures
        r@ == url@ + "?stream=true"@,
{
    let mut u = url;
    u.append("?stream=true");
    u
}

} // verus!
