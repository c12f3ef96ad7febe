//! The errors the API answers with, their HTTP status and their JSON body.
use crate::json::{json_quote, json_string_literal};
use color_eyre::Report;
use vstd::prelude::*;
use vstd::std_specs::convert::FromSpecImpl;
use vstd::string::StringExecFns;

verus! {

/// `color_eyre::Report`, the error that the data layer hands back; it is
/// carried through unchanged.
#[verifier::external_type_specification]
#[verifier::external_body]
pub struct ExReport(Report);

/// An error answered by the API.
#[allow(inconsistent_fields)]
#[derive(Debug)]
pub enum LolEsportsApiError {
    /// A failure of the data layer; answered with 500.
    InternalError { message: Option<String>, e: Report },
    /// No route matches the requested path; answered with 404.
    PageNotFound { path: String },
    /// The requested resource does not exist; answered with 404.
    NotFound { message: String },
}

/// The error that answers a failure `e` of the data layer.
pub open spec fn internal(e: Report) -> LolEsportsApiError {
    LolEsportsApiError::InternalError { message: None, e }
}

/// The HTTP status that answers an error.
pub open spec fn status_of(err: LolEsportsApiError) -> u16 {
    match err {
        LolEsportsApiError::InternalError { .. } => 500,
        LolEsportsApiError::PageNotFound { .. } => 404,
        LolEsportsApiError::NotFound { .. } => 404,
    }
}

/// The JSON body that answers an error: an object whose keys are written in
/// sorted order, as `serde_json` writes a `json!` object.
pub open spec fn body_of(err: LolEsportsApiError) -> Seq<char> {
    match err {
        LolEsportsApiError::NotFound { message } =>
            "{\"message\":"@ + json_string_literal(message@) + ",\"status\":404}"@,
        LolEsportsApiError::InternalError { .. } =>
            "{\"message\":"@ + json_string_literal("Internal Server Error"@) + ",\"status\":500}"@,
        LolEsportsApiError::PageNotFound { path } =>
            "{\"message\":"@ + json_string_literal("There is no resource on this path"@)
                + ",\"path\":"@ + json_string_literal(path@) + ",\"status\":404}"@,
    }
}

/// The decimal digits of a three-digit status code.
pub open spec fn status_digits(code: u16) -> Seq<char> {
    seq![
        (('0' as int) + (code as int) / 100) as char,
        (('0' as int) + ((code as int) / 10) % 10) as char,
        (('0' as int) + (code as int) % 10) as char,
    ]
}

/// Every error body ends with a `status` member that holds the HTTP status
/// of the response for that error.
pub proof fn body_states_status(err: LolEsportsApiError)
    ensures
        exists|head: Seq<char>|
            body_of(err) == head + ",\"status\":"@ + status_digits(status_of(err)) + seq!['}'],
{
    reveal_strlit(",\"status\":");
    reveal_strlit(",\"status\":404}");
    reveal_strlit(",\"status\":500}");
    let head = match err {
        LolEsportsApiError::NotFound { message } =>
            "{\"message\":"@ + json_string_literal(message@),
        LolEsportsApiError::InternalError { .. } =>
            "{\"message\":"@ + json_string_literal("Internal Server Error"@),
        LolEsportsApiError::PageNotFound { path } =>
            "{\"message\":"@ + json_string_literal("There is no resource on this path"@)
                + ",\"path\":"@ + json_string_literal(path@),
    };
    assert(body_of(err) =~= head + ",\"status\":"@ + status_digits(status_of(err)) + seq!['}']);
}

impl LolEsportsApiError {
    /// The requested resource does not exist.
    pub fn not_found(message: String) -> (r: Self)
        ensures
            r == (LolEsportsApiError::NotFound { message }),
    {
        LolEsportsApiError::NotFound { message }
    }

    /// No route matches `path`.
    pub fn page_not_found(path: String) -> (r: Self)
        ensures
            r == (LolEsportsApiError::PageNotFound { path }),
    {
        LolEsportsApiError::PageNotFound { path }
    }

    /// A failure of the data layer, with no message of its own.
    pub fn internal_error(err: Report) -> (r: Self)
        ensures
            r == (LolEsportsApiError::InternalError { message: None, e: err }),
    {
        LolEsportsApiError::InternalError { message: None, e: err }
    }

    /// The HTTP status code of the response for this error.
    pub fn status_code(&self) -> (r: u16)
        ensures
            r == status_of(*self),
    {
        match self {
            LolEsportsApiError::InternalError { .. } => 500,
            LolEsportsApiError::PageNotFound { .. } | LolEsportsApiError::NotFound { .. } => 404,
        }
    }

    /// The JSON body of the response for this error.
    pub fn body(&self) -> (r: String)
        ensures
            r@ == body_of(*self),
    {
        match self {
            LolEsportsApiError::NotFound { message } => {
                let mut out = String::from_str("{\"message\":");
                out.append(json_quote(message.as_str()).as_str());
                out.append(",\"status\":404}");
                out
            },
            LolEsportsApiError::InternalError { .. } => {
                let mut out = String::from_str("{\"message\":");
                out.append(json_quote("Internal Server Error").as_str());
                out.append(",\"status\":500}");
                out
            },
            LolEsportsApiError::PageNotFound { path } => {
                let mut out = String::from_str("{\"message\":");
                out.append(json_quote("There is no resource on this path").as_str());
                out.append(",\"path\":");
                out.append(json_quote(path.as_str()).as_str());
                out.append(",\"status\":404}");
                out
            },
        }
    }
}

impl From<Report> for LolEsportsApiError {
    fn from(value: Report) -> (r: Self) {
        LolEsportsApiError::internal_error(value)
    }
}

impl FromSpecImpl<Report> for LolEsportsApiError {
    open spec fn obeys_from_spec() -> bool {
        true
    }

    open spec fn from_spec(v: Report) -> Self {
        LolEsportsApiError::InternalError { message: None, e: v }
    }
}

} // verus!
