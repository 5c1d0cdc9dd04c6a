//! The service's error taxonomy and the human-readable message of each error.
use vstd::prelude::*;
use crate::text::{push_str, string_of};

verus! {

/// A CAPTCHA challenge surfaced by an upstream source.
#[derive(Debug, Clone)]
pub struct CaptchaContext {
    pub text: Option<String>,
    pub session_id: Option<String>,
}

/// Error carrying a CAPTCHA challenge back to the client (HTTP 428).
#[derive(Debug, Clone)]
pub struct CaptchaRequiredError {
    pub source: String,
    pub image: String,
    pub session_id: String,
    pub message: String,
}

impl CaptchaRequiredError {
    /// A challenge from `source`; its message names the source.
    pub fn new(source: &str, image: &str, session_id: &str) -> (r: Self)
        ensures
            r.source@ == source@,
            r.image@ == image@,
            r.session_id@ == session_id@,
            r.message@ == "Captcha required by "@ + source@,
    {
        let mut m: Vec<char> = Vec::new();
        push_str(&mut m, "Captcha required by ");
        push_str(&mut m, source);
        CaptchaRequiredError {
            source: source.to_owned(),
            image: image.to_owned(),
            session_id: session_id.to_owned(),
            message: string_of(m.as_slice()),
        }
    }
}

/// Everything a request can fail with.
#[derive(Debug)]
pub enum AppError {
    /// Client supplied a bad query. HTTP 400.
    BadRequest(String),
    /// Resource does not exist / could not be resolved upstream. HTTP 404.
    NotFound(String),
    /// A live upstream source is unreachable or failed. HTTP 502.
    SourceUnavailable { source: String, reason: String },
    /// CAPTCHA challenge from a source. HTTP 428.
    CaptchaRequired(CaptchaRequiredError),
    /// Any other server-side failure. HTTP 500.
    Internal(String),
}

/// The summary an error reports in logs and in the `error` field.
pub open spec fn message_of(e: AppError) -> Seq<char> {
    match e {
        AppError::BadRequest(m) => m@,
        AppError::NotFound(m) => m@,
        AppError::SourceUnavailable { source, reason } => "Live source "@ + source@ + " unavailable: "@ + reason@,
        AppError::CaptchaRequired(c) => c.message@,
        AppError::Internal(m) => m@,
    }
}

/// HTTP status an error maps to.
pub open spec fn status_of(e: AppError) -> u16 {
    match e {
        AppError::BadRequest(_) => 400,
        AppError::NotFound(_) => 404,
        AppError::SourceUnavailable { .. } => 502,
        AppError::CaptchaRequired(_) => 428,
        AppError::Internal(_) => 500,
    }
}

impl AppError {
    /// A live source failed for `reason`.
    pub fn source_unavailable(source: &str, reason: &str) -> (r: Self)
        ensures
            r matches AppError::SourceUnavailable { source: s, reason: why } && s@ == source@ && why@ == reason@,
    {
        AppError::SourceUnavailable { source: source.to_owned(), reason: reason.to_owned() }
    }

    /// A server-side failure.
    pub fn internal(msg: &str) -> (r: Self)
        ensures
            r matches AppError::Internal(m) && m@ == msg@,
    {
        AppError::Internal(msg.to_owned())
    }

    /// A bad client query.
    pub fn bad_request(msg: &str) -> (r: Self)
        ensures
            r matches AppError::BadRequest(m) && m@ == msg@,
    {
        AppError::BadRequest(msg.to_owned())
    }

    /// Nothing matched the query.
    pub fn not_found(msg: &str) -> (r: Self)
        ensures
            r matches AppError::NotFound(m) && m@ == msg@,
    {
        AppError::NotFound(msg.to_owned())
    }

    /// Human readable summary, used in logs and as the `error` field.
    pub fn message(&self) -> (r: String)
        ensures
            r@ == message_of(*self),
    {
        match self {
            AppError::BadRequest(m) => m.clone(),
            AppError::NotFound(m) => m.clone(),
            AppError::SourceUnavailable { source, reason } => {
                let mut v: Vec<char> = Vec::new();
                push_str(&mut v, "Live source ");
                push_str(&mut v, source.as_str());
                push_str(&mut v, " unavailable: ");
                push_str(&mut v, reason.as_str());
                string_of(v.as_slice())
            },
            AppError::CaptchaRequired(e) => e.message.clone(),
            AppError::Internal(m) => m.clone(),
        }
    }

    /// The HTTP status this error is answered with.
    pub fn status(&self) -> (r: u16)
        ensures
            r == status_of(*self),
    {
        match self {
            AppError::BadRequest(_) => 400,
            AppError::NotFound(_) => 404,
            AppError::SourceUnavailable { .. } => 502,
            AppError::CaptchaRequired(_) => 428,
            AppError::Internal(_) => 500,
        }
    }
}

} // verus!
