//! The NTES mobile API: every query is one encrypted form payload posted to
//! a single endpoint, and every answer one encrypted JSON document.
use vstd::prelude::*;
use crate::crypto::{decrypt_of, envelope_of, NtesCrypto};
use crate::error::AppError;
use crate::json::{as_str, get, get_of, json_parse_of, str_of, Json};
use crate::ntes::session::{pairs_view, query_suffix};
use crate::text::{push_str, push_trimmed_end, string_of, trim_end_char};

verus! {

/// The service every query names.
pub const SERVICE: &'static str = "TrainRunningMob";

/// The endpoint below a base URL: `{base}/crisns/AppServAnd`, the base
/// without trailing `/`.
pub open spec fn endpoint_of(base: Seq<char>) -> Seq<char> {
    trim_end_char(base, '/') + "/crisns/AppServAnd"@
}

/// The endpoint the queries are posted to.
pub fn endpoint(base: &str) -> (r: String)
    ensures
        r@ == endpoint_of(base@),
{
    let mut out: Vec<char> = Vec::new();
    push_trimmed_end(&mut out, base, '/');
    push_str(&mut out, "/crisns/AppServAnd");
    string_of(out.as_slice())
}

/// The plaintext of a query: `service=TrainRunningMob&subService={sub}`,
/// then `&name=value` for each parameter (unescaped).
pub open spec fn payload_of(sub_service: Seq<char>, params: Seq<(Seq<char>, Seq<char>)>) -> Seq<char> {
    "service="@ + SERVICE@ + "&subService="@ + sub_service + query_suffix(params)
}

/// The plaintext of the query `sub_service` with `params`.
pub fn payload(sub_service: &str, params: &[(String, String)]) -> (r: String)
    ensures
        r@ == payload_of(sub_service@, pairs_view(params@)),
{
    let mut out: Vec<char> = Vec::new();
    push_str(&mut out, "service=");
    push_str(&mut out, SERVICE);
    push_str(&mut out, "&subService=");
    push_str(&mut out, sub_service);
    let ghost head = out@;
    let mut i: usize = 0;
    while i < params.len()
        invariant
            0 <= i <= params@.len(),
            out@ == head + query_suffix(pairs_view(params@).take(i as int)),
        decreases params@.len() - i,
    {
        push_str(&mut out, "&");
        push_str(&mut out, params[i].0.as_str());
        push_str(&mut out, "=");
        push_str(&mut out, params[i].1.as_str());
        proof {
            assert(pairs_view(params@).take(i + 1).drop_last() =~= pairs_view(params@).take(i as int));
        }
        i = i + 1;
    }
    proof {
        assert(pairs_view(params@).take(params@.len() as int) =~= pairs_view(params@));
    }
    string_of(out.as_slice())
}

/// The body posted for a query: `{"jsonIn": ENVELOPE}`, the payload hashed
/// and encrypted.
pub fn request_body(sub_service: &str, params: &[(String, String)]) -> (r: Json)
    ensures
        r matches Json::Object(fs) && fs@.len() == 1 && fs@[0].0@ == "jsonIn"@
            && (fs@[0].1 matches Json::Str(t) && t@ == envelope_of(payload_of(sub_service@, pairs_view(params@)))),
{
    let p = payload(sub_service, params);
    let env = NtesCrypto::build(p.as_str());
    let mut fs: Vec<(String, Json)> = Vec::new();
    fs.push(("jsonIn".to_string(), Json::Str(env)));
    Json::Object(fs)
}

/// The document an answer carries: its `jsonIn` text decrypted and read as
/// JSON; refused where the member is missing, the text does not decrypt or
/// the plaintext is no JSON.
pub fn read_answer(resp: &Json) -> (r: Result<Json, AppError>)
    ensures
        match str_of(get_of(Some(*resp), "jsonIn"@)) {
            None => r matches Err(AppError::SourceUnavailable { source, reason }) && source@ == "ntes"@
                && reason@ == "response missing jsonIn"@,
            Some(enc) => match decrypt_of(enc) {
                Ok(plain) => match json_parse_of(plain) {
                    Some(j) => r == Ok::<Json, AppError>(j),
                    None => r matches Err(AppError::SourceUnavailable { source, reason }) && source@ == "ntes"@
                        && reason@ == "ciphertext could not be decoded: "@ + "NTES: decrypted payload is not JSON"@,
                },
                Err(m) => r matches Err(AppError::SourceUnavailable { source, reason }) && source@ == "ntes"@
                    && reason@ == "ciphertext could not be decoded: "@ + m,
            },
        },
{
    let enc = match as_str(get(Some(resp), "jsonIn")) {
        Some(e) => e,
        None => return Err(AppError::source_unavailable("ntes", "response missing jsonIn")),
    };
    match NtesCrypto::decode_json(enc) {
        Ok(j) => Ok(j),
        Err(e) => {
            let m = e.message();
            let mut out: Vec<char> = Vec::new();
            push_str(&mut out, "ciphertext could not be decoded: ");
            push_str(&mut out, m.as_str());
            Err(AppError::source_unavailable("ntes", string_of(out.as_slice()).as_str()))
        },
    }
}

} // verus!
