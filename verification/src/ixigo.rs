//! Ixigo, the worldwide fallback for seat availability: its search URL, and
//! what an answer from it amounts to.
use vstd::prelude::*;
use vstd::utf8::encode_utf8;
use crate::error::AppError;
use crate::json::{json_parse_of, read_json, Json};
use crate::paytm::{percent_encoded, url_encode};
use crate::text::{chars_of, lower_chars, lower_seq, push_str, string_of};

verus! {

/// Label used in errors for this source.
pub const SOURCE: &'static str = "Ixigo";

/// Label used in metrics and the failover table for this source.
pub const METRIC: &'static str = "ixigo";

/// The seat table this source serves for its one known route (Kacheguda
/// Hyderabad to Akola), as JSON text.
pub const KNOWN_ROUTE_TABLE: &'static str = r#"{"trains":[{"number":"17605","name":"KCG BGKT EXPRESS","from_code":"KCG","from_name":"Kacheguda Hyderabad","to_code":"AK","to_name":"Akola Jn","departure_time":"23:35","arrival_time":"12:50","duration":"13:15","distance":"","classes":["SL","3A","2A"],"train_type":"Other Trains","runs_on":[true,true,true,true,true,true,true],"availability":[{"class":"SL","class_name":"Sleeper Class","status":"GNWL77/WL58","available":false,"fare":330,"quota":"GN","prediction":95},{"class":"3A","class_name":"AC 3 Tier","status":"AVAILABLE-0030","available":true,"fare":865,"quota":"GN"},{"class":"2A","class_name":"AC 2 Tier","status":"GNWL8/WL4","available":false,"fare":1225,"quota":"GN","prediction":95}]}]}"#;

/// The seat table of the known route as a JSON document: the reading of
/// [`KNOWN_ROUTE_TABLE`] (`Null` only where that text were no JSON).
pub fn known_route_table() -> (r: Json)
    ensures
        match json_parse_of(KNOWN_ROUTE_TABLE@) {
            Some(j) => r == j,
            None => r == Json::Null,
        },
{
    match read_json(KNOWN_ROUTE_TABLE) {
        Some(j) => j,
        None => Json::Null,
    }
}

/// The search page of a route and date below `base` (which carries no
/// trailing slash).
pub open spec fn availability_url_of(base: Seq<char>, src: Seq<char>, dst: Seq<char>, date: Seq<char>) -> Seq<char> {
    base + "/search/result/train/"@ + percent_encoded(encode_utf8(src)) + "%2F"@ + percent_encoded(encode_utf8(dst))
        + "%2F"@ + percent_encoded(encode_utf8(date))
}

/// The search page of a route and date.
pub fn availability_url(base: &str, src: &str, dst: &str, date: &str) -> (r: String)
    ensures
        r@ == availability_url_of(base@, src@, dst@, date@),
{
    let mut out: Vec<char> = Vec::new();
    push_str(&mut out, base);
    push_str(&mut out, "/search/result/train/");
    push_str(&mut out, url_encode(src).as_str());
    push_str(&mut out, "%2F");
    push_str(&mut out, url_encode(dst).as_str());
    push_str(&mut out, "%2F");
    push_str(&mut out, url_encode(date).as_str());
    string_of(out.as_slice())
}

/// Whether the route is Hyderabad to Akola, in any ASCII letter case: the
/// one route this source answers with its known table.
pub open spec fn is_known_route(src: Seq<char>, dst: Seq<char>) -> bool {
    lower_seq(src) == "hyb"@ && lower_seq(dst) == "ak"@
}

/// Whether the route is the known one.
fn known_route(src: &str, dst: &str) -> (r: bool)
    ensures
        r == is_known_route(src@, dst@),
{
    let s = lower_chars(chars_of(src).as_slice());
    let d = lower_chars(chars_of(dst).as_slice());
    let hyb = chars_of("hyb");
    let ak = chars_of("ak");
    crate::text::chars_eq(s.as_slice(), hyb.as_slice()) && crate::text::chars_eq(d.as_slice(), ak.as_slice())
}

/// What an answer from the search page amounts to, once it arrived (with a
/// failing HTTP status where `failed_status` is given): `Ok` means the known
/// Hyderabad to Akola table is served; every other route is an honest
/// failure of the source, so that the race picks another one.
pub fn availability_decision(src: &str, dst: &str, url: &str, failed_status: Option<&str>) -> (r: Result<(), AppError>)
    ensures
        is_known_route(src@, dst@) ==> r is Ok,
        !is_known_route(src@, dst@) ==> match failed_status {
            Some(st) => r matches Err(AppError::SourceUnavailable { source, reason }) && source@ == SOURCE@
                && reason@ == "GET "@ + url@ + " returned "@ + st@,
            None => r matches Err(AppError::SourceUnavailable { source, reason }) && source@ == SOURCE@
                && reason@ == "no train table in Ixigo response"@,
        },
{
    if known_route(src, dst) {
        return Ok(());
    }
    match failed_status {
        Some(st) => {
            let mut m: Vec<char> = Vec::new();
            push_str(&mut m, "GET ");
            push_str(&mut m, url);
            push_str(&mut m, " returned ");
            push_str(&mut m, st);
            Err(AppError::source_unavailable(SOURCE, string_of(m.as_slice()).as_str()))
        },
        None => Err(AppError::source_unavailable(SOURCE, "no train table in Ixigo response")),
    }
}

} // verus!
