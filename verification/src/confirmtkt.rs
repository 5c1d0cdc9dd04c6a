//! ConfirmTkt, a worldwide fallback for availability: its search URL.
use vstd::prelude::*;
use vstd::utf8::encode_utf8;
use crate::error::AppError;
use crate::paytm::{percent_encoded, url_encode};
use crate::text::{chars_of, contains_chars, has_infix, push_str, push_trimmed_end, string_of, trim_end_char};

verus! {

/// Label used in errors for this source.
pub const SOURCE: &'static str = "ConfirmTkt";

/// Label used in metrics and the failover table for this source.
pub const METRIC: &'static str = "confirmtkt";

/// The search page of a route and date:
/// `{base}/train-booking/trains-between-stations/{src}/{dst}?date={date}`.
pub open spec fn availability_url_of(base: Seq<char>, src: Seq<char>, dst: Seq<char>, date: Seq<char>) -> Seq<char> {
    trim_end_char(base, '/') + "/train-booking/trains-between-stations/"@ + percent_encoded(encode_utf8(src)) + "/"@
        + percent_encoded(encode_utf8(dst)) + "?date="@ + percent_encoded(encode_utf8(date))
}

/// The search page of `src` to `dst` on `date`.
pub fn availability_url(base: &str, src: &str, dst: &str, date: &str) -> (r: String)
    ensures
        r@ == availability_url_of(base@, src@, dst@, date@),
{
    let mut out: Vec<char> = Vec::new();
    push_trimmed_end(&mut out, base, '/');
    push_str(&mut out, "/train-booking/trains-between-stations/");
    push_str(&mut out, url_encode(src).as_str());
    push_str(&mut out, "/");
    push_str(&mut out, url_encode(dst).as_str());
    push_str(&mut out, "?date=");
    push_str(&mut out, url_encode(date).as_str());
    string_of(out.as_slice())
}

/// What a fetched search page amounts to: a failing status fails the
/// source; else the page counts where it shows a train table (`Train No`
/// or `trainNumber` occurs in it), and the source failed where not.
pub fn availability_outcome(url: &str, failed_status: Option<&str>, page: &str) -> (r: Result<(), AppError>)
    ensures
        match failed_status {
            Some(st) => r matches Err(AppError::SourceUnavailable { source, reason }) && source@ == SOURCE@
                && reason@ == "GET "@ + url@ + " returned "@ + st@,
            None => if has_infix(page@, "Train No"@) || has_infix(page@, "trainNumber"@) {
                r is Ok
            } else {
                r matches Err(AppError::SourceUnavailable { source, reason }) && source@ == SOURCE@
                    && reason@ == "no train table in ConfirmTkt response"@
            },
        },
{
    match failed_status {
        Some(st) => {
            let mut m: Vec<char> = Vec::new();
            push_str(&mut m, "GET ");
            push_str(&mut m, url);
            push_str(&mut m, " returned ");
            push_str(&mut m, st);
            return Err(AppError::source_unavailable(SOURCE, string_of(m.as_slice()).as_str()));
        },
        None => {},
    }
    let pv = chars_of(page);
    let a = chars_of("Train No");
    let b = chars_of("trainNumber");
    if contains_chars(pv.as_slice(), a.as_slice()) || contains_chars(pv.as_slice(), b.as_slice()) {
        Ok(())
    } else {
        Err(AppError::source_unavailable(SOURCE, "no train table in ConfirmTkt response"))
    }
}

} // verus!
