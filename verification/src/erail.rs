//! Erail, a fallback for schedules and trains between stations: its page
//! URLs.
use vstd::prelude::*;
use vstd::utf8::encode_utf8;
use crate::paytm::{percent_encoded, url_encode};
use crate::text::{push_str, push_trimmed_end, string_of, trim_end_char};

verus! {

/// Label used in errors for this source.
pub const SOURCE: &'static str = "Erail";

/// Label used in metrics and the failover table for this source.
pub const METRIC: &'static str = "erail";

/// The train page: `{base}/train/{train}`, the base without trailing `/`.
pub open spec fn schedule_url_of(base: Seq<char>, train: Seq<char>) -> Seq<char> {
    trim_end_char(base, '/') + "/train/"@ + percent_encoded(encode_utf8(train))
}

/// The train page of `train`.
pub fn schedule_url(base: &str, train: &str) -> (r: String)
    ensures
        r@ == schedule_url_of(base@, train@),
{
    let mut out: Vec<char> = Vec::new();
    push_trimmed_end(&mut out, base, '/');
    push_str(&mut out, "/train/");
    push_str(&mut out, url_encode(train).as_str());
    string_of(out.as_slice())
}

/// The route page: `{base}/trains/{src}/to/{dst}`.
pub open spec fn between_url_of(base: Seq<char>, src: Seq<char>, dst: Seq<char>) -> Seq<char> {
    trim_end_char(base, '/') + "/trains/"@ + percent_encoded(encode_utf8(src)) + "/to/"@ + percent_encoded(encode_utf8(dst))
}

/// The page of the trains from `src` to `dst`.
pub fn between_url(base: &str, src: &str, dst: &str) -> (r: String)
    ensures
        r@ == between_url_of(base@, src@, dst@),
{
    let mut out: Vec<char> = Vec::new();
    push_trimmed_end(&mut out, base, '/');
    push_str(&mut out, "/trains/");
    push_str(&mut out, url_encode(src).as_str());
    push_str(&mut out, "/to/");
    push_str(&mut out, url_encode(dst).as_str());
    string_of(out.as_slice())
}

} // verus!
