//! IndiaRailInfo, a worldwide fallback for running status: its train page.
use vstd::prelude::*;
use vstd::utf8::encode_utf8;
use crate::paytm::{percent_encoded, url_encode};
use crate::text::{push_str, push_trimmed_end, string_of, trim_end_char};

verus! {

/// Label used in errors for this source.
pub const SOURCE: &'static str = "IndiaRailInfo";

/// Label used in metrics and the failover table for this source.
pub const METRIC: &'static str = "indiarailinfo";

/// The train page: `{base}/train/{train}`, the base without trailing `/`.
pub open spec fn live_url_of(base: Seq<char>, train: Seq<char>) -> Seq<char> {
    trim_end_char(base, '/') + "/train/"@ + percent_encoded(encode_utf8(train))
}

/// The train page of `train`.
pub fn live_url(base: &str, train: &str) -> (r: String)
    ensures
        r@ == live_url_of(base@, train@),
{
    let mut out: Vec<char> = Vec::new();
    push_trimmed_end(&mut out, base, '/');
    push_str(&mut out, "/train/");
    push_str(&mut out, url_encode(train).as_str());
    string_of(out.as_slice())
}

} // verus!
