//! Paytm Travel train search: the request URL and the reading of a rejected
//! search.
use vstd::prelude::*;
use crate::dates::{compact_of, date_compact};
use crate::error::AppError;
use vstd::utf8::encode_utf8;
use crate::text::{
    after_first, all_digits, before_first, chars_all_digits, chars_of, chars_range, contains_chars, find_char,
    first_index_of, has_infix, lowercase_of, push_str, push_trimmed_end, string_of, to_lowercase,
    trim_end_char,
};

pub mod normalize;

verus! {

/// Label used in errors and metrics for this source.
pub const SOURCE: &'static str = "Paytm";

/// Path of the search endpoint below the base URL.
pub const SEARCH_PATH: &'static str = "/api/trains/v5/search";

/// Bytes that travel unescaped in a query value: ASCII letters and digits
/// and `-`, `_`, `.`, `~`.
pub open spec fn unreserved(b: u8) -> bool {
    (65 <= b && b <= 90) || (97 <= b && b <= 122) || (48 <= b && b <= 57) || b == 45
        || b == 95 || b == 46 || b == 126
}

/// Upper-case hexadecimal digit for `d` (0 to 15).
pub open spec fn hex_upper(d: int) -> char {
    if d < 10 { ((d + 48) as u8) as char } else { ((d + 55) as u8) as char }
}

/// Percent-encoding of one byte.
pub open spec fn encode_byte(b: u8) -> Seq<char> {
    if unreserved(b) {
        seq![b as char]
    } else {
        seq!['%', hex_upper(b as int / 16), hex_upper(b as int % 16)]
    }
}

/// Percent-encoding of a byte string, byte by byte.
pub open spec fn percent_encoded(bs: Seq<u8>) -> Seq<char>
    decreases bs.len(),
{
    if bs.len() == 0 { Seq::empty() } else { percent_encoded(bs.drop_last()) + encode_byte(bs.last()) }
}

fn hex_digit(d: u8) -> (c: char)
    requires
        d < 16,
    ensures
        c == hex_upper(d as int),
{
    if d < 10 { (d + 48) as char } else { (d + 55) as char }
}

/// Percent-encode every byte of the UTF-8 text except `A-Z a-z 0-9 - _ . ~`.
pub fn urlencode(s: &str) -> (r: String)
    ensures
        r@ == percent_encoded(encode_utf8(s@)),
{
    let bytes = s.as_bytes();
    let mut out: Vec<char> = Vec::new();
    let mut i: usize = 0;
    while i < bytes.len()
        invariant
            0 <= i <= bytes@.len(),
            bytes@ == encode_utf8(s@),
            out@ == percent_encoded(bytes@.take(i as int)),
        decreases bytes@.len() - i,
    {
        let b = bytes[i];
        proof {
            assert(bytes@.take(i + 1).drop_last() =~= bytes@.take(i as int));
        }
        if (65 <= b && b <= 90) || (97 <= b && b <= 122) || (48 <= b && b <= 57) || b == 45
            || b == 95 || b == 46 || b == 126 {
            out.push(b as char);
        } else {
            out.push('%');
            out.push(hex_digit(b / 16));
            out.push(hex_digit(b % 16));
        }
        proof {
            assert(out@ =~= percent_encoded(bytes@.take(i + 1)));
        }
        i = i + 1;
    }
    proof {
        assert(bytes@.take(bytes@.len() as int) =~= bytes@);
    }
    string_of(out.as_slice())
}

/// The search URL for `src` to `dst` on `date`, with the fixed parameters the
/// web app sends.
pub open spec fn search_url_of(base: Seq<char>, src: Seq<char>, dst: Seq<char>, date: Seq<char>) -> Seq<char> {
    trim_end_char(base, '/') + SEARCH_PATH@ + "?departureDate="@ + compact_of(date)
        + "&designVersion=v3&destination="@ + percent_encoded(encode_utf8(dst))
        + "&dimension114=seo-home&isAscOfferEligible=false&isH5=true&is_new_user=null&quota=GN&show_empty=true&source="@
        + percent_encoded(encode_utf8(src)) + "&client=web&deviceIdentifier=Mozilla%20Firefox-151.0.0.0"@
}

/// Full search URL for one query: `src` is the origin station, `dst` the
/// destination, `date` normalised to `YYYYMMDD`.
pub fn search_url(base: &str, src: &str, dst: &str, date: &str) -> (r: String)
    ensures
        r@ == search_url_of(base@, src@, dst@, date@),
{
    let mut out: Vec<char> = Vec::new();
    push_trimmed_end(&mut out, base, '/');
    push_str(&mut out, SEARCH_PATH);
    push_str(&mut out, "?departureDate=");
    let d = date_compact(date);
    push_str(&mut out, d.as_str());
    push_str(&mut out, "&designVersion=v3&destination=");
    let de = urlencode(dst);
    push_str(&mut out, de.as_str());
    push_str(
        &mut out,
        "&dimension114=seo-home&isAscOfferEligible=false&isH5=true&is_new_user=null&quota=GN&show_empty=true&source=",
    );
    let se = urlencode(src);
    push_str(&mut out, se.as_str());
    push_str(&mut out, "&client=web&deviceIdentifier=Mozilla%20Firefox-151.0.0.0");
    string_of(out.as_slice())
}

/// The message of a route and date with no direct train.
pub open spec fn no_trains_message(src: Seq<char>, dst: Seq<char>, date: Seq<char>) -> Seq<char> {
    "No direct trains run between "@ + src + " and "@ + dst + " on "@ + date
        + ". Try a nearby station pair or a different date."@
}

/// Whether a rejected search means that no direct train runs: HTTP 451, or
/// an upstream reason that says so in any letter case.
pub open spec fn means_no_trains(definitive: bool, reason: Seq<char>) -> bool {
    definitive || has_infix(lowercase_of(reason), "no direct trains"@)
}

/// Map a rejected search to an error: a definitive "no direct trains" is a
/// clean `NotFound` naming the route and date; anything else is an outage of
/// the source, reported with `detail`.
pub fn no_trains_or_outage(
    src: &str,
    dst: &str,
    date: &str,
    definitive_no_trains: bool,
    detail: &str,
    reason: &str,
) -> (r: AppError)
    ensures
        means_no_trains(definitive_no_trains, reason@) ==> (r matches AppError::NotFound(m) && m@
            == no_trains_message(src@, dst@, date@)),
        !means_no_trains(definitive_no_trains, reason@) ==> (r matches AppError::SourceUnavailable {
            source,
            reason: why,
        } && source@ == SOURCE@ && why@ == detail@),
{
    let lower = to_lowercase(reason);
    let lv = chars_of(lower.as_str());
    let nv = chars_of("no direct trains");
    if definitive_no_trains || contains_chars(lv.as_slice(), nv.as_slice()) {
        let mut m: Vec<char> = Vec::new();
        push_str(&mut m, "No direct trains run between ");
        push_str(&mut m, src);
        push_str(&mut m, " and ");
        push_str(&mut m, dst);
        push_str(&mut m, " on ");
        push_str(&mut m, date);
        push_str(&mut m, ". Try a nearby station pair or a different date.");
        return AppError::NotFound(string_of(m.as_slice()));
    }
    AppError::source_unavailable(SOURCE, detail)
}

/// Exactly two ASCII digits.
pub open spec fn two_digit_text(s: Seq<char>) -> bool {
    s.len() == 2 && all_digits(s)
}

/// The wall-clock `HH:MM` of an ISO date-time (or of a bare `HH:MM...`):
/// the first two `:`-separated fields after the first `T`, each exactly two
/// digits; empty where they are not.
pub open spec fn iso_time_of(s: Seq<char>) -> Seq<char> {
    let rest = after_first(s, 'T');
    match first_index_of(rest, ':') {
        Some(i) => {
            let h = rest.subrange(0, i);
            let m = before_first(rest.subrange(i + 1, rest.len() as int), ':');
            if two_digit_text(h) && two_digit_text(m) {
                h + seq![':'] + m
            } else {
                Seq::empty()
            }
        },
        None => Seq::empty(),
    }
}

/// Whether `s` is exactly two ASCII digits.
pub fn is_two_digits(s: &[char]) -> (r: bool)
    ensures
        r == two_digit_text(s@),
{
    s.len() == 2 && chars_all_digits(s)
}

/// Extract `HH:MM` from an ISO date-time such as `2026-10-20T10:00:00+00:00`.
pub fn iso_time(iso: &str) -> (r: String)
    ensures
        r@ == iso_time_of(iso@),
{
    let v = chars_of(iso);
    let rest = match find_char(v.as_slice(), 'T') {
        Some(t) => chars_range(v.as_slice(), t + 1, v.len()),
        None => v,
    };
    let c = match find_char(rest.as_slice(), ':') {
        Some(c) => c,
        None => return String::new(),
    };
    let h = chars_range(rest.as_slice(), 0, c);
    let tail = chars_range(rest.as_slice(), c + 1, rest.len());
    let m = match find_char(tail.as_slice(), ':') {
        Some(k) => chars_range(tail.as_slice(), 0, k),
        None => tail,
    };
    if is_two_digits(h.as_slice()) && is_two_digits(m.as_slice()) {
        let mut out = h;
        out.push(':');
        let mut k: usize = 0;
        let ghost start = out@;
        while k < m.len()
            invariant
                0 <= k <= m@.len(),
                out@ == start + m@.subrange(0, k as int),
            decreases m@.len() - k,
        {
            out.push(m[k]);
            k = k + 1;
            proof {
                assert(m@.subrange(0, k as int) =~= m@.subrange(0, k - 1).push(m@[k - 1]));
            }
        }
        proof {
            assert(m@.subrange(0, m@.len() as int) =~= m@);
        }
        return string_of(out.as_slice());
    }
    String::new()
}

/// `urlencoding::encode`: percent-encodes every byte of the UTF-8 text
/// except ASCII letters, digits and `-`, `_`, `.`, `~`, with upper-case hex
/// digits (what its source does, byte by byte).
#[verifier::external_body]
pub(crate) fn url_encode(s: &str) -> (r: String)
    ensures
        r@ == percent_encoded(encode_utf8(s@)),
{
    urlencoding::encode(s).into_owned()
}

} // verus!
