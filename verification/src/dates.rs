//! Calendar dates as the upstream sources write them, normalised to the two
//! shapes the service hands on (`YYYYMMDD` and `YYYY-MM-DD`).
use vstd::prelude::*;
use chrono::Datelike;
use crate::text::{all_digits, is_digit, chars_all_digits, chars_of, push_str, str_eq, string_of, trim, trim_seq};

verus! {

/// A calendar date: its (year, month, day), as chrono read or computed it.
pub struct Date {
    ymd: (i32, u32, u32),
}

impl Date {
    /// The month lies in 1..=12 and the day in 1..=31, as chrono's
    /// `Datelike::month` and `Datelike::day` document for every date.
    #[verifier::type_invariant]
    spec fn in_calendar(self) -> bool {
        1 <= self.ymd.1 <= 12 && 1 <= self.ymd.2 <= 31
    }
}

impl View for Date {
    type V = (i32, u32, u32);

    closed spec fn view(&self) -> (i32, u32, u32) {
        self.ymd
    }
}

/// The (year, month, day) that `NaiveDate::parse_from_str` reads from `text`
/// with the format `fmt`, or `None` where it rejects the text.
pub uninterp spec fn date_parse_of(text: Seq<char>, fmt: Seq<char>) -> Option<(i32, u32, u32)>;

/// The date part that `NaiveDateTime::parse_from_str` reads from `text` with
/// the format `fmt`, or `None` where it rejects the text.
pub uninterp spec fn datetime_parse_of(text: Seq<char>, fmt: Seq<char>) -> Option<(i32, u32, u32)>;

/// The decimal digit `n` (below ten) as a character.
pub open spec fn digit_char(n: nat) -> char {
    ((48 + n) as u8) as char
}

/// The decimal digits of `n`, without leading zeros (`0` for zero).
pub open spec fn dec_digits(n: nat) -> Seq<char>
    decreases n,
{
    if n < 10 {
        seq![digit_char(n)]
    } else {
        dec_digits(n / 10).push(digit_char(n % 10))
    }
}

/// `s` with zeros put in front until it is at least `w` long.
pub open spec fn zero_pad(s: Seq<char>, w: nat) -> Seq<char>
    decreases w - s.len(),
{
    if s.len() >= w {
        s
    } else {
        zero_pad(seq!['0'] + s, w)
    }
}

/// A year as chrono writes it for `%Y` (and in `Display`): four digits for
/// years 0 to 9999; outside that range an explicit sign and at least four
/// digits.
pub open spec fn year_text(y: int) -> Seq<char> {
    if 0 <= y <= 9999 {
        zero_pad(dec_digits(y as nat), 4)
    } else if y < 0 {
        seq!['-'] + zero_pad(dec_digits((-y) as nat), 4)
    } else {
        seq!['+'] + zero_pad(dec_digits(y as nat), 4)
    }
}

/// A month or day as two digits (`%m`, `%d`).
pub open spec fn two_digits(n: nat) -> Seq<char> {
    zero_pad(dec_digits(n), 2)
}

/// The English abbreviation of month `m` (`%b`).
pub open spec fn short_month(m: u32) -> Seq<char> {
    if m == 1 { "Jan"@ } else if m == 2 { "Feb"@ } else if m == 3 { "Mar"@ } else if m == 4 { "Apr"@ }
    else if m == 5 { "May"@ } else if m == 6 { "Jun"@ } else if m == 7 { "Jul"@ } else if m == 8 { "Aug"@ }
    else if m == 9 { "Sep"@ } else if m == 10 { "Oct"@ } else if m == 11 { "Nov"@ } else { "Dec"@ }
}

/// What `NaiveDate::to_string()` writes for a date: `%Y-%m-%d`.
pub open spec fn date_display_of(ymd: (i32, u32, u32)) -> Seq<char> {
    year_text(ymd.0 as int) + "-"@ + two_digits(ymd.1 as nat) + "-"@ + two_digits(ymd.2 as nat)
}

/// What `NaiveDate::format(fmt).to_string()` writes for a date in one of
/// the written layouts: `YYYYMMDD`, `YYYY-MM-DD` or `DD-Mon-YYYY`.
pub open spec fn date_format_of(ymd: (i32, u32, u32), fmt: Seq<char>) -> Seq<char>
    recommends
        written_layout(fmt),
{
    if fmt == "%Y%m%d"@ {
        year_text(ymd.0 as int) + two_digits(ymd.1 as nat) + two_digits(ymd.2 as nat)
    } else if fmt == "%d-%b-%Y"@ {
        two_digits(ymd.2 as nat) + "-"@ + short_month(ymd.1) + "-"@ + year_text(ymd.0 as int)
    } else {
        date_display_of(ymd)
    }
}

/// `chrono::NaiveDate::parse_from_str(text, fmt)`: the date read from `text`,
/// `None` where chrono rejects it. The result is named, not described.
#[verifier::external_body]
fn parse_with(text: &str, fmt: &str) -> (r: Option<Date>)
    ensures
        r is Some <==> date_parse_of(text@, fmt@) is Some,
        r matches Some(d) ==> date_parse_of(text@, fmt@) == Some(d@),
{
    match chrono::NaiveDate::parse_from_str(text, fmt) {
        Ok(d) => Some(Date { ymd: (d.year(), d.month(), d.day()) }),
        Err(_) => None,
    }
}

/// `chrono::NaiveDateTime::parse_from_str(text, fmt)` followed by `.date()`:
/// the date part read from `text`, `None` where chrono rejects it.
#[verifier::external_body]
fn parse_datetime_with(text: &str, fmt: &str) -> (r: Option<Date>)
    ensures
        r is Some <==> datetime_parse_of(text@, fmt@) is Some,
        r matches Some(d) ==> datetime_parse_of(text@, fmt@) == Some(d@),
{
    match chrono::NaiveDateTime::parse_from_str(text, fmt) {
        Ok(t) => {
            let d = t.date();
            Some(Date { ymd: (d.year(), d.month(), d.day()) })
        },
        Err(_) => None,
    }
}

/// A date of the years 0 to 9999 is written as eight digits in `YYYYMMDD`,
/// and as ten characters, digits but for the dashes after the year and the
/// month, in `YYYY-MM-DD`.
pub proof fn lemma_written_shape(ymd: (i32, u32, u32))
    requires
        0 <= ymd.0 <= 9999,
        1 <= ymd.1 <= 12,
        1 <= ymd.2 <= 31,
    ensures
        date_format_of(ymd, "%Y%m%d"@).len() == 8,
        all_digits(date_format_of(ymd, "%Y%m%d"@)),
        date_display_of(ymd).len() == 10,
        date_display_of(ymd)[4] == '-' && date_display_of(ymd)[7] == '-',
        forall|i: int| 0 <= i < 10 && i != 4 && i != 7 ==> is_digit(#[trigger] date_display_of(ymd)[i]),
{
    reveal_strlit("%Y%m%d");
    reveal_strlit("-");
    let y = year_text(ymd.0 as int);
    let m = two_digits(ymd.1 as nat);
    let d = two_digits(ymd.2 as nat);
    lemma_padded_digits(ymd.0 as nat, 4);
    lemma_padded_digits(ymd.1 as nat, 2);
    lemma_padded_digits(ymd.2 as nat, 2);
    let c = y + m + d;
    assert(date_format_of(ymd, "%Y%m%d"@) == c);
    assert forall|i: int| 0 <= i < c.len() implies is_digit(#[trigger] c[i]) by {
        if i < 4 {
            assert(c[i] == y[i]);
        } else if i < 6 {
            assert(c[i] == m[i - 4]);
        } else {
            assert(c[i] == d[i - 6]);
        }
    }
    let t = y + "-"@ + m + "-"@ + d;
    assert(date_display_of(ymd) == t);
    assert forall|i: int| 0 <= i < 10 && i != 4 && i != 7 implies is_digit(#[trigger] t[i]) by {
        if i < 4 {
            assert(t[i] == y[i]);
        } else if i < 7 {
            assert(t[i] == m[i - 5]);
        } else {
            assert(t[i] == d[i - 8]);
        }
    }
}

/// Below `10^w`, `n` padded to `w` places is exactly `w` digits.
proof fn lemma_padded_digits(n: nat, w: nat)
    requires
        1 <= w <= 4,
        n < (if w == 1 { 10nat } else if w == 2 { 100nat } else if w == 3 { 1000nat } else { 10000nat }),
    ensures
        zero_pad(dec_digits(n), w).len() == w,
        all_digits(zero_pad(dec_digits(n), w)),
{
    lemma_dec_digits(n);
    lemma_zero_pad(dec_digits(n), w);
}

/// `dec_digits(n)` is digits only, at least one, and no more than needed.
proof fn lemma_dec_digits(n: nat)
    ensures
        all_digits(dec_digits(n)),
        dec_digits(n).len() >= 1,
        n < 10 ==> dec_digits(n).len() == 1,
        n < 100 ==> dec_digits(n).len() <= 2,
        n < 1000 ==> dec_digits(n).len() <= 3,
        n < 10000 ==> dec_digits(n).len() <= 4,
    decreases n,
{
    if n >= 10 {
        lemma_dec_digits(n / 10);
        let r = dec_digits(n);
        assert(r == dec_digits(n / 10).push(digit_char(n % 10)));
        assert(digit_char(n % 10) == ((48 + n % 10) as u8) as char);
        assert forall|i: int| 0 <= i < r.len() implies is_digit(#[trigger] r[i]) by {
            if i < r.len() - 1 {
                assert(r[i] == dec_digits(n / 10)[i]);
            } else {
                assert(r[i] == digit_char(n % 10));
                assert(48 <= 48 + n % 10 <= 57);
            }
        }
    } else {
        assert(48 <= 48 + n <= 57);
    }
}

/// Padding digits with zeros keeps them digits and makes them at least `w`
/// long; at most `w` digits come out exactly `w`.
proof fn lemma_zero_pad(s: Seq<char>, w: nat)
    requires
        all_digits(s),
    ensures
        all_digits(zero_pad(s, w)),
        s.len() <= w ==> zero_pad(s, w).len() == w,
    decreases w - s.len(),
{
    if s.len() < w {
        let t = seq!['0'] + s;
        assert forall|i: int| 0 <= i < t.len() implies is_digit(#[trigger] t[i]) by {
            if i > 0 {
                assert(t[i] == s[i - 1]);
            }
        }
        lemma_zero_pad(t, w);
    }
}

/// One of the fixed layouts dates are written in: `YYYYMMDD`, `YYYY-MM-DD`
/// and NTES' `DD-Mon-YYYY`.
pub open spec fn written_layout(fmt: Seq<char>) -> bool {
    fmt == "%Y%m%d"@ || fmt == "%Y-%m-%d"@ || fmt == "%d-%b-%Y"@
}

/// The decimal digits of `n`.
fn dec_chars(n: u64) -> (r: Vec<char>)
    ensures
        r@ == dec_digits(n as nat),
    decreases n,
{
    let d = ((48 + n % 10) as u8) as char;
    if n < 10 {
        let mut v: Vec<char> = Vec::new();
        v.push(d);
        proof {
            assert(v@ =~= seq![digit_char(n as nat)]);
        }
        v
    } else {
        let mut v = dec_chars(n / 10);
        v.push(d);
        v
    }
}

/// `s` with zeros in front until it is at least `w` long.
fn zero_padded(s: Vec<char>, w: usize) -> (r: Vec<char>)
    ensures
        r@ == zero_pad(s@, w as nat),
{
    let mut v = s;
    let ghost orig = v@;
    while v.len() < w
        invariant
            zero_pad(v@, w as nat) == zero_pad(orig, w as nat),
        decreases w - v@.len(),
    {
        let ghost before = v@;
        v.insert(0, '0');
        proof {
            assert(v@ =~= seq!['0'] + before);
        }
    }
    v
}

/// The year as chrono's `%Y` writes it.
fn year_chars(y: i32) -> (r: Vec<char>)
    ensures
        r@ == year_text(y as int),
{
    if 0 <= y && y <= 9999 {
        zero_padded(dec_chars(y as u64), 4)
    } else {
        let neg = y < 0;
        let a: u64 = if neg { (0i64 - y as i64) as u64 } else { y as u64 };
        let digits = zero_padded(dec_chars(a), 4);
        let mut v: Vec<char> = Vec::new();
        v.push(if neg { '-' } else { '+' });
        let ghost sign = v@;
        let mut i: usize = 0;
        while i < digits.len()
            invariant
                0 <= i <= digits@.len(),
                v@ == sign + digits@.take(i as int),
            decreases digits@.len() - i,
        {
            v.push(digits[i]);
            i = i + 1;
            proof {
                assert(digits@.take(i as int) =~= digits@.take(i - 1).push(digits@[i - 1]));
            }
        }
        proof {
            assert(digits@.take(digits@.len() as int) =~= digits@);
            if neg {
                assert(sign =~= seq!['-']);
            } else {
                assert(sign =~= seq!['+']);
            }
        }
        v
    }
}

/// `out` followed by `t`.
fn append_chars(out: &mut Vec<char>, t: Vec<char>)
    ensures
        final(out)@ == old(out)@ + t@,
{
    let ghost start = out@;
    let mut i: usize = 0;
    while i < t.len()
        invariant
            0 <= i <= t@.len(),
            out@ == start + t@.take(i as int),
        decreases t@.len() - i,
    {
        out.push(t[i]);
        i = i + 1;
        proof {
            assert(t@.take(i as int) =~= t@.take(i - 1).push(t@[i - 1]));
        }
    }
    proof {
        assert(t@.take(t@.len() as int) =~= t@);
    }
}

/// The English abbreviation of a month.
fn month_abbrev(m: u32) -> (r: &'static str)
    ensures
        r@ == short_month(m),
{
    if m == 1 { "Jan" } else if m == 2 { "Feb" } else if m == 3 { "Mar" } else if m == 4 { "Apr" }
    else if m == 5 { "May" } else if m == 6 { "Jun" } else if m == 7 { "Jul" } else if m == 8 { "Aug" }
    else if m == 9 { "Sep" } else if m == 10 { "Oct" } else if m == 11 { "Nov" } else { "Dec" }
}

/// The date written in one of the fixed layouts, as chrono's
/// `NaiveDate::format(fmt).to_string()` writes it.
fn format_with(d: &Date, fmt: &str) -> (r: String)
    requires
        written_layout(fmt@),
    ensures
        r@ == date_format_of(d@, fmt@),
{
    proof {
        use_type_invariant(d);
    }
    let (y, m, day) = d.ymd;
    let yv = year_chars(y);
    let mv = zero_padded(dec_chars(m as u64), 2);
    let dv = zero_padded(dec_chars(day as u64), 2);
    let mut out: Vec<char> = Vec::new();
    if str_eq(fmt, "%Y%m%d") {
        append_chars(&mut out, yv);
        append_chars(&mut out, mv);
        append_chars(&mut out, dv);
    } else if str_eq(fmt, "%d-%b-%Y") {
        append_chars(&mut out, dv);
        push_str(&mut out, "-");
        push_str(&mut out, month_abbrev(m));
        push_str(&mut out, "-");
        append_chars(&mut out, yv);
    } else {
        append_chars(&mut out, yv);
        push_str(&mut out, "-");
        append_chars(&mut out, mv);
        push_str(&mut out, "-");
        append_chars(&mut out, dv);
    }
    string_of(out.as_slice())
}

/// The date as `NaiveDate::to_string()` writes it: `YYYY-MM-DD`.
fn display_of(d: &Date) -> (r: String)
    ensures
        r@ == date_display_of(d@),
{
    proof {
        reveal_strlit("%Y-%m-%d");
        reveal_strlit("%Y%m%d");
        reveal_strlit("%d-%b-%Y");
        assert("%Y-%m-%d"@.len() != "%Y%m%d"@.len());
        assert("%Y-%m-%d"@[1] != "%d-%b-%Y"@[1]);
    }
    format_with(d, "%Y-%m-%d")
}

/// The calendar date (UTC) of the instant `secs` seconds after the Unix
/// epoch, as `DateTime::from_timestamp(secs, 0)` gives it; `None` where
/// chrono cannot represent that instant.
pub uninterp spec fn utc_ymd_of(secs: i64) -> Option<(i32, u32, u32)>;

/// `chrono::DateTime::from_timestamp(secs, 0)` followed by `.date_naive()`:
/// the UTC calendar date of the instant, `None` where it is out of range.
#[verifier::external_body]
fn utc_date_at(secs: i64) -> (r: Option<Date>)
    ensures
        r is Some <==> utc_ymd_of(secs) is Some,
        r matches Some(d) ==> utc_ymd_of(secs) == Some(d@),
{
    match chrono::DateTime::from_timestamp(secs, 0) {
        Some(t) => {
            let d = t.date_naive();
            Some(Date { ymd: (d.year(), d.month(), d.day()) })
        },
        None => None,
    }
}

/// India's offset from UTC: five and a half hours, in seconds.
pub const IST_OFFSET_SECS: i64 = 19800;

/// The calendar date in India (UTC+05:30) at the instant `utc_secs` seconds
/// after the Unix epoch: the UTC date half past five hours later.
pub open spec fn ist_ymd_of(utc_secs: i64) -> Option<(i32, u32, u32)> {
    if utc_secs + IST_OFFSET_SECS <= i64::MAX {
        utc_ymd_of((utc_secs + IST_OFFSET_SECS) as i64)
    } else {
        None
    }
}

/// The date in India at the instant `utc_secs` seconds after the Unix epoch;
/// `None` where the instant lies outside what chrono can represent.
pub fn today_ist_date_at(utc_secs: i64) -> (r: Option<Date>)
    ensures
        r is Some <==> ist_ymd_of(utc_secs) is Some,
        r matches Some(d) ==> ist_ymd_of(utc_secs) == Some(d@),
{
    if utc_secs > i64::MAX - IST_OFFSET_SECS {
        return None;
    }
    utc_date_at(utc_secs + IST_OFFSET_SECS)
}

/// The date in India at the instant `utc_secs`, as `YYYY-MM-DD`.
pub fn today_ist_at(utc_secs: i64) -> (r: Option<String>)
    ensures
        match ist_ymd_of(utc_secs) {
            Some(ymd) => r matches Some(t) && t@ == date_display_of(ymd),
            None => r is None,
        },
{
    match today_ist_date_at(utc_secs) {
        Some(d) => Some(display_of(&d)),
        None => None,
    }
}

/// The date in India at the instant `utc_secs`, as NTES writes it
/// (`14-Aug-2026`).
pub fn today_ist_ntes_at(utc_secs: i64) -> (r: Option<String>)
    ensures
        match ist_ymd_of(utc_secs) {
            Some(ymd) => r matches Some(t) && t@ == date_format_of(ymd, "%d-%b-%Y"@),
            None => r is None,
        },
{
    match today_ist_date_at(utc_secs) {
        Some(d) => Some(format_with(&d, "%d-%b-%Y")),
        None => None,
    }
}

/// The first of the four accepted layouts that reads `s`:
/// `YYYY-MM-DD`, `YYYYMMDD`, `DD-MM-YYYY`, `DD/MM/YYYY`.
pub open spec fn first_layout(s: Seq<char>) -> Option<(i32, u32, u32)> {
    if date_parse_of(s, "%Y-%m-%d"@) is Some {
        date_parse_of(s, "%Y-%m-%d"@)
    } else if date_parse_of(s, "%Y%m%d"@) is Some {
        date_parse_of(s, "%Y%m%d"@)
    } else if date_parse_of(s, "%d-%m-%Y"@) is Some {
        date_parse_of(s, "%d-%m-%Y"@)
    } else {
        date_parse_of(s, "%d/%m/%Y"@)
    }
}

/// The date `parse_date` reads from `s`: the first layout that reads the
/// trimmed text.
pub open spec fn parsed_date(s: Seq<char>) -> Option<(i32, u32, u32)> {
    first_layout(trim_seq(s))
}

/// Parse a date in any of the accepted layouts, after trimming whitespace.
pub fn parse_date(s: &str) -> (r: Option<Date>)
    ensures
        r is Some <==> parsed_date(s@) is Some,
        r matches Some(d) ==> parsed_date(s@) == Some(d@),
{
    let t = trim(s);
    let a = parse_with(t, "%Y-%m-%d");
    if a.is_some() {
        return a;
    }
    let b = parse_with(t, "%Y%m%d");
    if b.is_some() {
        return b;
    }
    let c = parse_with(t, "%d-%m-%Y");
    if c.is_some() {
        return c;
    }
    parse_with(t, "%d/%m/%Y")
}

/// Whether `s` reads as a date in one of the accepted layouts.
pub fn is_valid_date(s: &str) -> (r: bool)
    ensures
        r == parsed_date(s@) is Some,
{
    parse_date(s).is_some()
}

/// `s` as `YYYYMMDD` where it reads as a date; the trimmed text otherwise.
pub open spec fn compact_of(s: Seq<char>) -> Seq<char> {
    match parsed_date(s) {
        Some(d) => date_format_of(d, "%Y%m%d"@),
        None => trim_seq(s),
    }
}

/// `s` as `YYYY-MM-DD` where it reads as a date; the trimmed text otherwise.
pub open spec fn iso_of(s: Seq<char>) -> Seq<char> {
    match parsed_date(s) {
        Some(d) => date_format_of(d, "%Y-%m-%d"@),
        None => trim_seq(s),
    }
}

/// Normalise a date to `YYYYMMDD`; text that is no date passes through
/// trimmed.
pub fn date_compact(s: &str) -> (r: String)
    ensures
        r@ == compact_of(s@),
{
    match parse_date(s) {
        Some(d) => format_with(&d, "%Y%m%d"),
        None => trim(s).to_owned(),
    }
}

/// Normalise a date to `YYYY-MM-DD`; text that is no date passes through
/// trimmed.
pub fn date_iso(s: &str) -> (r: String)
    ensures
        r@ == iso_of(s@),
{
    match parse_date(s) {
        Some(d) => format_with(&d, "%Y-%m-%d"),
        None => trim(s).to_owned(),
    }
}

/// What `normalize_ntes_date` gives: NTES' `DD-Mon-YYYY`, then an
/// all-digit `YYYYMMDD`, then `YYYY-MM-DD`, each rewritten as `YYYY-MM-DD`;
/// anything else unchanged.
pub open spec fn ntes_date_of(s: Seq<char>) -> Seq<char> {
    if date_parse_of(s, "%d-%b-%Y"@) is Some {
        date_format_of(date_parse_of(s, "%d-%b-%Y"@).unwrap(), "%Y-%m-%d"@)
    } else if s.len() == 8 && all_digits(s) && date_parse_of(s, "%Y%m%d"@) is Some {
        date_format_of(date_parse_of(s, "%Y%m%d"@).unwrap(), "%Y-%m-%d"@)
    } else if date_parse_of(s, "%Y-%m-%d"@) is Some {
        date_format_of(date_parse_of(s, "%Y-%m-%d"@).unwrap(), "%Y-%m-%d"@)
    } else {
        s
    }
}

/// Normalise the dates NTES writes to `YYYY-MM-DD`.
pub fn normalize_ntes_date(s: &str) -> (r: String)
    ensures
        r@ == ntes_date_of(s@),
{
    if let Some(d) = parse_with(s, "%d-%b-%Y") {
        return format_with(&d, "%Y-%m-%d");
    }
    let v = chars_of(s);
    if v.len() == 8 && chars_all_digits(v.as_slice()) {
        if let Some(d) = parse_with(s, "%Y%m%d") {
            return format_with(&d, "%Y-%m-%d");
        }
    }
    if let Some(d) = parse_with(s, "%Y-%m-%d") {
        return format_with(&d, "%Y-%m-%d");
    }
    s.to_owned()
}

/// The layouts a PNR answer writes its journey date in, tried in order.
pub open spec fn pnr_layout(i: int) -> Seq<char> {
    if i == 0 {
        "%Y-%m-%d"@
    } else if i == 1 {
        "%d-%m-%Y"@
    } else if i == 2 {
        "%d/%m/%Y"@
    } else if i == 3 {
        "%m/%d/%Y"@
    } else if i == 4 {
        "%b %d, %Y %I:%M:%S %p"@
    } else if i == 5 {
        "%b %d, %Y %I:%M %p"@
    } else {
        "%b %d, %Y"@
    }
}

/// The date of a PNR answer, trying layouts from the `i`-th on: for each
/// layout first as a date-time, then as a bare date.
pub open spec fn pnr_date_from(s: Seq<char>, i: int) -> Option<(i32, u32, u32)>
    decreases 7 - i,
{
    if i >= 7 || i < 0 {
        None
    } else if datetime_parse_of(s, pnr_layout(i)) is Some {
        datetime_parse_of(s, pnr_layout(i))
    } else if date_parse_of(s, pnr_layout(i)) is Some {
        date_parse_of(s, pnr_layout(i))
    } else {
        pnr_date_from(s, i + 1)
    }
}

/// What `normalize_pnr_date` gives: the date of the trimmed text written as
/// `NaiveDate::to_string()` writes it, or the trimmed text itself.
pub open spec fn pnr_date_of(s: Seq<char>) -> Seq<char> {
    match pnr_date_from(trim_seq(s), 0) {
        Some(d) => date_display_of(d),
        None => trim_seq(s),
    }
}

/// Normalise the journey date of a PNR answer to `YYYY-MM-DD`.
pub fn normalize_pnr_date(s: &str) -> (r: String)
    ensures
        r@ == pnr_date_of(s@),
{
    let t = trim(s);
    let layouts: [&str; 7] = [
        "%Y-%m-%d",
        "%d-%m-%Y",
        "%d/%m/%Y",
        "%m/%d/%Y",
        "%b %d, %Y %I:%M:%S %p",
        "%b %d, %Y %I:%M %p",
        "%b %d, %Y",
    ];
    let mut i: usize = 0;
    while i < 7
        invariant
            0 <= i <= 7,
            t@ == trim_seq(s@),
            forall|k: int| 0 <= k < 7 ==> (#[trigger] layouts@[k])@ == pnr_layout(k),
            pnr_date_from(t@, 0) == pnr_date_from(t@, i as int),
        decreases 7 - i,
    {
        let f = layouts[i];
        if let Some(d) = parse_datetime_with(t, f) {
            return display_of(&d);
        }
        if let Some(d) = parse_with(t, f) {
            return display_of(&d);
        }
        i = i + 1;
    }
    t.to_owned()
}

} // verus!
