//! Cache keys: one namespace prefix per kind of answer, then the query
//! parts separated by colons.
use vstd::prelude::*;
use crate::text::{decimal, push_decimal, push_str, string_of, upper_seq, upper_string};

verus! {

/// Key for the live running status of `train` on `date`.
pub fn live_status(train: &str, date: &str) -> (r: String)
    ensures
        r@ == "live_status:"@ + train@ + ":"@ + date@,
{
    let mut v: Vec<char> = Vec::new();
    push_str(&mut v, "live_status:");
    push_str(&mut v, train);
    push_str(&mut v, ":");
    push_str(&mut v, date);
    string_of(v.as_slice())
}

/// Key for the timetable of `train`.
pub fn schedule(train: &str) -> (r: String)
    ensures
        r@ == "schedule:"@ + train@,
{
    let mut v: Vec<char> = Vec::new();
    push_str(&mut v, "schedule:");
    push_str(&mut v, train);
    string_of(v.as_slice())
}

/// Key for seat availability between two stations on a date, per upstream source.
pub fn availability(src: &str, dst: &str, date: &str, source: &str) -> (r: String)
    ensures
        r@ == "availability:"@ + src@ + ":"@ + dst@ + ":"@ + date@ + ":"@ + source@,
{
    let mut v: Vec<char> = Vec::new();
    push_str(&mut v, "availability:");
    push_str(&mut v, src);
    push_str(&mut v, ":");
    push_str(&mut v, dst);
    push_str(&mut v, ":");
    push_str(&mut v, date);
    push_str(&mut v, ":");
    push_str(&mut v, source);
    string_of(v.as_slice())
}

/// Key for the trains running between two stations.
pub fn trains_between(src: &str, dst: &str) -> (r: String)
    ensures
        r@ == "trains_between:"@ + src@ + ":"@ + dst@,
{
    let mut v: Vec<char> = Vec::new();
    push_str(&mut v, "trains_between:");
    push_str(&mut v, src);
    push_str(&mut v, ":");
    push_str(&mut v, dst);
    string_of(v.as_slice())
}

/// Key for the live board of `station` over the next `hours`.
pub fn live_station(station: &str, hours: &str) -> (r: String)
    ensures
        r@ == "live_station:"@ + station@ + ":"@ + hours@,
{
    let mut v: Vec<char> = Vec::new();
    push_str(&mut v, "live_station:");
    push_str(&mut v, station);
    push_str(&mut v, ":");
    push_str(&mut v, hours);
    string_of(v.as_slice())
}

/// Key for the live board of `station` filtered to trains towards `dest`.
pub fn live_station_to(station: &str, hours: &str, dest: &str) -> (r: String)
    ensures
        r@ == "live_station:"@ + station@ + ":"@ + hours@ + ":to-"@ + dest@,
{
    let mut v: Vec<char> = Vec::new();
    push_str(&mut v, "live_station:");
    push_str(&mut v, station);
    push_str(&mut v, ":");
    push_str(&mut v, hours);
    push_str(&mut v, ":to-");
    push_str(&mut v, dest);
    string_of(v.as_slice())
}

/// Key for the average-delay report of `train`.
pub fn average_delay(train: &str) -> (r: String)
    ensures
        r@ == "average_delay:"@ + train@,
{
    let mut v: Vec<char> = Vec::new();
    push_str(&mut v, "average_delay:");
    push_str(&mut v, train);
    string_of(v.as_slice())
}

/// Key for the heritage-train list of a selection.
pub fn heritage(selection: u8) -> (r: String)
    ensures
        r@ == "heritage:"@ + decimal(selection as nat),
{
    let mut v: Vec<char> = Vec::new();
    push_str(&mut v, "heritage:");
    push_decimal(&mut v, selection as u64);
    string_of(v.as_slice())
}

/// Key for the parcel-special train list.
pub fn parcel() -> (r: String)
    ensures
        r@ == "parcel"@,
{
    let mut v: Vec<char> = Vec::new();
    push_str(&mut v, "parcel");
    string_of(v.as_slice())
}

/// Key for the exception calendar of `train`.
pub fn exceptional(train: &str) -> (r: String)
    ensures
        r@ == "exceptional:"@ + train@,
{
    let mut v: Vec<char> = Vec::new();
    push_str(&mut v, "exceptional:");
    push_str(&mut v, train);
    string_of(v.as_slice())
}

/// Key for the timetable of `station` on `date`.
pub fn station_timetable(station: &str, date: &str) -> (r: String)
    ensures
        r@ == "station_timetable:"@ + station@ + ":"@ + date@,
{
    let mut v: Vec<char> = Vec::new();
    push_str(&mut v, "station_timetable:");
    push_str(&mut v, station);
    push_str(&mut v, ":");
    push_str(&mut v, date);
    string_of(v.as_slice())
}

/// Key for the reservation chart of `train` on `date` from `station`.
pub fn chart(train: &str, date: &str, station: &str) -> (r: String)
    ensures
        r@ == "irctc:chart:"@ + train@ + ":"@ + date@ + ":"@ + station@,
{
    let mut v: Vec<char> = Vec::new();
    push_str(&mut v, "irctc:chart:");
    push_str(&mut v, train);
    push_str(&mut v, ":");
    push_str(&mut v, date);
    push_str(&mut v, ":");
    push_str(&mut v, station);
    string_of(v.as_slice())
}

/// Key for the map position of `train`.
pub fn train_on_map(train: &str) -> (r: String)
    ensures
        r@ == "train_on_map:"@ + train@,
{
    let mut v: Vec<char> = Vec::new();
    push_str(&mut v, "train_on_map:");
    push_str(&mut v, train);
    string_of(v.as_slice())
}

/// Key for the map position of `train` seen from `station` (upper-cased).
pub fn train_on_map_station(train: &str, station: &str) -> (r: String)
    ensures
        r@ == "train_on_map:"@ + train@ + ":"@ + upper_seq(station@),
{
    let mut v: Vec<char> = Vec::new();
    push_str(&mut v, "train_on_map:");
    push_str(&mut v, train);
    push_str(&mut v, ":");
    let up = upper_string(station);
    push_str(&mut v, up.as_str());
    string_of(v.as_slice())
}

/// Key for the journey-station basis of `train` at `station`.
pub fn journey_basis(train: &str, station: &str) -> (r: String)
    ensures
        r@ == "journey_basis:"@ + train@ + ":"@ + station@,
{
    let mut v: Vec<char> = Vec::new();
    push_str(&mut v, "journey_basis:");
    push_str(&mut v, train);
    push_str(&mut v, ":");
    push_str(&mut v, station);
    string_of(v.as_slice())
}

/// Key for the status of a PNR.
pub fn pnr(number: &str) -> (r: String)
    ensures
        r@ == "pnr:"@ + number@,
{
    let mut v: Vec<char> = Vec::new();
    push_str(&mut v, "pnr:");
    push_str(&mut v, number);
    string_of(v.as_slice())
}

/// Key for a station search query.
pub fn search_stations(q: &str) -> (r: String)
    ensures
        r@ == "search:stations:"@ + q@,
{
    let mut v: Vec<char> = Vec::new();
    push_str(&mut v, "search:stations:");
    push_str(&mut v, q);
    string_of(v.as_slice())
}

} // verus!
