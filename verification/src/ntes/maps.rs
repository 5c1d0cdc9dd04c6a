//! The NTES pages that carry their data as JavaScript arrays or as option
//! lists: the journey stations of a train, and the route and the position of
//! a train on the map.
use vstd::prelude::*;
use crate::ntes::boards::{same_ignoring_case, strip_tags, strip_tags_of, text_or_empty, TAG_PATTERN};
use crate::ntes::{pattern_compiles, group_of, groups_of, match1_of, match_one, opt_views, or_empty, regex_group_of, regex_groups_of, regex_valid};
use crate::text::{
    chars_of, chars_range, find_char, find_from, first_index_of, lemma_occurrence_from, lower_seq, occurrence_from,
    parse_unsigned, parsed_unsigned, push_trimmed_end, split_on, split_str, str_eq, string_of, string_of_range,
    string_views, trim, trim_end_char, trim_seq,
};

verus! {

/// The `i`-th text, empty where there is none.
pub open spec fn nth_or_empty(v: Seq<Seq<char>>, i: int) -> Seq<char> {
    if 0 <= i < v.len() {
        v[i]
    } else {
        Seq::empty()
    }
}

/// The `i`-th text, empty where there is none.
fn nth_text(v: &Vec<String>, i: usize) -> (r: String)
    ensures
        r@ == nth_or_empty(string_views(v@), i as int),
{
    if i < v.len() {
        v[i].clone()
    } else {
        String::new()
    }
}

/// The `i`-th match's text, empty where there is none.
pub open spec fn nth_match(v: Seq<Option<Seq<char>>>, i: int) -> Seq<char> {
    if 0 <= i < v.len() {
        or_empty(v[i])
    } else {
        Seq::empty()
    }
}

/// The `i`-th match's text, empty where there is none.
fn nth_match_text(v: &Vec<Option<String>>, i: usize) -> (r: String)
    ensures
        r@ == nth_match(opt_views(v@), i as int),
{
    if i < v.len() {
        match &v[i] {
            Some(t) => t.clone(),
            None => String::new(),
        }
    } else {
        String::new()
    }
}

/// `s` without any leading `c`.
pub open spec fn trim_start_char(s: Seq<char>, c: char) -> Seq<char>
    decreases s.len(),
{
    if s.len() > 0 && s[0] == c {
        trim_start_char(s.drop_first(), c)
    } else {
        s
    }
}

/// `s` without the double quotes at either end (`trim_matches('"')`).
pub open spec fn unquoted(s: Seq<char>) -> Seq<char> {
    trim_start_char(trim_end_char(s, '"'), '"')
}

/// `s` without the double quotes at either end.
fn unquote(s: &str) -> (r: String)
    ensures
        r@ == unquoted(s@),
{
    let mut v: Vec<char> = Vec::new();
    push_trimmed_end(&mut v, s, '"');
    let n = v.len();
    let mut k: usize = 0;
    proof {
        assert(v@.subrange(0, n as int) =~= v@);
    }
    while k < n && v[k] == '"'
        invariant
            0 <= k <= n,
            n == v@.len(),
            v@ == trim_end_char(s@, '"'),
            trim_start_char(v@, '"') == trim_start_char(v@.subrange(k as int, n as int), '"'),
        decreases n - k,
    {
        proof {
            assert(v@.subrange(k as int, n as int).drop_first() =~= v@.subrange(k + 1, n as int));
        }
        k = k + 1;
    }
    string_of_range(v.as_slice(), k, n)
}

/// A JavaScript array literal of strings (`["NDLS","GZB"]`) read as its
/// entries: the trimmed literal without its brackets, split at commas, each
/// entry trimmed, unquoted and trimmed again; no entries where what is
/// inside the brackets is blank. Empty entries stay: they are placeholders.
pub open spec fn js_array_of(literal: Seq<char>) -> Seq<Seq<char>> {
    let t = trim_seq(literal);
    let inner = if t.len() >= 2 && t[0] == '[' && t.last() == ']' {
        t.subrange(1, t.len() - 1)
    } else {
        t
    };
    if trim_seq(inner).len() == 0 {
        Seq::empty()
    } else {
        split_on(inner, ","@).map_values(|p: Seq<char>| trim_seq(unquoted(trim_seq(p))))
    }
}

/// The entries of a JavaScript array literal of strings.
pub fn js_array(literal: &str) -> (r: Vec<String>)
    ensures
        string_views(r@) == js_array_of(literal@),
{
    let t = chars_of(trim(literal));
    let n = t.len();
    let inner = if n >= 2 && t[0] == '[' && t[n - 1] == ']' {
        chars_range(t.as_slice(), 1, n - 1)
    } else {
        chars_range(t.as_slice(), 0, n)
    };
    proof {
        assert(t@.subrange(0, n as int) =~= t@);
    }
    let inner_text = string_of(inner.as_slice());
    if trim(inner_text.as_str()).is_empty() {
        return Vec::new();
    }
    let comma = chars_of(",");
    proof {
        reveal_strlit(",");
    }
    let parts = split_str(inner.as_slice(), comma.as_slice());
    let mut out: Vec<String> = Vec::new();
    let mut i: usize = 0;
    while i < parts.len()
        invariant
            0 <= i <= parts@.len(),
            out@.len() == i,
            forall|k: int| 0 <= k < i ==> (#[trigger] out@[k])@ == trim_seq(unquoted(trim_seq(parts@[k]@))),
        decreases parts@.len() - i,
    {
        let u = unquote(trim(parts[i].as_str()));
        out.push(trim(u.as_str()).to_owned());
        i = i + 1;
    }
    proof {
        assert(string_views(out@) =~= split_on(inner@, ","@).map_values(
            |p: Seq<char>| trim_seq(unquoted(trim_seq(p))),
        ));
    }
    out
}

/// The two sides of the first `c`, or none where there is none.
pub open spec fn split_once_char(s: Seq<char>, c: char) -> Option<(Seq<char>, Seq<char>)> {
    match first_index_of(s, c) {
        Some(i) => Some((s.subrange(0, i), s.subrange(i + 1, s.len() as int))),
        None => None,
    }
}

/// The two sides of the first `c`.
fn split_once_at(s: &str, c: char) -> (r: Option<(String, String)>)
    ensures
        match r {
            Some((a, b)) => split_once_char(s@, c) == Some((a@, b@)),
            None => split_once_char(s@, c) is None,
        },
{
    let v = chars_of(s);
    let n = v.len();
    match find_char(v.as_slice(), c) {
        Some(k) => {
            assert(k < n);
            Some((string_of_range(v.as_slice(), 0, k), string_of_range(v.as_slice(), k + 1, n)))
        },
        None => None,
    }
}

// ---------------------------------------------------------- journey stations

/// The train number of the station-list page.
pub const FSL_TRAIN_PATTERN: &'static str = r#"name="trainNo"[^>]*value="([^"]*)""#;

/// One journey station: `arrDays#depDays` title, `CODE#dayChange#seq` value
/// and the `NAME - CODE` text.
pub const FSL_OPTION_PATTERN: &'static str = r#"<option title="([^"]*)" value="([^"]*)"[^>]*>\s*([^<]+?)\s*</option>"#;

/// The station list.
pub const FSL_OPTION_BLOCK_PATTERN: &'static str = r#"<select[^>]*name="jStation"[^>]*>([\s\S]*?)</select>"#;

/// Every pattern of the station-list page compiles.
pub open spec fn journey_patterns_valid() -> bool {
    &&& regex_valid(FSL_TRAIN_PATTERN@)
    &&& regex_valid(FSL_OPTION_PATTERN@)
    &&& regex_valid(FSL_OPTION_BLOCK_PATTERN@)
}

/// Whether every pattern behind `journey_patterns_valid` compiles: the condition
/// the parsers' contracts rest on, checked at run time.
pub fn journey_patterns_ok() -> (r: bool)
    ensures
        r == journey_patterns_valid(),
{
    pattern_compiles(FSL_TRAIN_PATTERN)
        && pattern_compiles(FSL_OPTION_PATTERN)
        && pattern_compiles(FSL_OPTION_BLOCK_PATTERN)
}

/// A station of a train's journey.
#[derive(Debug, Clone)]
pub struct JourneyStation {
    pub code: String,
    pub name: String,
    /// The station's place in the run.
    pub seq: usize,
    /// The day changes on the way here.
    pub day_change: bool,
    pub arrival_days: String,
    pub departure_days: String,
}

/// A journey station as plain values.
pub struct JourneyStationV {
    pub code: Seq<char>,
    pub name: Seq<char>,
    pub seq: usize,
    pub day_change: bool,
    pub arrival_days: Seq<char>,
    pub departure_days: Seq<char>,
}

impl View for JourneyStation {
    type V = JourneyStationV;

    open spec fn view(&self) -> JourneyStationV {
        JourneyStationV {
            code: self.code@,
            name: self.name@,
            seq: self.seq,
            day_change: self.day_change,
            arrival_days: self.arrival_days@,
            departure_days: self.departure_days@,
        }
    }
}

/// Journey stations as plain values.
pub open spec fn journey_views(v: Seq<JourneyStation>) -> Seq<JourneyStationV> {
    v.map_values(|t: JourneyStation| t@)
}

/// A train's journey stations.
#[derive(Debug, Clone)]
pub struct JourneyStations {
    pub train_no: String,
    pub list: Vec<JourneyStation>,
}

/// A train's journey stations as plain values.
pub struct JourneyStationsV {
    pub train_no: Seq<char>,
    pub list: Seq<JourneyStationV>,
}

impl View for JourneyStations {
    type V = JourneyStationsV;

    open spec fn view(&self) -> JourneyStationsV {
        JourneyStationsV { train_no: self.train_no@, list: journey_views(self.list@) }
    }
}

/// One option of the station list: the code is the value's first `#` part;
/// the name is the text before ` - ` (or all of it), trimmed; the place is
/// the third part as a `usize` (else 0); the day changes where the second
/// part is `true`; the days are the trimmed sides of the title's first `#`
/// (both empty without one).
pub open spec fn journey_station_of(title: Seq<char>, value: Seq<char>, text: Seq<char>) -> JourneyStationV {
    let parts = split_on(value, "#"@);
    let days = match split_once_char(title, '#') {
        Some((a, d)) => (trim_seq(a), trim_seq(d)),
        None => (Seq::empty(), Seq::empty()),
    };
    JourneyStationV {
        code: nth_or_empty(parts, 0),
        name: match occurrence_from(text, " - "@, 0) {
            Some(k) => trim_seq(text.take(k)),
            None => trim_seq(text),
        },
        seq: if parts.len() > 2 {
            match parsed_unsigned(trim_seq(parts[2]), usize::MAX as nat) {
                Some(n) => n as usize,
                None => 0,
            }
        } else {
            0
        },
        day_change: parts.len() > 1 && trim_seq(parts[1]) == "true"@,
        arrival_days: days.0,
        departure_days: days.1,
    }
}

/// The station-list page: the train number and the options of the station
/// list (at least one).
pub open spec fn journey_stations_of(html: Seq<char>) -> Option<JourneyStationsV> {
    match (match1_of(FSL_TRAIN_PATTERN@, html), regex_group_of(FSL_OPTION_BLOCK_PATTERN@, html, 1)) {
        (Some(train), Some(block)) => {
            let titles = regex_groups_of(FSL_OPTION_PATTERN@, block, 1);
            let values = regex_groups_of(FSL_OPTION_PATTERN@, block, 2);
            let texts = regex_groups_of(FSL_OPTION_PATTERN@, block, 3);
            if titles.len() == 0 {
                None
            } else {
                Some(
                    JourneyStationsV {
                        train_no: train,
                        list: Seq::new(
                            titles.len(),
                            |i: int| journey_station_of(nth_match(titles, i), nth_match(values, i), nth_match(texts, i)),
                        ),
                    },
                )
            }
        },
        _ => None,
    }
}

/// The name part of an option's text.
fn station_name(text: &str) -> (r: String)
    ensures
        r@ == match occurrence_from(text@, " - "@, 0) {
            Some(k) => trim_seq(text@.take(k)),
            None => trim_seq(text@),
        },
{
    let tv = chars_of(text);
    let sep = chars_of(" - ");
    proof {
        reveal_strlit(" - ");
    }
    match find_from(tv.as_slice(), sep.as_slice(), 0) {
        Some(k) => {
            proof {
                lemma_occurrence_from(tv@, sep@, 0);
                assert(tv@.take(k as int) =~= tv@.subrange(0, k as int));
            }
            let n = tv.len();
            assert(k <= n);
            let a = string_of_range(tv.as_slice(), 0, k);
            trim(a.as_str()).to_owned()
        },
        None => trim(text).to_owned(),
    }
}

/// One option of the station list.
fn journey_station(title: &str, value: &str, text: &str) -> (r: JourneyStation)
    ensures
        r@ == journey_station_of(title@, value@, text@),
{
    let hash = chars_of("#");
    proof {
        reveal_strlit("#");
    }
    let parts = split_str(chars_of(value).as_slice(), hash.as_slice());
    let ghost pv = string_views(parts@);
    let (arrival_days, departure_days) = match split_once_at(title, '#') {
        Some((a, d)) => (trim(a.as_str()).to_owned(), trim(d.as_str()).to_owned()),
        None => (String::new(), String::new()),
    };
    let seq = if parts.len() > 2 {
        proof {
            assert(pv[2] == parts@[2]@);
        }
        match parse_unsigned(trim(parts[2].as_str()), usize::MAX as u64) {
            Some(n) => n as usize,
            None => 0,
        }
    } else {
        0
    };
    let day_change = if parts.len() > 1 {
        proof {
            assert(pv[1] == parts@[1]@);
        }
        str_eq(trim(parts[1].as_str()), "true")
    } else {
        false
    };
    JourneyStation {
        code: nth_text(&parts, 0),
        name: station_name(text),
        seq,
        day_change,
        arrival_days,
        departure_days,
    }
}

/// A train's journey stations from its station-list page, or `None` where
/// the page has no train number, no station list or no option in it.
pub fn parse_journey_stations(html: &str) -> (r: Option<JourneyStations>)
    ensures
        journey_patterns_valid() ==> match r {
            Some(t) => journey_stations_of(html@) == Some(t@),
            None => journey_stations_of(html@) is None,
        },
{
    let train_no = match match_one(FSL_TRAIN_PATTERN, html) {
        Some(t) => t,
        None => return None,
    };
    let block = match group_of(FSL_OPTION_BLOCK_PATTERN, html, 1) {
        Some(b) => b,
        None => return None,
    };
    let titles = groups_of(FSL_OPTION_PATTERN, block.as_str(), 1);
    let values = groups_of(FSL_OPTION_PATTERN, block.as_str(), 2);
    let texts = groups_of(FSL_OPTION_PATTERN, block.as_str(), 3);
    if titles.len() == 0 {
        return None;
    }
    let ghost tv = opt_views(titles@);
    let ghost vv = opt_views(values@);
    let ghost xv = opt_views(texts@);
    let mut list: Vec<JourneyStation> = Vec::new();
    let mut i: usize = 0;
    while i < titles.len()
        invariant
            0 <= i <= titles@.len(),
            tv == opt_views(titles@),
            vv == opt_views(values@),
            xv == opt_views(texts@),
            list@.len() == i,
            forall|k: int|
                0 <= k < i ==> (#[trigger] list@[k])@ == journey_station_of(
                    nth_match(tv, k),
                    nth_match(vv, k),
                    nth_match(xv, k),
                ),
        decreases titles@.len() - i,
    {
        let t = nth_match_text(&titles, i);
        let v = nth_match_text(&values, i);
        let x = nth_match_text(&texts, i);
        list.push(journey_station(t.as_str(), v.as_str(), x.as_str()));
        i = i + 1;
    }
    let r = JourneyStations { train_no, list };
    proof {
        if journey_patterns_valid() {
            assert(journey_views(r.list@) =~= Seq::new(
                tv.len(),
                |k: int| journey_station_of(nth_match(tv, k), nth_match(vv, k), nth_match(xv, k)),
            ));
        }
    }
    Some(r)
}

// ------------------------------------------------------------- train on map

/// The codes of the stations the train calls at.
pub const TRN_ROUTE_PATTERN: &'static str = r#"var myStns\s*=\s*(\[[^;]*?\])\s*;"#;

/// The codes of every station on the track, blanks included.
pub const TRN_TRACK_PATTERN: &'static str = r#"var myStnsF\s*=\s*(\[[^;]*?\])\s*;"#;

/// The names of the stations the train calls at.
pub const TRN_NAMES_PATTERN: &'static str = r#"var myStnNames\s*=\s*(\[[^;]*?\])\s*;"#;

/// Number, name, source, destination, their codes and the start date.
pub const TRN_TRAIN_PATTERN: &'static str = r#"var train\s*=\s*(\[[^;]*?\]);"#;

/// One `#`-separated entry per station.
pub const TRN_RUNINFO_PATTERN: &'static str = r#"var runInfo\s*=\s*(\[[^;]*?\]);"#;

/// Where the train is now.
pub const TRN_CSTN_PATTERN: &'static str = r#"var cStn\s*=\s*(\[[^;]*?\]);"#;

/// The station the journey was asked about.
pub const TRN_JSTN_PATTERN: &'static str = r#"var jStn\s*=\s*(\[[^;]*?\]);"#;

/// The array that `pattern` finds, or no entries.
pub open spec fn js_block_of(pattern: Seq<char>, html: Seq<char>) -> Seq<Seq<char>> {
    match match1_of(pattern, html) {
        Some(s) => js_array_of(s),
        None => Seq::empty(),
    }
}

/// The array that `pattern` finds, or no entries.
fn js_block(pattern: &str, html: &str) -> (r: Vec<String>)
    ensures
        regex_valid(pattern@) ==> string_views(r@) == js_block_of(pattern@, html@),
{
    match match_one(pattern, html) {
        Some(s) => js_array(s.as_str()),
        None => Vec::new(),
    }
}

/// The train's particulars, common to both map pages.
#[derive(Debug, Clone)]
pub struct MapTrain {
    pub train_no: String,
    pub train_name: String,
    pub source: String,
    pub destination: String,
    pub source_code: String,
    pub dest_code: String,
    pub start_date: String,
}

/// The train's particulars as plain values.
pub struct MapTrainV {
    pub train_no: Seq<char>,
    pub train_name: Seq<char>,
    pub source: Seq<char>,
    pub destination: Seq<char>,
    pub source_code: Seq<char>,
    pub dest_code: Seq<char>,
    pub start_date: Seq<char>,
}

impl View for MapTrain {
    type V = MapTrainV;

    open spec fn view(&self) -> MapTrainV {
        MapTrainV {
            train_no: self.train_no@,
            train_name: self.train_name@,
            source: self.source@,
            destination: self.destination@,
            source_code: self.source_code@,
            dest_code: self.dest_code@,
            start_date: self.start_date@,
        }
    }
}

/// The train's particulars: the first seven entries of the `train` array.
pub open spec fn map_train_of(train: Seq<Seq<char>>) -> MapTrainV {
    MapTrainV {
        train_no: nth_or_empty(train, 0),
        train_name: nth_or_empty(train, 1),
        source: nth_or_empty(train, 2),
        destination: nth_or_empty(train, 3),
        source_code: nth_or_empty(train, 4),
        dest_code: nth_or_empty(train, 5),
        start_date: nth_or_empty(train, 6),
    }
}

/// The train's particulars from the `train` array.
fn map_train(train: &Vec<String>) -> (r: MapTrain)
    ensures
        r@ == map_train_of(string_views(train@)),
{
    MapTrain {
        train_no: nth_text(train, 0),
        train_name: nth_text(train, 1),
        source: nth_text(train, 2),
        destination: nth_text(train, 3),
        source_code: nth_text(train, 4),
        dest_code: nth_text(train, 5),
        start_date: nth_text(train, 6),
    }
}

/// A station of the route on the map.
#[derive(Debug, Clone)]
pub struct RouteStop {
    pub code: String,
    pub name: String,
    pub arrival: String,
    pub departure: String,
    pub day: String,
    pub distance: String,
    pub days_of_run: String,
}

/// A route station as plain values.
pub struct RouteStopV {
    pub code: Seq<char>,
    pub name: Seq<char>,
    pub arrival: Seq<char>,
    pub departure: Seq<char>,
    pub day: Seq<char>,
    pub distance: Seq<char>,
    pub days_of_run: Seq<char>,
}

impl View for RouteStop {
    type V = RouteStopV;

    open spec fn view(&self) -> RouteStopV {
        RouteStopV {
            code: self.code@,
            name: self.name@,
            arrival: self.arrival@,
            departure: self.departure@,
            day: self.day@,
            distance: self.distance@,
            days_of_run: self.days_of_run@,
        }
    }
}

/// Route stations as plain values.
pub open spec fn route_views(v: Seq<RouteStop>) -> Seq<RouteStopV> {
    v.map_values(|t: RouteStop| t@)
}

/// A train's route on the map.
#[derive(Debug, Clone)]
pub struct RouteMap {
    pub train: MapTrain,
    pub route: Vec<RouteStop>,
    pub track: Vec<String>,
}

/// A train's route as plain values.
pub struct RouteMapV {
    pub train: MapTrainV,
    pub route: Seq<RouteStopV>,
    pub track: Seq<Seq<char>>,
}

impl View for RouteMap {
    type V = RouteMapV;

    open spec fn view(&self) -> RouteMapV {
        RouteMapV { train: self.train@, route: route_views(self.route@), track: string_views(self.track@) }
    }
}

/// Every pattern of the route page compiles.
pub open spec fn route_map_patterns_valid() -> bool {
    &&& regex_valid(TRN_ROUTE_PATTERN@)
    &&& regex_valid(TRN_TRACK_PATTERN@)
    &&& regex_valid(TRN_NAMES_PATTERN@)
    &&& regex_valid(TRN_TRAIN_PATTERN@)
    &&& regex_valid(TRN_RUNINFO_PATTERN@)
}

/// Whether every pattern behind `route_map_patterns_valid` compiles: the condition
/// the parsers' contracts rest on, checked at run time.
pub fn route_map_patterns_ok() -> (r: bool)
    ensures
        r == route_map_patterns_valid(),
{
    pattern_compiles(TRN_ROUTE_PATTERN)
        && pattern_compiles(TRN_TRACK_PATTERN)
        && pattern_compiles(TRN_NAMES_PATTERN)
        && pattern_compiles(TRN_TRAIN_PATTERN)
        && pattern_compiles(TRN_RUNINFO_PATTERN)
}

/// The `i`-th route station: the code and name at that place and the
/// `arr#dep#day#distance#daysOfRun` parts of its run entry.
pub open spec fn route_stop_of(codes: Seq<Seq<char>>, names: Seq<Seq<char>>, info: Seq<char>, i: int) -> RouteStopV {
    let parts = split_on(info, "#"@);
    RouteStopV {
        code: nth_or_empty(codes, i),
        name: nth_or_empty(names, i),
        arrival: nth_or_empty(parts, 0),
        departure: nth_or_empty(parts, 1),
        day: nth_or_empty(parts, 2),
        distance: nth_or_empty(parts, 3),
        days_of_run: nth_or_empty(parts, 4),
    }
}

/// The route page: the route codes (required, at least one), and a station
/// per run entry, with the track and the train's particulars.
pub open spec fn route_map_of(html: Seq<char>) -> Option<RouteMapV> {
    match match1_of(TRN_ROUTE_PATTERN@, html) {
        None => None,
        Some(lit) => {
            let codes = js_array_of(lit);
            if codes.len() == 0 {
                None
            } else {
                let names = js_block_of(TRN_NAMES_PATTERN@, html);
                let info = js_block_of(TRN_RUNINFO_PATTERN@, html);
                Some(
                    RouteMapV {
                        train: map_train_of(js_block_of(TRN_TRAIN_PATTERN@, html)),
                        route: Seq::new(info.len(), |i: int| route_stop_of(codes, names, info[i], i)),
                        track: js_block_of(TRN_TRACK_PATTERN@, html),
                    },
                )
            }
        },
    }
}

/// One route station.
fn route_stop(codes: &Vec<String>, names: &Vec<String>, info: &str, i: usize) -> (r: RouteStop)
    ensures
        r@ == route_stop_of(string_views(codes@), string_views(names@), info@, i as int),
{
    let hash = chars_of("#");
    proof {
        reveal_strlit("#");
    }
    let parts = split_str(chars_of(info).as_slice(), hash.as_slice());
    RouteStop {
        code: nth_text(codes, i),
        name: nth_text(names, i),
        arrival: nth_text(&parts, 0),
        departure: nth_text(&parts, 1),
        day: nth_text(&parts, 2),
        distance: nth_text(&parts, 3),
        days_of_run: nth_text(&parts, 4),
    }
}

/// A train's route from its map page, or `None` where the page has no
/// route codes.
pub fn parse_train_route_map(html: &str) -> (r: Option<RouteMap>)
    ensures
        route_map_patterns_valid() ==> match r {
            Some(t) => route_map_of(html@) == Some(t@),
            None => route_map_of(html@) is None,
        },
{
    let lit = match match_one(TRN_ROUTE_PATTERN, html) {
        Some(l) => l,
        None => return None,
    };
    let codes = js_array(lit.as_str());
    if codes.len() == 0 {
        return None;
    }
    let track = js_block(TRN_TRACK_PATTERN, html);
    let names = js_block(TRN_NAMES_PATTERN, html);
    let train = js_block(TRN_TRAIN_PATTERN, html);
    let info = js_block(TRN_RUNINFO_PATTERN, html);
    let ghost iv = string_views(info@);
    let mut route: Vec<RouteStop> = Vec::new();
    let mut i: usize = 0;
    while i < info.len()
        invariant
            0 <= i <= info@.len(),
            iv == string_views(info@),
            route@.len() == i,
            forall|k: int|
                0 <= k < i ==> (#[trigger] route@[k])@ == route_stop_of(
                    string_views(codes@),
                    string_views(names@),
                    iv[k],
                    k,
                ),
        decreases info@.len() - i,
    {
        proof {
            assert(iv[i as int] == info@[i as int]@);
        }
        route.push(route_stop(&codes, &names, info[i].as_str(), i));
        i = i + 1;
    }
    let r = RouteMap { train: map_train(&train), route, track };
    proof {
        assert(route_views(r.route@) =~= Seq::new(
            iv.len(),
            |k: int| route_stop_of(string_views(codes@), string_views(names@), iv[k], k),
        ));
    }
    Some(r)
}

/// The marker of the first station.
pub const SOURCE_MARK: &'static str = "Source";

/// The marker of the last station.
pub const DESTINATION_MARK: &'static str = "Destination";

/// A station's state on the spot map.
#[derive(Debug, Clone)]
pub struct SpotStatus {
    pub code: String,
    pub expected_arrival: String,
    pub actual_arrival: String,
    pub expected_departure: String,
    pub actual_departure: String,
    pub arrival_delay: String,
    pub departure_delay: String,
}

/// A station's state as plain values.
pub struct SpotStatusV {
    pub code: Seq<char>,
    pub expected_arrival: Seq<char>,
    pub actual_arrival: Seq<char>,
    pub expected_departure: Seq<char>,
    pub actual_departure: Seq<char>,
    pub arrival_delay: Seq<char>,
    pub departure_delay: Seq<char>,
}

impl View for SpotStatus {
    type V = SpotStatusV;

    open spec fn view(&self) -> SpotStatusV {
        SpotStatusV {
            code: self.code@,
            expected_arrival: self.expected_arrival@,
            actual_arrival: self.actual_arrival@,
            expected_departure: self.expected_departure@,
            actual_departure: self.actual_departure@,
            arrival_delay: self.arrival_delay@,
            departure_delay: self.departure_delay@,
        }
    }
}

/// Station states as plain values.
pub open spec fn spot_views(v: Seq<SpotStatus>) -> Seq<SpotStatusV> {
    v.map_values(|t: SpotStatus| t@)
}

/// The station the journey was asked about, on the spot map.
#[derive(Debug, Clone)]
pub struct SpotJourney {
    pub code: String,
    pub name: String,
    pub label: String,
    pub expected_arrival: String,
    pub actual_arrival: String,
    pub delay_status: String,
    pub platform: String,
}

/// The journey station as plain values.
pub struct SpotJourneyV {
    pub code: Seq<char>,
    pub name: Seq<char>,
    pub label: Seq<char>,
    pub expected_arrival: Seq<char>,
    pub actual_arrival: Seq<char>,
    pub delay_status: Seq<char>,
    pub platform: Seq<char>,
}

impl View for SpotJourney {
    type V = SpotJourneyV;

    open spec fn view(&self) -> SpotJourneyV {
        SpotJourneyV {
            code: self.code@,
            name: self.name@,
            label: self.label@,
            expected_arrival: self.expected_arrival@,
            actual_arrival: self.actual_arrival@,
            delay_status: self.delay_status@,
            platform: self.platform@,
        }
    }
}

/// Where a train is on the map.
#[derive(Debug, Clone)]
pub struct SpotMap {
    pub train: MapTrain,
    pub current_station: String,
    pub journey: SpotJourney,
    pub status: Vec<SpotStatus>,
}

/// Where a train is, as plain values.
pub struct SpotMapV {
    pub train: MapTrainV,
    pub current_station: Seq<char>,
    pub journey: SpotJourneyV,
    pub status: Seq<SpotStatusV>,
}

impl View for SpotMap {
    type V = SpotMapV;

    open spec fn view(&self) -> SpotMapV {
        SpotMapV {
            train: self.train@,
            current_station: self.current_station@,
            journey: self.journey@,
            status: spot_views(self.status@),
        }
    }
}

/// Every pattern of the spot page compiles.
pub open spec fn spot_map_patterns_valid() -> bool {
    &&& regex_valid(TRN_ROUTE_PATTERN@)
    &&& regex_valid(TRN_CSTN_PATTERN@)
    &&& regex_valid(TRN_TRAIN_PATTERN@)
    &&& regex_valid(TRN_JSTN_PATTERN@)
    &&& regex_valid(TRN_RUNINFO_PATTERN@)
    &&& regex_valid(TAG_PATTERN@)
}

/// Whether every pattern behind `spot_map_patterns_valid` compiles: the condition
/// the parsers' contracts rest on, checked at run time.
pub fn spot_map_patterns_ok() -> (r: bool)
    ensures
        r == spot_map_patterns_valid(),
{
    pattern_compiles(TRN_ROUTE_PATTERN)
        && pattern_compiles(TRN_CSTN_PATTERN)
        && pattern_compiles(TRN_TRAIN_PATTERN)
        && pattern_compiles(TRN_JSTN_PATTERN)
        && pattern_compiles(TRN_RUNINFO_PATTERN)
        && pattern_compiles(TAG_PATTERN)
}

/// `time|delay` as its trimmed sides; the trimmed whole and no delay
/// without a `|`.
pub open spec fn spot_delay_of(part: Seq<char>) -> (Seq<char>, Seq<char>) {
    match split_once_char(part, '|') {
        Some((t, d)) => (trim_seq(t), trim_seq(d)),
        None => (trim_seq(part), Seq::empty()),
    }
}

/// A time token, blank for the terminal markers (in any case).
pub open spec fn spot_time_of(token: Seq<char>) -> Seq<char> {
    if token.len() == 0 || lower_seq(token) == lower_seq(SOURCE_MARK@) || lower_seq(token) == lower_seq(
        DESTINATION_MARK@,
    ) {
        Seq::empty()
    } else {
        token
    }
}

/// The `i`-th station's state from its `arr|delay#dep|delay` run entry.
pub open spec fn spot_status_of(codes: Seq<Seq<char>>, info: Seq<char>, i: int) -> SpotStatusV {
    let sides = match split_once_char(info, '#') {
        Some((a, d)) => (a, d),
        None => (info, Seq::empty()),
    };
    let arr = spot_delay_of(sides.0);
    let dep = spot_delay_of(sides.1);
    SpotStatusV {
        code: nth_or_empty(codes, i),
        expected_arrival: spot_time_of(arr.0),
        actual_arrival: Seq::empty(),
        expected_departure: spot_time_of(dep.0),
        actual_departure: Seq::empty(),
        arrival_delay: arr.1,
        departure_delay: dep.1,
    }
}

/// The journey station from the `jStn` array; its label is the plain text
/// of the fifth entry.
pub open spec fn spot_journey_of(j: Seq<Seq<char>>) -> SpotJourneyV {
    SpotJourneyV {
        code: nth_or_empty(j, 0),
        name: nth_or_empty(j, 1),
        label: strip_tags_of(nth_or_empty(j, 4)),
        expected_arrival: nth_or_empty(j, 5),
        actual_arrival: nth_or_empty(j, 6),
        delay_status: nth_or_empty(j, 7),
        platform: nth_or_empty(j, 8),
    }
}

/// The spot page: the route codes and the current station (both required,
/// neither empty), the train's particulars, the journey station, and a state
/// per run entry.
pub open spec fn spot_map_of(html: Seq<char>) -> Option<SpotMapV> {
    match (match1_of(TRN_ROUTE_PATTERN@, html), match1_of(TRN_CSTN_PATTERN@, html)) {
        (Some(r), Some(c)) => {
            let codes = js_array_of(r);
            let current = js_array_of(c);
            if codes.len() == 0 || current.len() == 0 {
                None
            } else {
                let info = js_block_of(TRN_RUNINFO_PATTERN@, html);
                Some(
                    SpotMapV {
                        train: map_train_of(js_block_of(TRN_TRAIN_PATTERN@, html)),
                        current_station: current[0],
                        journey: spot_journey_of(js_block_of(TRN_JSTN_PATTERN@, html)),
                        status: Seq::new(info.len(), |i: int| spot_status_of(codes, info[i], i)),
                    },
                )
            }
        },
        _ => None,
    }
}

/// `time|delay` as its trimmed sides.
fn spot_delay(part: &str) -> (r: (String, String))
    ensures
        (r.0@, r.1@) == spot_delay_of(part@),
{
    match split_once_at(part, '|') {
        Some((t, d)) => (trim(t.as_str()).to_owned(), trim(d.as_str()).to_owned()),
        None => (trim(part).to_owned(), String::new()),
    }
}

/// A time token, blank for the terminal markers.
fn spot_time(token: &str) -> (r: String)
    ensures
        r@ == spot_time_of(token@),
{
    if token.is_empty() || same_ignoring_case(token, SOURCE_MARK) || same_ignoring_case(token, DESTINATION_MARK) {
        String::new()
    } else {
        token.to_owned()
    }
}

/// One station's state.
fn spot_status(codes: &Vec<String>, info: &str, i: usize) -> (r: SpotStatus)
    ensures
        r@ == spot_status_of(string_views(codes@), info@, i as int),
{
    let (arr_part, dep_part) = match split_once_at(info, '#') {
        Some((a, d)) => (a, d),
        None => (info.to_owned(), String::new()),
    };
    let (arr_token, arr_delay) = spot_delay(arr_part.as_str());
    let (dep_token, dep_delay) = spot_delay(dep_part.as_str());
    SpotStatus {
        code: nth_text(codes, i),
        expected_arrival: spot_time(arr_token.as_str()),
        actual_arrival: String::new(),
        expected_departure: spot_time(dep_token.as_str()),
        actual_departure: String::new(),
        arrival_delay: arr_delay,
        departure_delay: dep_delay,
    }
}

/// Where a train is, from its spot map page, or `None` where the page has
/// no route codes or no current station.
pub fn parse_train_spot_map(html: &str) -> (r: Option<SpotMap>)
    ensures
        spot_map_patterns_valid() ==> match r {
            Some(t) => spot_map_of(html@) == Some(t@),
            None => spot_map_of(html@) is None,
        },
{
    let route_lit = match match_one(TRN_ROUTE_PATTERN, html) {
        Some(l) => l,
        None => return None,
    };
    let codes = js_array(route_lit.as_str());
    let current_lit = match match_one(TRN_CSTN_PATTERN, html) {
        Some(l) => l,
        None => return None,
    };
    let current = js_array(current_lit.as_str());
    if codes.len() == 0 || current.len() == 0 {
        return None;
    }
    let train = js_block(TRN_TRAIN_PATTERN, html);
    let jstn = js_block(TRN_JSTN_PATTERN, html);
    let info = js_block(TRN_RUNINFO_PATTERN, html);
    let ghost iv = string_views(info@);
    let mut status: Vec<SpotStatus> = Vec::new();
    let mut i: usize = 0;
    while i < info.len()
        invariant
            0 <= i <= info@.len(),
            iv == string_views(info@),
            status@.len() == i,
            forall|k: int| 0 <= k < i ==> (#[trigger] status@[k])@ == spot_status_of(string_views(codes@), iv[k], k),
        decreases info@.len() - i,
    {
        proof {
            assert(iv[i as int] == info@[i as int]@);
        }
        status.push(spot_status(&codes, info[i].as_str(), i));
        i = i + 1;
    }
    let label_html = nth_text(&jstn, 4);
    let journey = SpotJourney {
        code: nth_text(&jstn, 0),
        name: nth_text(&jstn, 1),
        label: strip_tags(label_html.as_str()),
        expected_arrival: nth_text(&jstn, 5),
        actual_arrival: nth_text(&jstn, 6),
        delay_status: nth_text(&jstn, 7),
        platform: nth_text(&jstn, 8),
    };
    let r = SpotMap { train: map_train(&train), current_station: current[0].clone(), journey, status };
    proof {
        assert(string_views(current@)[0] == current@[0]@);
        assert(spot_views(r.status@) =~= Seq::new(iv.len(), |k: int| spot_status_of(string_views(codes@), iv[k], k)));
    }
    Some(r)
}

} // verus!
