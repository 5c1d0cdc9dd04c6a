//! Reading a Paytm Travel search answer into trains: the same fields as the
//! IRCTC availability answer, plus each class's booking status, fare and
//! confirmation prediction.
use vstd::prelude::*;
use crate::error::AppError;
use crate::irctc::{field, field_of, field_one, keys_view, strings, strings_in};
use crate::json::{array_of, as_array, deref, get, get_of, i64_of, str_of, Json};
use crate::paytm::{iso_time, iso_time_of, SOURCE};
use crate::railyatri::path_of;
use crate::text::{
    chars_of, contains_chars, has_infix, lowercase_of, parse_i64, parsed_i64, str_eq, string_views, to_lowercase,
    to_uppercase, uppercase_of,
};

verus! {

/// The failure where the answer has no train list.
pub const BAD_SEARCH: &'static str = "unexpected search response shape";

/// A whole number, or a text that reads as one.
pub open spec fn int_value_of(v: Option<Json>) -> Option<i64> {
    match v {
        Some(Json::Number(t)) => i64_of(Some(Json::Number(t))),
        Some(Json::Str(s)) => parsed_i64(s@),
        _ => None,
    }
}

/// A boolean, or the text `true` / `false`.
pub open spec fn bool_value_of(v: Option<Json>) -> Option<bool> {
    match v {
        Some(Json::Bool(b)) => Some(b),
        Some(Json::Str(s)) => if s@ == "true"@ {
            Some(true)
        } else if s@ == "false"@ {
            Some(false)
        } else {
            None
        },
        _ => None,
    }
}

/// A whole number, or a text that reads as one.
fn int_value(v: Option<&Json>) -> (r: Option<i64>)
    ensures
        r == int_value_of(deref(v)),
{
    match v {
        Some(Json::Number(_)) => crate::json::as_i64(v),
        Some(Json::Str(s)) => parse_i64(s.as_str()),
        _ => None,
    }
}

/// A boolean, or the text `true` / `false`.
fn bool_value(v: Option<&Json>) -> (r: Option<bool>)
    ensures
        r == bool_value_of(deref(v)),
{
    match v {
        Some(Json::Bool(b)) => Some(*b),
        Some(Json::Str(s)) => {
            if str_eq(s.as_str(), "true") {
                Some(true)
            } else if str_eq(s.as_str(), "false") {
                Some(false)
            } else {
                None
            }
        },
        _ => None,
    }
}

// ------------------------------------------------------------- per class

/// One class of a train: its code, name and status, and where the answer
/// gives them, whether it can be booked, the fare, the quota and the
/// predicted chance of confirmation.
#[derive(Debug, Clone)]
pub struct ClassAvailability {
    pub class: String,
    pub class_name: String,
    pub status: String,
    pub available: Option<bool>,
    pub fare: Option<i64>,
    pub quota: Option<String>,
    pub prediction: Option<i64>,
}

/// A class's availability as plain values.
pub struct ClassAvailabilityV {
    pub class: Seq<char>,
    pub class_name: Seq<char>,
    pub status: Seq<char>,
    pub available: Option<bool>,
    pub fare: Option<i64>,
    pub quota: Option<Seq<char>>,
    pub prediction: Option<i64>,
}

impl View for ClassAvailability {
    type V = ClassAvailabilityV;

    open spec fn view(&self) -> ClassAvailabilityV {
        ClassAvailabilityV {
            class: self.class@,
            class_name: self.class_name@,
            status: self.status@,
            available: self.available,
            fare: self.fare,
            quota: match self.quota {
                Some(q) => Some(q@),
                None => None,
            },
            prediction: self.prediction,
        }
    }
}

/// One availability entry; none without a class code. The status is the
/// unformatted one where given; the quota counts only when not empty.
pub open spec fn class_entry_of(a: Json) -> Option<ClassAvailabilityV> {
    let class = field_of(a, seq!["code"@]);
    if class.len() == 0 {
        None
    } else {
        let quota = field_of(a, seq!["quota"@]);
        Some(
            ClassAvailabilityV {
                class,
                class_name: field_of(a, seq!["name"@]),
                status: field_of(a, seq!["non_formatted_status"@, "status"@]),
                available: bool_value_of(get_of(Some(a), "available_flag"@)),
                fare: int_value_of(get_of(Some(a), "fare"@)),
                quota: if quota.len() > 0 {
                    Some(quota)
                } else {
                    None
                },
                prediction: int_value_of(path_of(Some(a), seq!["pnr_prediction"@, "value"@])),
            },
        )
    }
}

/// The entries that read as classes, in order.
pub open spec fn class_entries(a: Seq<Json>) -> Seq<ClassAvailabilityV>
    decreases a.len(),
{
    if a.len() == 0 {
        Seq::empty()
    } else {
        match class_entry_of(a.last()) {
            Some(c) => class_entries(a.drop_last()).push(c),
            None => class_entries(a.drop_last()),
        }
    }
}

/// The classes of a train's `availability` list, none without one.
pub open spec fn class_availability_of(t: Json) -> Seq<ClassAvailabilityV> {
    match array_of(get_of(Some(t), "availability"@)) {
        Some(a) => class_entries(a),
        None => Seq::empty(),
    }
}

/// One availability entry.
fn class_entry(a: &Json) -> (r: Option<ClassAvailability>)
    ensures
        match r {
            Some(c) => class_entry_of(*a) == Some(c@),
            None => class_entry_of(*a) is None,
        },
{
    let class = field_one(a, "code");
    if class.as_str().is_empty() {
        return None;
    }
    let quota = field_one(a, "quota");
    let prediction = int_value(crate::irctc::deep_get(a, &["pnr_prediction", "value"]));
    proof {
        assert(keys_view(seq!["non_formatted_status", "status"]) =~= seq!["non_formatted_status"@, "status"@]);
        assert(keys_view(seq!["pnr_prediction", "value"]) =~= seq!["pnr_prediction"@, "value"@]);
    }
    let q = if quota.as_str().is_empty() {
        None
    } else {
        Some(quota)
    };
    Some(
        ClassAvailability {
            class,
            class_name: field_one(a, "name"),
            status: field(a, &["non_formatted_status", "status"]),
            available: bool_value(get(Some(a), "available_flag")),
            fare: int_value(get(Some(a), "fare")),
            quota: q,
            prediction,
        },
    )
}

/// The classes of a train.
fn class_availability(t: &Json) -> (r: Vec<ClassAvailability>)
    ensures
        r@.map_values(|c: ClassAvailability| c@) == class_availability_of(*t),
{
    let mut out: Vec<ClassAvailability> = Vec::new();
    match as_array(get(Some(t), "availability")) {
        Some(a) => {
            let mut i: usize = 0;
            proof {
                assert(a@.take(0) =~= Seq::<Json>::empty());
                assert(out@.map_values(|c: ClassAvailability| c@) =~= Seq::<ClassAvailabilityV>::empty());
            }
            while i < a.len()
                invariant
                    0 <= i <= a@.len(),
                    out@.map_values(|c: ClassAvailability| c@) == class_entries(a@.take(i as int)),
                decreases a@.len() - i,
            {
                proof {
                    assert(a@.take(i + 1).drop_last() =~= a@.take(i as int));
                    assert(a@.take(i + 1).last() == a@[i as int]);
                }
                if let Some(c) = class_entry(&a[i]) {
                    let ghost ov = out@.map_values(|c: ClassAvailability| c@);
                    let ghost cv = c@;
                    out.push(c);
                    proof {
                        assert(out@.map_values(|c: ClassAvailability| c@) =~= ov.push(cv));
                    }
                }
                i = i + 1;
            }
            proof {
                assert(a@.take(a@.len() as int) =~= a@);
            }
        },
        None => {
            proof {
                assert(out@.map_values(|c: ClassAvailability| c@) =~= Seq::<ClassAvailabilityV>::empty());
            }
        },
    }
    out
}

// ------------------------------------------------------------- run days

/// The upper-cased run-days text (`Runs on Tue, Wed`).
pub open spec fn runs_text_of(t: Json) -> Seq<char> {
    uppercase_of(
        match str_of(path_of(Some(t), seq!["runs_on"@, "text"@])) {
            Some(s) => s,
            None => Seq::empty(),
        },
    )
}

/// The upper-case day names, Monday first.
pub open spec fn upper_days() -> Seq<Seq<char>> {
    seq!["MON"@, "TUE"@, "WED"@, "THU"@, "FRI"@, "SAT"@, "SUN"@]
}

/// The days a train runs, Monday first: every day where the text says all
/// days or daily; else the days whose name it contains.
pub open spec fn day_bools_of(t: Json) -> Seq<bool> {
    let text = runs_text_of(t);
    if has_infix(text, "ALL DAYS"@) || has_infix(text, "DAILY"@) {
        Seq::new(7, |i: int| true)
    } else {
        Seq::new(7, |i: int| has_infix(text, upper_days()[i]))
    }
}

/// The days a train runs: all seven where its run-days text says all days
/// or daily; otherwise Monday through Sunday, each marked exactly when the
/// text names that day.
pub proof fn lemma_day_bools_name_days(t: Json)
    ensures
        day_bools_of(t).len() == 7,
        has_infix(runs_text_of(t), "ALL DAYS"@) || has_infix(runs_text_of(t), "DAILY"@) ==> forall|i: int|
            0 <= i < 7 ==> #[trigger] day_bools_of(t)[i],
        !has_infix(runs_text_of(t), "ALL DAYS"@) && !has_infix(runs_text_of(t), "DAILY"@) ==> {
            let text = runs_text_of(t);
            let d = day_bools_of(t);
            &&& d[0] == has_infix(text, "MON"@)
            &&& d[1] == has_infix(text, "TUE"@)
            &&& d[2] == has_infix(text, "WED"@)
            &&& d[3] == has_infix(text, "THU"@)
            &&& d[4] == has_infix(text, "FRI"@)
            &&& d[5] == has_infix(text, "SAT"@)
            &&& d[6] == has_infix(text, "SUN"@)
        },
{
}

/// The days a train runs, Monday first.
pub fn day_bools(t: &Json) -> (r: Vec<bool>)
    ensures
        r@ == day_bools_of(*t),
{
    let raw = match crate::json::as_str(crate::irctc::deep_get(t, &["runs_on", "text"])) {
        Some(s) => s.to_owned(),
        None => String::new(),
    };
    proof {
        assert(keys_view(seq!["runs_on", "text"]) =~= seq!["runs_on"@, "text"@]);
    }
    let text = to_uppercase(raw.as_str());
    let tv = chars_of(text.as_str());
    if contains_chars(tv.as_slice(), chars_of("ALL DAYS").as_slice()) || contains_chars(
        tv.as_slice(),
        chars_of("DAILY").as_slice(),
    ) {
        let all = vec![true, true, true, true, true, true, true];
        proof {
            assert(all@ =~= Seq::new(7, |i: int| true));
        }
        return all;
    }
    let names: [&str; 7] = ["MON", "TUE", "WED", "THU", "FRI", "SAT", "SUN"];
    let mut out: Vec<bool> = Vec::new();
    let mut d: usize = 0;
    while d < 7
        invariant
            0 <= d <= 7,
            tv@ == runs_text_of(*t),
            forall|k: int| 0 <= k < 7 ==> (#[trigger] names@[k])@ == upper_days()[k],
            out@.len() == d,
            forall|k: int| 0 <= k < d ==> out@[k] == has_infix(tv@, upper_days()[k]),
        decreases 7 - d,
    {
        out.push(contains_chars(tv.as_slice(), chars_of(names[d]).as_slice()));
        d = d + 1;
    }
    proof {
        assert(out@ =~= Seq::new(7, |i: int| has_infix(runs_text_of(*t), upper_days()[i])));
    }
    out
}

// ------------------------------------------------------------- train type

/// The train's type: the label the answer's own type map gives its code
/// (lower-cased), else the code upper-cased; empty without a code.
pub open spec fn type_label_of(t: Json, labels: Option<Json>) -> Seq<char> {
    let code = lowercase_of(field_of(t, seq!["train_type"@]));
    if code.len() == 0 {
        Seq::empty()
    } else {
        match labels {
            Some(Json::Object(m)) => match str_of(get_of(Some(Json::Object(m)), code)) {
                Some(l) => l,
                None => uppercase_of(code),
            },
            _ => uppercase_of(code),
        }
    }
}

/// The train's type label.
fn type_label(t: &Json, labels: Option<&Json>) -> (r: String)
    ensures
        r@ == type_label_of(*t, deref(labels)),
{
    let code = to_lowercase(field_one(t, "train_type").as_str());
    if code.as_str().is_empty() {
        return String::new();
    }
    match labels {
        Some(Json::Object(_)) => match crate::json::as_str(get(labels, code.as_str())) {
            Some(l) => l.to_owned(),
            None => to_uppercase(code.as_str()),
        },
        _ => to_uppercase(code.as_str()),
    }
}

// ------------------------------------------------------------- trains

/// A train of the search answer.
#[derive(Debug, Clone)]
pub struct SearchTrain {
    pub number: String,
    pub name: String,
    pub from_code: String,
    pub from_name: String,
    pub to_code: String,
    pub to_name: String,
    pub departure_time: String,
    pub arrival_time: String,
    pub duration: String,
    /// Not given by this source: always empty.
    pub distance: String,
    pub classes: Vec<String>,
    pub train_type: String,
    pub runs_on: Vec<bool>,
    pub availability: Vec<ClassAvailability>,
}

/// A search train as plain values.
pub struct SearchTrainV {
    pub number: Seq<char>,
    pub name: Seq<char>,
    pub from_code: Seq<char>,
    pub from_name: Seq<char>,
    pub to_code: Seq<char>,
    pub to_name: Seq<char>,
    pub departure_time: Seq<char>,
    pub arrival_time: Seq<char>,
    pub duration: Seq<char>,
    pub distance: Seq<char>,
    pub classes: Seq<Seq<char>>,
    pub train_type: Seq<char>,
    pub runs_on: Seq<bool>,
    pub availability: Seq<ClassAvailabilityV>,
}

impl View for SearchTrain {
    type V = SearchTrainV;

    open spec fn view(&self) -> SearchTrainV {
        SearchTrainV {
            number: self.number@,
            name: self.name@,
            from_code: self.from_code@,
            from_name: self.from_name@,
            to_code: self.to_code@,
            to_name: self.to_name@,
            departure_time: self.departure_time@,
            arrival_time: self.arrival_time@,
            duration: self.duration@,
            distance: self.distance@,
            classes: string_views(self.classes@),
            train_type: self.train_type@,
            runs_on: self.runs_on@,
            availability: self.availability@.map_values(|c: ClassAvailability| c@),
        }
    }
}

/// One train of the answer, read with the answer's type map.
pub open spec fn search_train_of(t: Json, labels: Option<Json>) -> SearchTrainV {
    SearchTrainV {
        number: field_of(t, seq!["trainNumber"@]),
        name: field_of(t, seq!["trainName"@]),
        from_code: field_of(t, seq!["source"@]),
        from_name: field_of(t, seq!["source_name"@]),
        to_code: field_of(t, seq!["destination"@]),
        to_name: field_of(t, seq!["destination_name"@]),
        departure_time: iso_time_of(field_of(t, seq!["departure"@])),
        arrival_time: iso_time_of(field_of(t, seq!["arrival"@])),
        duration: field_of(t, seq!["duration"@]),
        distance: Seq::empty(),
        classes: match array_of(get_of(Some(t), "classes"@)) {
            Some(a) => strings_in(a),
            None => Seq::empty(),
        },
        train_type: type_label_of(t, labels),
        runs_on: day_bools_of(t),
        availability: class_availability_of(t),
    }
}

/// One train of the answer.
fn search_train(t: &Json, labels: Option<&Json>) -> (r: SearchTrain)
    ensures
        r@ == search_train_of(*t, deref(labels)),
{
    let classes = match as_array(get(Some(t), "classes")) {
        Some(a) => strings(a),
        None => {
            let v: Vec<String> = Vec::new();
            proof {
                assert(string_views(v@) =~= Seq::<Seq<char>>::empty());
            }
            v
        },
    };
    SearchTrain {
        number: field_one(t, "trainNumber"),
        name: field_one(t, "trainName"),
        from_code: field_one(t, "source"),
        from_name: field_one(t, "source_name"),
        to_code: field_one(t, "destination"),
        to_name: field_one(t, "destination_name"),
        departure_time: iso_time(field_one(t, "departure").as_str()),
        arrival_time: iso_time(field_one(t, "arrival").as_str()),
        duration: field_one(t, "duration"),
        distance: String::new(),
        classes,
        train_type: type_label(t, labels),
        runs_on: day_bools(t),
        availability: class_availability(t),
    }
}

/// The train list: `body.trains`, when an array that is not empty.
pub open spec fn search_list_of(data: Json) -> Option<Seq<Json>> {
    match array_of(path_of(Some(data), seq!["body"@, "trains"@])) {
        Some(a) => if a.len() > 0 {
            Some(a)
        } else {
            None
        },
        None => None,
    }
}

/// The answer's own map of type codes to labels, where it is an object.
pub open spec fn labels_of(data: Json) -> Option<Json> {
    match path_of(Some(data), seq!["meta"@, "smartFilterTrainType"@]) {
        Some(Json::Object(m)) => Some(Json::Object(m)),
        _ => None,
    }
}

/// The trains of a search answer; the source failing where it has no
/// non-empty `body.trains` list.
pub fn availability_trains(data: &Json) -> (r: Result<Vec<SearchTrain>, AppError>)
    ensures
        match r {
            Ok(v) => (search_list_of(*data) matches Some(list) && v@.map_values(|t: SearchTrain| t@)
                == list.map_values(|t: Json| search_train_of(t, labels_of(*data)))),
            Err(e) => search_list_of(*data) is None && (e matches AppError::SourceUnavailable { source, reason }
                && source@ == SOURCE@ && reason@ == BAD_SEARCH@),
        },
{
    proof {
        assert(keys_view(seq!["body", "trains"]) =~= seq!["body"@, "trains"@]);
        assert(keys_view(seq!["meta", "smartFilterTrainType"]) =~= seq!["meta"@, "smartFilterTrainType"@]);
    }
    let list = match as_array(crate::irctc::deep_get(data, &["body", "trains"])) {
        Some(a) => if a.len() > 0 {
            a
        } else {
            return Err(AppError::SourceUnavailable { source: SOURCE.to_owned(), reason: BAD_SEARCH.to_owned() });
        },
        None => return Err(AppError::SourceUnavailable { source: SOURCE.to_owned(), reason: BAD_SEARCH.to_owned() }),
    };
    let found = crate::irctc::deep_get(data, &["meta", "smartFilterTrainType"]);
    let labels = match found {
        Some(Json::Object(_)) => found,
        _ => None,
    };
    let mut out: Vec<SearchTrain> = Vec::new();
    let mut i: usize = 0;
    while i < list.len()
        invariant
            0 <= i <= list@.len(),
            deref(labels) == labels_of(*data),
            out@.len() == i,
            forall|k: int| 0 <= k < i ==> (#[trigger] out@[k])@ == search_train_of(list@[k], labels_of(*data)),
        decreases list@.len() - i,
    {
        out.push(search_train(&list[i], labels));
        i = i + 1;
    }
    proof {
        assert(out@.map_values(|t: SearchTrain| t@) =~= list@.map_values(
            |t: Json| search_train_of(t, labels_of(*data)),
        ));
    }
    Ok(out)
}

} // verus!
