//! One `data:` frame of a streamed completion, read into events.
use vstd::prelude::*;
use crate::error::AppError;
use crate::json::{
    array_of, as_array, as_str, as_u64, deref, get, get_of, is_null, is_null_of, is_object, is_object_of,
    json_parse_of, parse_json, str_of, u64_of, Json,
};
use crate::text::{push_str, str_eq, string_of};

verus! {

/// A tool request of the model, its streamed pieces merged.
#[derive(Debug, Clone, PartialEq)]
pub struct AssembledToolCall {
    pub id: String,
    pub name: String,
    pub arguments: String,
}

impl View for AssembledToolCall {
    type V = (Seq<char>, Seq<char>, Seq<char>);

    open spec fn view(&self) -> (Seq<char>, Seq<char>, Seq<char>) {
        (self.id@, self.name@, self.arguments@)
    }
}

/// A decoded piece of a streamed completion.
#[derive(Debug, Clone, PartialEq)]
pub enum AiEvent {
    /// Chain-of-thought text streamed before or beside the answer.
    Reasoning(String),
    /// Answer text.
    Delta(String),
    /// The model asked for local tool executions.
    ToolCalls(Vec<AssembledToolCall>),
    /// End of the completion, with the token usage the gateway reported.
    Done { prompt_tokens: u64, completion_tokens: u64 },
}

/// An event as plain values.
pub enum EventV {
    Reasoning(Seq<char>),
    Delta(Seq<char>),
    ToolCalls(Seq<(Seq<char>, Seq<char>, Seq<char>)>),
    Done(u64, u64),
}

impl View for AiEvent {
    type V = EventV;

    open spec fn view(&self) -> EventV {
        match self {
            AiEvent::Reasoning(s) => EventV::Reasoning(s@),
            AiEvent::Delta(s) => EventV::Delta(s@),
            AiEvent::ToolCalls(c) => EventV::ToolCalls(c@.map_values(|t: AssembledToolCall| t@)),
            AiEvent::Done { prompt_tokens, completion_tokens } => EventV::Done(*prompt_tokens, *completion_tokens),
        }
    }
}

/// The events of a sequence, as plain values.
pub open spec fn events_view(s: Seq<AiEvent>) -> Seq<EventV> {
    s.map_values(|e: AiEvent| e@)
}

/// One streamed piece of a tool call: `index` orders parallel calls; id and
/// name usually come with the first piece only, the arguments in pieces.
#[derive(Debug)]
pub struct ToolFrag {
    pub index: u64,
    pub id: Option<String>,
    pub name: Option<String>,
    pub args_delta: String,
}

/// An optional text as plain value.
pub open spec fn opt_text(o: Option<String>) -> Option<Seq<char>> {
    match o {
        Some(s) => Some(s@),
        None => None,
    }
}

impl View for ToolFrag {
    type V = (u64, Option<Seq<char>>, Option<Seq<char>>, Seq<char>);

    open spec fn view(&self) -> (u64, Option<Seq<char>>, Option<Seq<char>>, Seq<char>) {
        (self.index, opt_text(self.id), opt_text(self.name), self.args_delta@)
    }
}

/// The pieces of a sequence, as plain values.
pub open spec fn frags_view(s: Seq<ToolFrag>) -> Seq<(u64, Option<Seq<char>>, Option<Seq<char>>, Seq<char>)> {
    s.map_values(|f: ToolFrag| f@)
}

/// What one frame yields.
pub enum Parsed {
    /// Nothing to report: not JSON, or no content.
    Empty,
    /// The gateway reported a failure.
    Error(AppError),
    /// Content events, and raw tool-call pieces still to be merged.
    Frames(Vec<AiEvent>, Vec<ToolFrag>),
}

/// What one frame yields, as plain values; an error is the reason of a
/// `zen` source failure.
pub enum ParsedV {
    Empty,
    Error(Seq<char>),
    Frames(Seq<EventV>, Seq<(u64, Option<Seq<char>>, Option<Seq<char>>, Seq<char>)>),
}

/// `p` is what `v` describes.
pub open spec fn parsed_is(p: Parsed, v: ParsedV) -> bool {
    match v {
        ParsedV::Empty => p is Empty,
        ParsedV::Error(why) => p matches Parsed::Error(AppError::SourceUnavailable { source, reason }) && source@
            == "zen"@ && reason@ == why,
        ParsedV::Frames(evs, frs) => p matches Parsed::Frames(e, f) && events_view(e@) == evs && frags_view(f@)
            == frs,
    }
}

/// `o`, or `d` where it is absent.
pub open spec fn or_text(o: Option<Seq<char>>, d: Seq<char>) -> Seq<char> {
    match o {
        Some(s) => s,
        None => d,
    }
}

/// The reason of an explicit gateway error object
/// (`{"type":"error","error":{"type","message"}}`).
pub open spec fn gateway_error(v: Option<Json>) -> Option<Seq<char>> {
    let err = get_of(v, "error"@);
    if str_of(get_of(v, "type"@)) == Some("error"@) && err is Some {
        Some(or_text(str_of(get_of(err, "type"@)), "error"@) + ": "@ + or_text(
            str_of(get_of(err, "message"@)),
            "unknown"@,
        ))
    } else {
        None
    }
}

/// A choice that ended with the free tier's `network_error`.
pub open spec fn choice_failed(c: Json) -> bool {
    str_of(get_of(Some(c), "finish_reason"@)) == Some("network_error"@)
}

/// Some choice ended with `network_error`.
pub open spec fn any_failed(cs: Seq<Json>) -> bool {
    exists|i: int| 0 <= i < cs.len() && #[trigger] choice_failed(cs[i])
}

/// A text event for a field, where the field is a non-empty string.
pub open spec fn text_event(reasoning: bool, s: Option<Seq<char>>) -> Seq<EventV> {
    match s {
        Some(t) => if t.len() > 0 {
            if reasoning { seq![EventV::Reasoning(t)] } else { seq![EventV::Delta(t)] }
        } else {
            Seq::empty()
        },
        None => Seq::empty(),
    }
}

/// The events of a choice's delta: its reasoning, then its content.
pub open spec fn delta_events(d: Json) -> Seq<EventV> {
    text_event(true, str_of(get_of(Some(d), "reasoning_content"@))) + text_event(
        false,
        str_of(get_of(Some(d), "content"@)),
    )
}

/// The events of a choice; none where it has no delta.
pub open spec fn choice_events(c: Json) -> Seq<EventV> {
    match get_of(Some(c), "delta"@) {
        Some(d) => delta_events(d),
        None => Seq::empty(),
    }
}

/// The events of the choices, in order.
pub open spec fn choices_events(cs: Seq<Json>) -> Seq<EventV>
    decreases cs.len(),
{
    if cs.len() == 0 {
        Seq::empty()
    } else {
        choices_events(cs.drop_last()) + choice_events(cs.last())
    }
}

/// One tool-call piece: index (0 where absent), id, function name and
/// argument text (empty where absent).
pub open spec fn call_frag(call: Json) -> (u64, Option<Seq<char>>, Option<Seq<char>>, Seq<char>) {
    let f = get_of(Some(call), "function"@);
    (
        match u64_of(get_of(Some(call), "index"@)) {
            Some(n) => n,
            None => 0,
        },
        str_of(get_of(Some(call), "id"@)),
        str_of(get_of(f, "name"@)),
        or_text(str_of(get_of(f, "arguments"@)), Seq::empty()),
    )
}

/// The tool-call pieces of a delta.
pub open spec fn delta_frags(d: Json) -> Seq<(u64, Option<Seq<char>>, Option<Seq<char>>, Seq<char>)> {
    match array_of(get_of(Some(d), "tool_calls"@)) {
        Some(calls) => calls.map_values(|x: Json| call_frag(x)),
        None => Seq::empty(),
    }
}

/// The tool-call pieces of a choice.
pub open spec fn choice_frags(c: Json) -> Seq<(u64, Option<Seq<char>>, Option<Seq<char>>, Seq<char>)> {
    match get_of(Some(c), "delta"@) {
        Some(d) => delta_frags(d),
        None => Seq::empty(),
    }
}

/// The tool-call pieces of the choices, in order.
pub open spec fn choices_frags(cs: Seq<Json>) -> Seq<(u64, Option<Seq<char>>, Option<Seq<char>>, Seq<char>)>
    decreases cs.len(),
{
    if cs.len() == 0 {
        Seq::empty()
    } else {
        choices_frags(cs.drop_last()) + choice_frags(cs.last())
    }
}

/// The usage report of a frame as a `Done` event, where it gives either
/// token count (the other counts as 0).
pub open spec fn usage_events(v: Option<Json>) -> Seq<EventV> {
    let u = get_of(v, "usage"@);
    let pt = u64_of(get_of(u, "prompt_tokens"@));
    let ct = u64_of(get_of(u, "completion_tokens"@));
    if u is Some && !is_null_of(u) && (pt is Some || ct is Some) {
        seq![
            EventV::Done(
                match pt {
                    Some(n) => n,
                    None => 0,
                },
                match ct {
                    Some(n) => n,
                    None => 0,
                },
            ),
        ]
    } else {
        Seq::empty()
    }
}

/// The choices of a frame; none where it has no array of them.
pub open spec fn choices_of(v: Option<Json>) -> Seq<Json> {
    match array_of(get_of(v, "choices"@)) {
        Some(a) => a,
        None => Seq::empty(),
    }
}

/// What a frame's document yields: an explicit gateway error; a
/// `network_error` choice; else the content events (choices in order, then
/// usage) and tool pieces, or nothing where there are none.
pub open spec fn parsed_of_json(v: Option<Json>) -> ParsedV {
    if v is None {
        ParsedV::Empty
    } else if gateway_error(v) is Some {
        ParsedV::Error(gateway_error(v).unwrap())
    } else if any_failed(choices_of(v)) {
        ParsedV::Error("upstream ended the completion early (network_error)"@)
    } else {
        let evs = choices_events(choices_of(v)) + usage_events(v);
        let frs = choices_frags(choices_of(v));
        if evs.len() == 0 && frs.len() == 0 {
            ParsedV::Empty
        } else {
            ParsedV::Frames(evs, frs)
        }
    }
}

/// What a `data:` frame yields.
pub open spec fn parsed_of(frame: Seq<char>) -> ParsedV {
    parsed_of_json(json_parse_of(frame))
}

/// The reason of an explicit gateway error object, if `v` is one.
fn gateway_error_of(v: &Json) -> (r: Option<String>)
    ensures
        opt_text(r) == gateway_error(Some(*v)),
{
    let root = Some(v);
    let ty = as_str(get(root, "type"));
    let err = get(root, "error");
    let is_error = match ty {
        Some(t) => str_eq(t, "error"),
        None => false,
    };
    if is_error && err.is_some() {
        let mut m: Vec<char> = Vec::new();
        match as_str(get(err, "type")) {
            Some(t) => push_str(&mut m, t),
            None => push_str(&mut m, "error"),
        }
        push_str(&mut m, ": ");
        match as_str(get(err, "message")) {
            Some(t) => push_str(&mut m, t),
            None => push_str(&mut m, "unknown"),
        }
        Some(string_of(m.as_slice()))
    } else {
        None
    }
}

/// Whether a choice ended with `network_error`.
fn choice_failed_exec(c: &Json) -> (r: bool)
    ensures
        r == choice_failed(*c),
{
    match as_str(get(Some(c), "finish_reason")) {
        Some(f) => str_eq(f, "network_error"),
        None => false,
    }
}

/// Append the text event of a field, where it is a non-empty string.
fn push_text_event(events: &mut Vec<AiEvent>, d: &Json, key: &str, reasoning: bool)
    ensures
        events_view(final(events)@) == events_view(old(events)@) + text_event(
            reasoning,
            str_of(get_of(Some(*d), key@)),
        ),
{
    let ghost before = old(events)@;
    if let Some(t) = as_str(get(Some(d), key)) {
        if !t.is_empty() {
            if reasoning {
                events.push(AiEvent::Reasoning(t.to_owned()));
            } else {
                events.push(AiEvent::Delta(t.to_owned()));
            }
            proof {
                assert(events_view(events@) =~= events_view(before) + text_event(
                    reasoning,
                    str_of(get_of(Some(*d), key@)),
                ));
            }
        } else {
            proof {
                assert(t@.len() == 0);
                assert(events_view(events@) =~= events_view(before) + text_event(
                    reasoning,
                    str_of(get_of(Some(*d), key@)),
                ));
            }
        }
    } else {
        proof {
            assert(events_view(events@) =~= events_view(before) + text_event(
                reasoning,
                str_of(get_of(Some(*d), key@)),
            ));
        }
    }
}

/// The tool-call piece a call object describes.
fn frag_of(call: &Json) -> (r: ToolFrag)
    ensures
        r@ == call_frag(*call),
{
    let c = Some(call);
    let index = match as_u64(get(c, "index")) {
        Some(n) => n,
        None => 0,
    };
    let function = get(c, "function");
    let id = match as_str(get(c, "id")) {
        Some(s) => Some(s.to_owned()),
        None => None,
    };
    let name = match as_str(get(function, "name")) {
        Some(s) => Some(s.to_owned()),
        None => None,
    };
    let args = match as_str(get(function, "arguments")) {
        Some(s) => s.to_owned(),
        None => String::new(),
    };
    ToolFrag { index, id, name, args_delta: args }
}

/// Append the tool-call pieces of a delta.
fn push_delta_frags(tools: &mut Vec<ToolFrag>, d: &Json)
    ensures
        frags_view(final(tools)@) == frags_view(old(tools)@) + delta_frags(*d),
{
    let ghost before = old(tools)@;
    match as_array(get(Some(d), "tool_calls")) {
        Some(calls) => {
            let mut i: usize = 0;
            while i < calls.len()
                invariant
                    0 <= i <= calls@.len(),
                    frags_view(tools@) =~= frags_view(before) + calls@.take(i as int).map_values(
                        |x: Json| call_frag(x),
                    ),
                decreases calls@.len() - i,
            {
                let f = frag_of(&calls[i]);
                let ghost prev = tools@;
                tools.push(f);
                proof {
                    assert(frags_view(tools@) =~= frags_view(prev).push(call_frag(calls@[i as int])));
                    assert(calls@.take(i + 1).map_values(|x: Json| call_frag(x)) =~= calls@.take(
                        i as int,
                    ).map_values(|x: Json| call_frag(x)).push(call_frag(calls@[i as int])));
                    assert(frags_view(tools@) =~= frags_view(before) + calls@.take(i + 1).map_values(
                        |x: Json| call_frag(x),
                    ));
                }
                i = i + 1;
            }
            proof {
                assert(calls@.take(calls@.len() as int) =~= calls@);
            }
        },
        None => {
            proof {
                assert(frags_view(tools@) =~= frags_view(before) + delta_frags(*d));
            }
        },
    }
}

/// Append the usage report of a frame as a `Done` event, where it has one.
fn push_usage(events: &mut Vec<AiEvent>, v: &Json)
    ensures
        events_view(final(events)@) == events_view(old(events)@) + usage_events(Some(*v)),
{
    let ghost before = old(events)@;
    let u = get(Some(v), "usage");
    let pt = as_u64(get(u, "prompt_tokens"));
    let ct = as_u64(get(u, "completion_tokens"));
    if u.is_some() && !is_null(u) && (pt.is_some() || ct.is_some()) {
        let p = match pt {
            Some(n) => n,
            None => 0,
        };
        let c = match ct {
            Some(n) => n,
            None => 0,
        };
        events.push(AiEvent::Done { prompt_tokens: p, completion_tokens: c });
    }
    proof {
        assert(events_view(events@) =~= events_view(before) + usage_events(Some(*v)));
    }
}

/// Read a parsed frame document into events. Lenient: unknown shapes yield
/// nothing, but an explicit gateway error object, or a choice that ended
/// with `network_error`, is a failure of the `zen` source.
pub fn parse_json_frame(v: &Json) -> (r: Parsed)
    ensures
        parsed_is(r, parsed_of_json(Some(*v))),
{
    if let Some(reason) = gateway_error_of(v) {
        return Parsed::Error(AppError::source_unavailable("zen", reason.as_str()));
    }
    let root = Some(v);
    let mut events: Vec<AiEvent> = Vec::new();
    let mut tools: Vec<ToolFrag> = Vec::new();
    let choices = as_array(get(root, "choices"));
    let ghost cs = choices_of(Some(*v));
    if let Some(choices) = choices {
        let mut i: usize = 0;
        while i < choices.len()
            invariant
                0 <= i <= choices@.len(),
                cs == choices@,
                cs == choices_of(Some(*v)),
                gateway_error(Some(*v)) is None,
                events_view(events@) == choices_events(choices@.take(i as int)),
                frags_view(tools@) == choices_frags(choices@.take(i as int)),
                forall|k: int| 0 <= k < i ==> !#[trigger] choice_failed(choices@[k]),
            decreases choices@.len() - i,
        {
            let c = &choices[i];
            proof {
                assert(choices@.take(i + 1).drop_last() =~= choices@.take(i as int));
            }
            if choice_failed_exec(c) {
                proof {
                    assert(choice_failed(cs[i as int]));
                    assert(any_failed(cs));
                    assert(gateway_error(Some(*v)) is None);
                }
                return Parsed::Error(
                    AppError::source_unavailable("zen", "upstream ended the completion early (network_error)"),
                );
            }
            if let Some(delta) = get(Some(c), "delta") {
                push_text_event(&mut events, delta, "reasoning_content", true);
                push_text_event(&mut events, delta, "content", false);
                push_delta_frags(&mut tools, delta);
            }
            proof {
                assert(events_view(events@) =~= choices_events(choices@.take(i + 1)));
                assert(frags_view(tools@) =~= choices_frags(choices@.take(i + 1)));
            }
            i = i + 1;
        }
        proof {
            assert(choices@.take(choices@.len() as int) =~= choices@);
            assert(!any_failed(cs));
        }
    } else {
        proof {
            assert(cs =~= Seq::<Json>::empty());
            assert(!any_failed(cs));
            assert(events_view(events@) =~= choices_events(cs));
            assert(frags_view(tools@) =~= choices_frags(cs));
        }
    }
    push_usage(&mut events, v);
    if events.len() == 0 && tools.len() == 0 {
        proof {
            assert(events_view(events@).len() == 0);
            assert(frags_view(tools@).len() == 0);
        }
        Parsed::Empty
    } else {
        Parsed::Frames(events, tools)
    }
}

/// Turn one `data:` frame into zero or more events; text that is no JSON
/// yields nothing.
pub fn parse_data_frame(frame: &str) -> (r: Parsed)
    ensures
        parsed_is(r, parsed_of(frame@)),
{
    match parse_json(frame) {
        Ok(v) => parse_json_frame(&v),
        Err(_) => Parsed::Empty,
    }
}

/// The readable reason of an error response body: the gateway's
/// `{"type":"error","error":{"type","message"}}` as `type: message`, or the
/// OpenAI-style `{"error":{"message"}}`.
pub open spec fn error_body_of_json(v: Option<Json>) -> Option<Seq<char>> {
    let err = get_of(v, "error"@);
    if v is None {
        None
    } else if str_of(get_of(v, "type"@)) == Some("error"@) && is_object_of(err) {
        Some(or_text(str_of(get_of(err, "type"@)), "error"@) + ": "@ + or_text(
            str_of(get_of(err, "message"@)),
            "unknown error"@,
        ))
    } else if is_object_of(v) && is_object_of(err) && str_of(get_of(err, "message"@)) is Some {
        str_of(get_of(err, "message"@))
    } else {
        None
    }
}

/// Map a non-2xx response body to a readable reason, where it is one of the
/// two error shapes the gateway answers with.
pub fn decode_error_body(text: &str) -> (r: Option<String>)
    ensures
        opt_text(r) == error_body_of_json(json_parse_of(text@)),
{
    let doc = parse_json(text);
    let v = match &doc {
        Ok(v) => v,
        Err(_) => return None,
    };
    let root = Some(v);
    let err = get(root, "error");
    let is_error = match as_str(get(root, "type")) {
        Some(t) => str_eq(t, "error"),
        None => false,
    };
    if is_error && is_object(err) {
        let mut m: Vec<char> = Vec::new();
        match as_str(get(err, "type")) {
            Some(t) => push_str(&mut m, t),
            None => push_str(&mut m, "error"),
        }
        push_str(&mut m, ": ");
        match as_str(get(err, "message")) {
            Some(t) => push_str(&mut m, t),
            None => push_str(&mut m, "unknown error"),
        }
        return Some(string_of(m.as_slice()));
    }
    if is_object(root) && is_object(err) {
        if let Some(msg) = as_str(get(err, "message")) {
            return Some(msg.to_owned());
        }
    }
    None
}

} // verus!
