//! Conversation turns, and the ChatML prompt the in-process model reads:
//! each turn between `<|im_start|>` and `<|im_end|>`, tool requests and tool
//! results flattened into readable text, the oldest turns dropped while the
//! prompt does not fit the context.
use vstd::prelude::*;
use crate::json::{array_of, as_array, as_str, get, get_of, json_text, json_text_of, str_of, Json};
use crate::ai::frames::{AiEvent, EventV, events_view};
use crate::error::AppError;
use crate::text::{push_chars, trim, trim_seq};
use crate::text::{join_with, push_joined, push_str, str_eq, string_of, strings_view};

verus! {

/// One turn of a conversation. `role` is `system`, `user`, `assistant` or
/// `tool`.
#[derive(Debug)]
pub struct ChatMessage {
    pub role: String,
    pub content: String,
    /// For a tool result: the id of the call it answers.
    pub tool_call_id: Option<String>,
    /// For an assistant turn that requests tools: the calls, in the OpenAI
    /// shape (`{"id","function":{"name","arguments"}}`).
    pub tool_calls: Option<Vec<Json>>,
}

impl ChatMessage {
    /// A system turn.
    pub fn system(content: String) -> (r: Self)
        ensures
            r.role@ == "system"@,
            r.content == content,
            r.tool_call_id is None,
            r.tool_calls is None,
    {
        ChatMessage { role: "system".to_string(), content, tool_call_id: None, tool_calls: None }
    }

    /// A user turn.
    pub fn user(content: String) -> (r: Self)
        ensures
            r.role@ == "user"@,
            r.content == content,
            r.tool_call_id is None,
            r.tool_calls is None,
    {
        ChatMessage { role: "user".to_string(), content, tool_call_id: None, tool_calls: None }
    }

    /// An assistant turn.
    pub fn assistant(content: String) -> (r: Self)
        ensures
            r.role@ == "assistant"@,
            r.content == content,
            r.tool_call_id is None,
            r.tool_calls is None,
    {
        ChatMessage { role: "assistant".to_string(), content, tool_call_id: None, tool_calls: None }
    }

    /// An assistant turn requesting tool executions.
    pub fn assistant_with_tool_calls(tool_calls: Vec<Json>) -> (r: Self)
        ensures
            r.role@ == "assistant"@,
            r.content@.len() == 0,
            r.tool_call_id is None,
            r.tool_calls == Some(tool_calls),
    {
        ChatMessage { role: "assistant".to_string(), content: String::new(), tool_call_id: None, tool_calls: Some(tool_calls) }
    }

    /// The result of one local tool execution.
    pub fn tool_result(tool_call_id: String, content: String) -> (r: Self)
        ensures
            r.role@ == "tool"@,
            r.content == content,
            r.tool_call_id == Some(tool_call_id),
            r.tool_calls is None,
    {
        ChatMessage { role: "tool".to_string(), content, tool_call_id: Some(tool_call_id), tool_calls: None }
    }
}

/// The tool name of a requested call: its `function.name`, where a text.
pub open spec fn call_name_of(c: Json) -> Option<Seq<char>> {
    str_of(get_of(get_of(Some(c), "function"@), "name"@))
}

/// The id of a requested call, where a text.
pub open spec fn call_id_of(c: Json) -> Option<Seq<char>> {
    str_of(get_of(Some(c), "id"@))
}

/// The (id, tool name) pairs the calls make known, in order.
pub open spec fn call_pairs(calls: Seq<Json>) -> Seq<(Seq<char>, Seq<char>)>
    decreases calls.len(),
{
    if calls.len() == 0 {
        Seq::empty()
    } else {
        let rest = call_pairs(calls.drop_last());
        match (call_id_of(calls.last()), call_name_of(calls.last())) {
            (Some(id), Some(n)) => rest.push((id, n)),
            _ => rest,
        }
    }
}

/// The (id, tool name) pairs all tool-requesting turns of `msgs` make known.
pub open spec fn learned_pairs(msgs: Seq<ChatMessage>) -> Seq<(Seq<char>, Seq<char>)>
    decreases msgs.len(),
{
    if msgs.len() == 0 {
        Seq::empty()
    } else {
        learned_pairs(msgs.drop_last()) + match msgs.last().tool_calls {
            Some(calls) => call_pairs(calls@),
            None => Seq::empty(),
        }
    }
}

/// The tool name last made known for `id`.
pub open spec fn name_for(pairs: Seq<(Seq<char>, Seq<char>)>, id: Seq<char>) -> Option<Seq<char>>
    decreases pairs.len(),
{
    if pairs.len() == 0 {
        None
    } else if pairs.last().0 == id {
        Some(pairs.last().1)
    } else {
        name_for(pairs.drop_last(), id)
    }
}

/// The arguments of a requested call as JSON text; `{}` where it has none.
pub open spec fn args_text_of(c: Json) -> Seq<char> {
    match get_of(get_of(Some(c), "function"@), "arguments"@) {
        Some(a) => json_text_of(a),
        None => "{}"@,
    }
}

/// The line a named call is flattened into: `{"tool":"NAME","args":ARGS}`.
pub open spec fn call_lines(calls: Seq<Json>) -> Seq<Seq<char>>
    decreases calls.len(),
{
    if calls.len() == 0 {
        Seq::empty()
    } else {
        let rest = call_lines(calls.drop_last());
        match call_name_of(calls.last()) {
            Some(n) => rest.push("{\"tool\":\""@ + n + "\",\"args\":"@ + args_text_of(calls.last()) + "}"@),
            None => rest,
        }
    }
}

/// The label of a tool result: the tool its call id names, else `data`.
pub open spec fn result_label(id: Option<String>, pairs: Seq<(Seq<char>, Seq<char>)>) -> Seq<char> {
    match id {
        Some(i) => match name_for(pairs, i@) {
            Some(n) => n,
            None => "data"@,
        },
        None => "data"@,
    }
}

/// One turn in ChatML, given the pairs known from the turns before it and
/// the text added to system turns. Turns of another role are left out.
pub open spec fn turn_of(m: ChatMessage, pairs: Seq<(Seq<char>, Seq<char>)>, extra: Seq<char>) -> Seq<char> {
    match m.tool_calls {
        Some(calls) => "<|im_start|>assistant\n"@ + join_with(call_lines(calls@), "\n"@) + "<|im_end|>\n"@,
        None => if m.role@ == "system"@ {
            "<|im_start|>system\n"@ + m.content@ + extra + "<|im_end|>\n"@
        } else if m.role@ == "user"@ {
            "<|im_start|>user\n"@ + m.content@ + "<|im_end|>\n"@
        } else if m.role@ == "tool"@ {
            "<|im_start|>user\n["@ + result_label(m.tool_call_id, pairs) + " RESULT]\n"@ + m.content@ + "<|im_end|>\n"@
        } else if m.role@ == "assistant"@ {
            "<|im_start|>assistant\n"@ + m.content@ + "<|im_end|>\n"@
        } else {
            Seq::empty()
        },
    }
}

/// The turns of `msgs` in ChatML, one after another.
pub open spec fn turns_of(msgs: Seq<ChatMessage>, extra: Seq<char>) -> Seq<char>
    decreases msgs.len(),
{
    if msgs.len() == 0 {
        Seq::empty()
    } else {
        turns_of(msgs.drop_last(), extra) + turn_of(msgs.last(), learned_pairs(msgs.drop_last()), extra)
    }
}

/// The instructions added to the system turn in the decision phase.
pub const DECISION_PROTOCOL: &'static str = "TOOL PROTOCOL: You may call ONE tool per turn. To call one, reply with exactly one JSON line: {\"tool\":\"NAME\",\"args\":{\"param\":\"value\"}}. When you have enough information, reply exactly {\"answer\":true}. After [TOOL RESULT] blocks appear, prefer answering. Use station codes when known.";

/// The text added to system turns: the decision protocol and the tool
/// manifest, where one is given.
pub open spec fn system_extra_of(manifest: Option<Seq<char>>) -> Seq<char> {
    match manifest {
        Some(m) => "\n\n"@ + DECISION_PROTOCOL@ + "\n"@ + m,
        None => Seq::empty(),
    }
}

/// The prompt from the turns of `msgs` from `keep_from` on: the turns, then
/// an open assistant turn, pre-seeded with `{"` in the decision phase.
pub open spec fn prompt_of(msgs: Seq<ChatMessage>, keep_from: int, manifest: Option<Seq<char>>, decide_prefix: bool) -> Seq<char> {
    turns_of(msgs.skip(keep_from), system_extra_of(manifest)) + "<|im_start|>assistant\n"@
        + if decide_prefix { "{\""@ } else { Seq::empty() }
}

/// (id, name) pairs as plain values.
pub open spec fn id_names_view(v: Seq<(String, String)>) -> Seq<(Seq<char>, Seq<char>)> {
    v.map_values(|p: (String, String)| (p.0@, p.1@))
}

fn learn_calls(known: &mut Vec<(String, String)>, calls: &Vec<Json>)
    ensures
        id_names_view(final(known)@) == id_names_view(old(known)@) + call_pairs(calls@),
{
    let ghost start = id_names_view(known@);
    let mut i: usize = 0;
    while i < calls.len()
        invariant
            0 <= i <= calls@.len(),
            id_names_view(known@) == start + call_pairs(calls@.take(i as int)),
        decreases calls@.len() - i,
    {
        proof {
            assert(calls@.take(i + 1).drop_last() =~= calls@.take(i as int));
            assert(calls@.take(i + 1).last() == calls@[i as int]);
        }
        let c = &calls[i];
        let id = as_str(get(Some(c), "id"));
        let name = as_str(get(get(Some(c), "function"), "name"));
        match (id, name) {
            (Some(id), Some(n)) => {
                let ghost before = known@;
                known.push((id.to_string(), n.to_string()));
                proof {
                    assert(id_names_view(known@) =~= id_names_view(before).push((id@, n@)));
                }
            },
            _ => {},
        }
        i = i + 1;
    }
    proof {
        assert(calls@.take(calls@.len() as int) =~= calls@);
    }
}

fn lines_of_calls(calls: &Vec<Json>) -> (r: Vec<String>)
    ensures
        strings_view(r@) == call_lines(calls@),
{
    let mut out: Vec<String> = Vec::new();
    let mut i: usize = 0;
    while i < calls.len()
        invariant
            0 <= i <= calls@.len(),
            strings_view(out@) == call_lines(calls@.take(i as int)),
        decreases calls@.len() - i,
    {
        proof {
            assert(calls@.take(i + 1).drop_last() =~= calls@.take(i as int));
            assert(calls@.take(i + 1).last() == calls@[i as int]);
        }
        let c = &calls[i];
        match as_str(get(get(Some(c), "function"), "name")) {
            Some(n) => {
                let mut line: Vec<char> = Vec::new();
                push_str(&mut line, "{\"tool\":\"");
                push_str(&mut line, n);
                push_str(&mut line, "\",\"args\":");
                match get(get(Some(c), "function"), "arguments") {
                    Some(a) => {
                        let t = json_text(a);
                        push_str(&mut line, t.as_str());
                    },
                    None => push_str(&mut line, "{}"),
                }
                push_str(&mut line, "}");
                let l = string_of(line.as_slice());
                let ghost before = out@;
                out.push(l);
                proof {
                    assert(strings_view(out@) =~= strings_view(before).push(l@));
                }
            },
            None => {},
        }
        i = i + 1;
    }
    proof {
        assert(calls@.take(calls@.len() as int) =~= calls@);
    }
    out
}

fn label_for(known: &Vec<(String, String)>, id: &Option<String>) -> (r: String)
    ensures
        r@ == result_label(*id, id_names_view(known@)),
{
    match id {
        Some(i) => {
            let mut k: usize = known.len();
            proof {
                assert(id_names_view(known@).take(k as int) =~= id_names_view(known@));
            }
            while k > 0
                invariant
                    0 <= k <= known@.len(),
                    *id == Some(*i),
                    name_for(id_names_view(known@), i@) == name_for(id_names_view(known@).take(k as int), i@),
                decreases k,
            {
                proof {
                    assert(id_names_view(known@).take(k as int).drop_last() =~= id_names_view(known@).take(k - 1));
                }
                if str_eq(known[k - 1].0.as_str(), i.as_str()) {
                    proof {
                        assert(id_names_view(known@).take(k as int).last() == (known@[k - 1].0@, known@[k - 1].1@));
                    }
                    return known[k - 1].1.clone();
                }
                k = k - 1;
            }
            "data".to_string()
        },
        None => "data".to_string(),
    }
}

fn push_turn(out: &mut Vec<char>, m: &ChatMessage, known: &Vec<(String, String)>, extra: &str)
    ensures
        final(out)@ == old(out)@ + turn_of(*m, id_names_view(known@), extra@),
{
    match &m.tool_calls {
        Some(calls) => {
            push_str(out, "<|im_start|>assistant\n");
            let lines = lines_of_calls(calls);
            push_joined(out, lines.as_slice(), "\n");
            push_str(out, "<|im_end|>\n");
        },
        None => {
            let role = m.role.as_str();
            if str_eq(role, "system") {
                push_str(out, "<|im_start|>system\n");
                push_str(out, m.content.as_str());
                push_str(out, extra);
                push_str(out, "<|im_end|>\n");
            } else if str_eq(role, "user") {
                push_str(out, "<|im_start|>user\n");
                push_str(out, m.content.as_str());
                push_str(out, "<|im_end|>\n");
            } else if str_eq(role, "tool") {
                push_str(out, "<|im_start|>user\n[");
                let label = label_for(known, &m.tool_call_id);
                push_str(out, label.as_str());
                push_str(out, " RESULT]\n");
                push_str(out, m.content.as_str());
                push_str(out, "<|im_end|>\n");
            } else if str_eq(role, "assistant") {
                push_str(out, "<|im_start|>assistant\n");
                push_str(out, m.content.as_str());
                push_str(out, "<|im_end|>\n");
            } else {
                proof {
                    assert(old(out)@ + Seq::<char>::empty() =~= old(out)@);
                }
            }
        },
    }
}

/// The ChatML prompt from the turns of `messages` from `keep_from` on (none
/// where `keep_from` is past the end), with the decision protocol and
/// `tool_manifest` added to system turns where a manifest is given.
pub fn render_prompt(messages: &[ChatMessage], keep_from: usize, tool_manifest: Option<&str>, decide_prefix: bool) -> (r: String)
    ensures
        r@ == prompt_of(
            messages@,
            if keep_from <= messages@.len() { keep_from as int } else { messages@.len() as int },
            match tool_manifest {
                Some(m) => Some(m@),
                None => None,
            },
            decide_prefix,
        ),
{
    let mut extra: Vec<char> = Vec::new();
    match tool_manifest {
        Some(m) => {
            push_str(&mut extra, "\n\n");
            push_str(&mut extra, DECISION_PROTOCOL);
            push_str(&mut extra, "\n");
            push_str(&mut extra, m);
        },
        None => {},
    }
    let extra = string_of(extra.as_slice());
    let ghost ex = system_extra_of(match tool_manifest {
        Some(m) => Some(m@),
        None => None,
    });
    assert(extra@ == ex);
    let start: usize = if keep_from <= messages.len() { keep_from } else { messages.len() };
    let mut out: Vec<char> = Vec::new();
    let mut known: Vec<(String, String)> = Vec::new();
    let mut i: usize = start;
    proof {
        assert(messages@.subrange(start as int, start as int) =~= Seq::<ChatMessage>::empty());
    }
    while i < messages.len()
        invariant
            start <= i <= messages@.len(),
            extra@ == ex,
            out@ == turns_of(messages@.subrange(start as int, i as int), ex),
            id_names_view(known@) == learned_pairs(messages@.subrange(start as int, i as int)),
        decreases messages@.len() - i,
    {
        let ghost seen = messages@.subrange(start as int, i as int);
        proof {
            assert(messages@.subrange(start as int, i + 1).drop_last() =~= seen);
            assert(messages@.subrange(start as int, i + 1).last() == messages@[i as int]);
        }
        let m = &messages[i];
        push_turn(&mut out, m, &known, extra.as_str());
        match &m.tool_calls {
            Some(calls) => learn_calls(&mut known, calls),
            None => {
                proof {
                    assert(id_names_view(known@) + Seq::<(Seq<char>, Seq<char>)>::empty() =~= id_names_view(known@));
                }
            },
        }
        i = i + 1;
    }
    push_str(&mut out, "<|im_start|>assistant\n");
    if decide_prefix {
        push_str(&mut out, "{\"");
    } else {
        proof {
            assert(out@ + Seq::<char>::empty() =~= out@);
        }
    }
    proof {
        assert(messages@.subrange(start as int, messages@.len() as int) =~= messages@.skip(start as int));
    }
    string_of(out.as_slice())
}

/// Tokens kept free for the generation when the history is clamped.
pub const GENERATION_RESERVE: usize = 96;

/// The prompt's token budget: the context less the generation's share and
/// the reserve, but never under 256.
pub open spec fn budget_of(ctx: usize, reserve: usize) -> int {
    let b = if ctx >= reserve + GENERATION_RESERVE { ctx - reserve - GENERATION_RESERVE } else { 0 };
    if b >= 256 { b } else { 256 }
}

/// The prompt's token budget for a context of `ctx` tokens when `reserve`
/// tokens are wanted for the reply.
pub fn prompt_budget(ctx: usize, reserve: usize) -> (r: usize)
    requires
        reserve + GENERATION_RESERVE <= usize::MAX,
    ensures
        r == budget_of(ctx, reserve),
{
    let want = reserve + GENERATION_RESERVE;
    let b = if ctx >= want { ctx - want } else { 0 };
    if b >= 256 { b } else { 256 }
}

/// Where the history starts next while a prompt of `n_tokens` does not fit
/// `budget`: one turn later, and past a system turn there unless it is the
/// last; `None` once the prompt fits or only the last turn is left.
pub open spec fn next_start_of(msgs: Seq<ChatMessage>, keep_from: int, n_tokens: int, budget: int) -> Option<int> {
    if n_tokens <= budget || keep_from + 1 >= msgs.len() {
        None
    } else if msgs[keep_from + 1].role@ == "system"@ && keep_from + 2 < msgs.len() {
        Some(keep_from + 2)
    } else {
        Some(keep_from + 1)
    }
}

/// Where the history starts for the next rendering.
pub fn next_start(messages: &[ChatMessage], keep_from: usize, n_tokens: usize, budget: usize) -> (r: Option<usize>)
    ensures
        match r {
            Some(k) => next_start_of(messages@, keep_from as int, n_tokens as int, budget as int) == Some(k as int),
            None => next_start_of(messages@, keep_from as int, n_tokens as int, budget as int) is None,
        },
{
    if n_tokens <= budget || keep_from >= messages.len() || keep_from + 1 >= messages.len() {
        return None;
    }
    let k = keep_from + 1;
    if str_eq(messages[k].role.as_str(), "system") && k + 1 < messages.len() {
        Some(k + 1)
    } else {
        Some(k)
    }
}

/// Clamping moves forward and always keeps the last turn, so the loop that
/// re-renders after each step ends.
pub proof fn lemma_clamp_progresses(msgs: Seq<ChatMessage>, keep_from: int, n_tokens: int, budget: int)
    ensures
        next_start_of(msgs, keep_from, n_tokens, budget) matches Some(k) ==> keep_from < k < msgs.len(),
        n_tokens <= budget ==> next_start_of(msgs, keep_from, n_tokens, budget) is None,
{
}

/// `j` is the turn `m` as the gateway reads it: `role` and `content`, then
/// `tool_call_id` and `tool_calls` only where present.
pub open spec fn message_json(j: Json, m: ChatMessage) -> bool {
    match j {
        Json::Object(fs) => {
            &&& fs@.len() == 2 + (if m.tool_call_id is Some { 1int } else { 0int }) + (if m.tool_calls is Some {
                1int
            } else {
                0int
            })
            &&& fs@[0].0@ == "role"@ && fs@[0].1 == Json::Str(m.role)
            &&& fs@[1].0@ == "content"@ && fs@[1].1 == Json::Str(m.content)
            &&& m.tool_call_id matches Some(id) ==> fs@[2].0@ == "tool_call_id"@ && fs@[2].1 == Json::Str(id)
            &&& m.tool_calls matches Some(calls) ==> fs@[fs@.len() - 1].0@ == "tool_calls"@ && fs@[fs@.len() - 1].1
                == Json::Array(calls)
        },
        _ => false,
    }
}

impl ChatMessage {
    /// The turn as the gateway reads it: `role` and `content`, then
    /// `tool_call_id` and `tool_calls` only where present.
    pub fn into_json(self) -> (r: Json)
        ensures
            message_json(r, self),
    {
        let mut fs: Vec<(String, Json)> = Vec::new();
        fs.push(("role".to_string(), Json::Str(self.role)));
        fs.push(("content".to_string(), Json::Str(self.content)));
        match self.tool_call_id {
            Some(id) => fs.push(("tool_call_id".to_string(), Json::Str(id))),
            None => {},
        }
        match self.tool_calls {
            Some(calls) => fs.push(("tool_calls".to_string(), Json::Array(calls))),
            None => {},
        }
        Json::Object(fs)
    }
}

/// The ids of the models a `/models` answer lists: the text `id` of each
/// element of its `data` array (others skipped); none without such an array.
pub open spec fn model_ids_of(v: Json) -> Seq<Seq<char>> {
    match array_of(get_of(Some(v), "data"@)) {
        Some(a) => ids_in(a),
        None => Seq::empty(),
    }
}

/// The text ids of `ms`, in order.
pub open spec fn ids_in(ms: Seq<Json>) -> Seq<Seq<char>>
    decreases ms.len(),
{
    if ms.len() == 0 {
        Seq::empty()
    } else {
        let rest = ids_in(ms.drop_last());
        match str_of(get_of(Some(ms.last()), "id"@)) {
            Some(t) => rest.push(t),
            None => rest,
        }
    }
}

/// The ids of the models a `/models` answer lists.
pub fn model_ids(v: &Json) -> (r: Vec<String>)
    ensures
        strings_view(r@) == model_ids_of(*v),
{
    let mut out: Vec<String> = Vec::new();
    match as_array(get(Some(v), "data")) {
        Some(a) => {
            let mut i: usize = 0;
            while i < a.len()
                invariant
                    0 <= i <= a@.len(),
                    strings_view(out@) == ids_in(a@.take(i as int)),
                decreases a@.len() - i,
            {
                proof {
                    assert(a@.take(i + 1).drop_last() =~= a@.take(i as int));
                    assert(a@.take(i + 1).last() == a@[i as int]);
                }
                match as_str(get(Some(&a[i]), "id")) {
                    Some(t) => {
                        let ghost before = out@;
                        out.push(t.to_string());
                        proof {
                            assert(strings_view(out@) =~= strings_view(before).push(t@));
                        }
                    },
                    None => {},
                }
                i = i + 1;
            }
            proof {
                assert(a@.take(a@.len() as int) =~= a@);
            }
        },
        None => {},
    }
    out
}

/// The answer text of a completion: its `Delta` texts one after another.
pub open spec fn answer_text_of(evs: Seq<EventV>) -> Seq<char>
    decreases evs.len(),
{
    if evs.len() == 0 {
        Seq::empty()
    } else {
        answer_text_of(evs.drop_last()) + match evs.last() {
            EventV::Delta(t) => t,
            _ => Seq::empty(),
        }
    }
}

/// The token usage of a completion: that of its last `Done`, else none.
pub open spec fn usage_of(evs: Seq<EventV>) -> (u64, u64)
    decreases evs.len(),
{
    if evs.len() == 0 {
        (0, 0)
    } else {
        match evs.last() {
            EventV::Done(p, c) => (p, c),
            _ => usage_of(evs.drop_last()),
        }
    }
}

/// A whole completion read from its events: the answer text and the prompt
/// and completion token counts; a completion whose text is blank fails
/// `source` for `empty_reason`.
pub fn complete_from(events: &[AiEvent], source: &str, empty_reason: &str) -> (r: Result<(String, u64, u64), AppError>)
    ensures
        match r {
            Ok((t, p, c)) => t@ == answer_text_of(events_view(events@)) && trim_seq(t@).len() > 0
                && (p, c) == usage_of(events_view(events@)),
            Err(e) => trim_seq(answer_text_of(events_view(events@))).len() == 0
                && (e matches AppError::SourceUnavailable { source: s, reason } && s@ == source@ && reason@ == empty_reason@),
        },
{
    let mut text: Vec<char> = Vec::new();
    let mut usage: (u64, u64) = (0, 0);
    let ghost evs = events_view(events@);
    let mut i: usize = 0;
    while i < events.len()
        invariant
            0 <= i <= events@.len(),
            evs == events_view(events@),
            text@ == answer_text_of(evs.take(i as int)),
            usage == usage_of(evs.take(i as int)),
        decreases events@.len() - i,
    {
        proof {
            assert(evs.take(i + 1).drop_last() =~= evs.take(i as int));
            assert(evs.take(i + 1).last() == events@[i as int]@);
        }
        match &events[i] {
            AiEvent::Delta(t) => {
                push_str(&mut text, t.as_str());
            },
            AiEvent::Done { prompt_tokens, completion_tokens } => {
                usage = (*prompt_tokens, *completion_tokens);
                proof {
                    assert(text@ =~= text@ + Seq::<char>::empty());
                }
            },
            _ => {
                proof {
                    assert(text@ =~= text@ + Seq::<char>::empty());
                }
            },
        }
        i = i + 1;
    }
    proof {
        assert(evs.take(events@.len() as int) =~= evs);
    }
    let t = string_of(text.as_slice());
    if trim(t.as_str()).is_empty() {
        return Err(AppError::source_unavailable(source, empty_reason));
    }
    Ok((t, usage.0, usage.1))
}

/// A streamed chat request: `model`, the turns as JSON, `stream` on, and
/// `tools` only where any are offered.
pub fn chat_request(model: &str, messages: Vec<ChatMessage>, tools: Vec<Json>) -> (r: Json)
    ensures
        match r {
            Json::Object(fs) => {
                &&& fs@.len() == if tools@.len() > 0 { 4int } else { 3int }
                &&& fs@[0].0@ == "model"@ && (fs@[0].1 matches Json::Str(m) && m@ == model@)
                &&& fs@[1].0@ == "messages"@ && (fs@[1].1 matches Json::Array(a) && a@.len() == messages@.len()
                    && forall|t: int| 0 <= t < a@.len() ==> message_json(#[trigger] a@[t], messages@[t]))
                &&& fs@[2].0@ == "stream"@ && fs@[2].1 == Json::Bool(true)
                &&& tools@.len() > 0 ==> fs@[3].0@ == "tools"@ && fs@[3].1 == Json::Array(tools)
            },
            _ => false,
        },
{
    let mut msgs = messages;
    let ghost all = msgs@;
    let mut out: Vec<Json> = Vec::new();
    while msgs.len() > 0
        invariant
            out@.len() <= all.len(),
            msgs@ == all.skip(out@.len() as int),
            forall|t: int| 0 <= t < out@.len() ==> message_json(#[trigger] out@[t], all[t]),
        decreases msgs@.len(),
    {
        let ghost k = out@.len();
        let m = msgs.remove(0);
        proof {
            assert(m == all[k as int]);
            assert(msgs@ =~= all.skip(k as int + 1));
        }
        out.push(m.into_json());
    }
    let mut fs: Vec<(String, Json)> = Vec::new();
    fs.push(("model".to_string(), Json::Str(model.to_string())));
    fs.push(("messages".to_string(), Json::Array(out)));
    fs.push(("stream".to_string(), Json::Bool(true)));
    if tools.len() > 0 {
        fs.push(("tools".to_string(), Json::Array(tools)));
    }
    Json::Object(fs)
}

} // verus!
