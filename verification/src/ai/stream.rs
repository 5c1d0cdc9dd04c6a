//! The decoding state of one streamed completion. The byte stream itself is
//! driven by the caller: it asks for a step, and where the state needs more
//! bytes it feeds the next chunk, reports a read failure, or the end.
use vstd::prelude::*;
use std::collections::VecDeque;
use crate::ai::frames::{
    events_view, frags_view, parse_data_frame, parsed_of, AiEvent, AssembledToolCall, EventV, Parsed, ParsedV,
    ToolFrag,
};
use crate::ai::sse::{next_frame, tail_frame, Frame, FrameV, SseDecoder};
use crate::error::AppError;
use crate::text::{decimal, push_decimal, push_str, string_of};

verus! {

/// A tool call being merged from its streamed pieces, as plain values:
/// id, function name, argument text.
pub type AccV = (Seq<char>, Seq<char>, Seq<char>);

/// A streamed tool-call piece, as plain values: index, id, name, arguments.
pub type FragV = (u64, Option<Seq<char>>, Option<Seq<char>>, Seq<char>);

/// Merge accumulator for one streamed tool call.
#[derive(Debug)]
pub struct ToolAccum {
    pub id: String,
    pub name: String,
    pub arguments: String,
}

impl View for ToolAccum {
    type V = AccV;

    open spec fn view(&self) -> AccV {
        (self.id@, self.name@, self.arguments@)
    }
}

/// The call a merged accumulator stands for; without an id of its own it
/// takes `fallback`.
pub open spec fn assemble_of(a: AccV, fallback: Seq<char>) -> (Seq<char>, Seq<char>, Seq<char>) {
    (if a.0.len() == 0 { fallback } else { a.0 }, a.1, a.2)
}

impl ToolAccum {
    /// An accumulator with nothing merged yet.
    pub fn new() -> (r: Self)
        ensures
            r@ == empty_acc(),
    {
        ToolAccum { id: String::new(), name: String::new(), arguments: String::new() }
    }

    /// The assembled call; `fallback_id` stands in for a missing id.
    pub fn assemble(self, fallback_id: String) -> (r: AssembledToolCall)
        ensures
            r@ == assemble_of(self@, fallback_id@),
    {
        AssembledToolCall {
            id: if self.id.as_str().is_empty() {
                fallback_id
            } else {
                self.id
            },
            name: self.name,
            arguments: self.arguments,
        }
    }
}

/// An accumulator with nothing merged.
pub open spec fn empty_acc() -> AccV {
    (Seq::empty(), Seq::empty(), Seq::empty())
}

/// Merge one piece into an accumulator: a given id or name replaces the
/// one held, the argument text is appended.
pub open spec fn update_acc(a: AccV, f: FragV) -> AccV {
    (
        match f.1 {
            Some(id) => id,
            None => a.0,
        },
        match f.2 {
            Some(n) => n,
            None => a.1,
        },
        a.2 + f.3,
    )
}

/// Merge one piece into the accumulators, kept in ascending index order:
/// into the one with the piece's index, or into a new one at its place.
pub open spec fn merge_frag(t: Seq<(u64, AccV)>, f: FragV) -> Seq<(u64, AccV)>
    decreases t.len(),
{
    if t.len() == 0 {
        seq![(f.0, update_acc(empty_acc(), f))]
    } else if t[0].0 == f.0 {
        seq![(f.0, update_acc(t[0].1, f))] + t.drop_first()
    } else if t[0].0 > f.0 {
        seq![(f.0, update_acc(empty_acc(), f))] + t
    } else {
        seq![t[0]] + merge_frag(t.drop_first(), f)
    }
}

/// Merge pieces in order.
pub open spec fn merge_frags(t: Seq<(u64, AccV)>, fs: Seq<FragV>) -> Seq<(u64, AccV)>
    decreases fs.len(),
{
    if fs.len() == 0 {
        t
    } else {
        merge_frag(merge_frags(t, fs.drop_last()), fs.last())
    }
}

/// The id given to the `i`-th call that came without one.
pub open spec fn call_id(i: int) -> Seq<char> {
    "call_"@ + decimal(i as nat)
}

/// The assembled calls, in index order.
pub open spec fn assembled(t: Seq<(u64, AccV)>) -> Seq<(Seq<char>, Seq<char>, Seq<char>)> {
    Seq::new(t.len(), |i: int| assemble_of(t[i].1, call_id(i)))
}

/// The pending events once the merged tool calls are queued behind them.
pub open spec fn with_tools(pending: Seq<EventV>, t: Seq<(u64, AccV)>) -> Seq<EventV> {
    if t.len() == 0 {
        pending
    } else {
        pending.push(EventV::ToolCalls(assembled(t)))
    }
}

/// The events of a frame other than the usage report, in order.
pub open spec fn content_events(evs: Seq<EventV>) -> Seq<EventV>
    decreases evs.len(),
{
    if evs.len() == 0 {
        Seq::empty()
    } else if evs.last() is Done {
        content_events(evs.drop_last())
    } else {
        content_events(evs.drop_last()).push(evs.last())
    }
}

/// The latest usage report among `evs`, else `t`.
pub open spec fn last_usage(evs: Seq<EventV>, t: Option<EventV>) -> Option<EventV>
    decreases evs.len(),
{
    if evs.len() == 0 {
        t
    } else if evs.last() is Done {
        Some(evs.last())
    } else {
        last_usage(evs.drop_last(), t)
    }
}

/// The decoding state as plain values.
pub struct StreamV {
    /// Bytes received and not yet decoded.
    pub buffer: Seq<u8>,
    /// Events decoded and not yet handed out.
    pub pending: Seq<EventV>,
    /// The usage report, handed out last.
    pub terminal: Option<EventV>,
    /// Tool calls being merged, in ascending index order.
    pub tools: Seq<(u64, AccV)>,
    /// The terminal event or error has been handed out.
    pub finished: bool,
}

/// What a step of the state machine produced.
#[derive(Debug)]
pub enum Step {
    /// An event or a failure for the consumer.
    Emit(Result<AiEvent, AppError>),
    /// A frame was consumed without anything to hand out.
    Continue,
    /// More bytes are needed: feed a chunk, or report a failure or the end.
    NeedBytes,
    /// The stream is over.
    Finished,
}

/// `e` is the event `v` describes.
pub open spec fn emits_event(r: Step, v: EventV) -> bool {
    r matches Step::Emit(Ok(e)) && e@ == v
}

/// `r` is a failure of the `zen` source for `why`.
pub open spec fn zen_failure(r: Result<AiEvent, AppError>, why: Seq<char>) -> bool {
    r matches Err(AppError::SourceUnavailable { source, reason }) && source@ == "zen"@ && reason@ == why
}

/// The terminal event: the usage report, or zero usage.
pub open spec fn terminal_or_zero(t: Option<EventV>) -> EventV {
    match t {
        Some(e) => e,
        None => EventV::Done(0, 0),
    }
}

/// The decoding state of one streamed completion.
pub struct StreamState {
    dec: SseDecoder,
    pending: VecDeque<AiEvent>,
    terminal: Option<AiEvent>,
    tool_acc: Vec<(u64, ToolAccum)>,
    finished: bool,
}

/// Accumulators as plain values.
pub open spec fn accs_view(t: Seq<(u64, ToolAccum)>) -> Seq<(u64, AccV)> {
    t.map_values(|p: (u64, ToolAccum)| (p.0, p.1@))
}

/// An optional event as a plain value.
pub open spec fn opt_event(o: Option<AiEvent>) -> Option<EventV> {
    match o {
        Some(e) => Some(e@),
        None => None,
    }
}

impl View for StreamState {
    type V = StreamV;

    closed spec fn view(&self) -> StreamV {
        StreamV {
            buffer: self.dec@,
            pending: events_view(self.pending@),
            terminal: opt_event(self.terminal),
            tools: accs_view(self.tool_acc@),
            finished: self.finished,
        }
    }
}

/// The accumulators after one merge step of `merge_frag` at position `p`:
/// everything before `p` has a smaller index and stays as it is.
proof fn lemma_merge_prefix(t: Seq<(u64, AccV)>, f: FragV, p: int)
    requires
        0 <= p < t.len(),
        t[p].0 < f.0,
    ensures
        merge_frag(t.skip(p), f) == seq![t[p]] + merge_frag(t.skip(p + 1), f),
{
    assert(t.skip(p).drop_first() =~= t.skip(p + 1));
}

/// Merge one piece into the accumulators.
fn merge_one(tools: &mut Vec<(u64, ToolAccum)>, f: ToolFrag)
    ensures
        accs_view(final(tools)@) == merge_frag(accs_view(old(tools)@), f@),
{
    let ghost t = accs_view(tools@);
    let mut p: usize = 0;
    proof {
        assert(t.skip(0) =~= t);
        assert(t.take(0) + merge_frag(t.skip(0), f@) =~= merge_frag(t, f@));
    }
    while p < tools.len() && tools[p].0 < f.index
        invariant
            0 <= p <= tools@.len(),
            t == accs_view(tools@),
            merge_frag(t, f@) == t.take(p as int) + merge_frag(t.skip(p as int), f@),
        decreases tools@.len() - p,
    {
        proof {
            lemma_merge_prefix(t, f@, p as int);
            assert(t.take(p as int) + (seq![t[p as int]] + merge_frag(t.skip(p + 1), f@)) =~= t.take(p + 1)
                + merge_frag(t.skip(p + 1), f@));
        }
        p = p + 1;
    }
    let ToolFrag { index, id, name, args_delta } = f;
    let found = p < tools.len() && tools[p].0 == index;
    let mut acc = if found {
        let (_, a) = tools.remove(p);
        a
    } else {
        ToolAccum::new()
    };
    let ghost a0 = acc@;
    match id {
        Some(s) => acc.id = s,
        None => {},
    }
    match name {
        Some(s) => acc.name = s,
        None => {},
    }
    let mut args: Vec<char> = Vec::new();
    push_str(&mut args, acc.arguments.as_str());
    push_str(&mut args, args_delta.as_str());
    acc.arguments = string_of(args.as_slice());
    proof {
        assert(acc@ == update_acc(a0, f@));
    }
    tools.insert(p, (index, acc));
    proof {
        let s = t.skip(p as int);
        if found {
            assert(s[0] == t[p as int]);
            assert(accs_view(tools@) =~= t.take(p as int) + (seq![(f@.0, update_acc(s[0].1, f@))] + s.drop_first()));
        } else if p < t.len() {
            assert(s[0] == t[p as int]);
            assert(accs_view(tools@) =~= t.take(p as int) + (seq![(f@.0, update_acc(empty_acc(), f@))] + s));
        } else {
            assert(s.len() == 0);
            assert(accs_view(tools@) =~= t.take(p as int) + seq![(f@.0, update_acc(empty_acc(), f@))]);
        }
    }
}

impl StreamState {
    /// A fresh stream: nothing buffered, decoded or merged.
    pub fn new() -> (r: Self)
        ensures
            r@.buffer == Seq::<u8>::empty(),
            r@.pending == Seq::<EventV>::empty(),
            r@.terminal is None,
            r@.tools == Seq::<(u64, AccV)>::empty(),
            !r@.finished,
    {
        let r = StreamState {
            dec: SseDecoder::new(),
            pending: VecDeque::new(),
            terminal: None,
            tool_acc: Vec::new(),
            finished: false,
        };
        proof {
            assert(events_view(r.pending@) =~= Seq::<EventV>::empty());
            assert(accs_view(r.tool_acc@) =~= Seq::<(u64, AccV)>::empty());
        }
        r
    }

    /// Queue a frame's content events; its usage report becomes the
    /// terminal event.
    pub fn note_events(&mut self, evs: Vec<AiEvent>)
        ensures
            final(self)@.pending == old(self)@.pending + content_events(events_view(evs@)),
            final(self)@.terminal == last_usage(events_view(evs@), old(self)@.terminal),
            final(self)@.buffer == old(self)@.buffer,
            final(self)@.tools == old(self)@.tools,
            final(self)@.finished == old(self)@.finished,
    {
        let ghost p0 = events_view(self.pending@);
        let ghost t0 = opt_event(self.terminal);
        let ghost all = events_view(evs@);
        let n = evs.len();
        let mut rest = evs;
        let mut i: usize = 0;
        proof {
            assert(all.skip(0) =~= all);
            assert(all.take(0) =~= Seq::<EventV>::empty());
            assert(p0 + content_events(all.take(0)) =~= p0);
        }
        while i < n
            invariant
                0 <= i <= n,
                n == all.len(),
                rest@.len() == n - i,
                events_view(rest@) == all.skip(i as int),
                self.dec == old(self).dec,
                self.tool_acc == old(self).tool_acc,
                self.finished == old(self).finished,
                events_view(self.pending@) == p0 + content_events(all.take(i as int)),
                opt_event(self.terminal) == last_usage(all.take(i as int), t0),
            decreases n - i,
        {
            let ghost r0 = rest@;
            let ev = rest.remove(0);
            proof {
                assert(all.take(i + 1).drop_last() =~= all.take(i as int));
                assert(events_view(r0)[0] == ev@);
                assert(all.skip(i as int)[0] == ev@);
                assert(all.take(i + 1).last() == ev@);
                assert(rest@ =~= r0.remove(0));
                assert(events_view(rest@) =~= events_view(r0).drop_first());
                assert(all.skip(i as int).drop_first() =~= all.skip(i + 1));
            }
            let ghost pv = events_view(self.pending@);
            match ev {
                AiEvent::Done { .. } => {
                    self.terminal = Some(ev);
                },
                other => {
                    self.pending.push_back(other);
                    proof {
                        assert(events_view(self.pending@) =~= pv.push(other@));
                    }
                },
            }
            i = i + 1;
        }
        proof {
            assert(all.take(n as int) =~= all);
        }
    }

    /// Merge a frame's tool-call pieces.
    pub fn note_tool_frags(&mut self, frags: Vec<ToolFrag>)
        ensures
            final(self)@.tools == merge_frags(old(self)@.tools, frags_view(frags@)),
            final(self)@.buffer == old(self)@.buffer,
            final(self)@.pending == old(self)@.pending,
            final(self)@.terminal == old(self)@.terminal,
            final(self)@.finished == old(self)@.finished,
    {
        let ghost t0 = accs_view(self.tool_acc@);
        let ghost all = frags_view(frags@);
        let n = frags.len();
        let mut rest = frags;
        let mut i: usize = 0;
        proof {
            assert(all.skip(0) =~= all);
            assert(all.take(0) =~= Seq::<FragV>::empty());
        }
        while i < n
            invariant
                0 <= i <= n,
                n == all.len(),
                rest@.len() == n - i,
                frags_view(rest@) == all.skip(i as int),
                self.dec == old(self).dec,
                self.pending == old(self).pending,
                self.terminal == old(self).terminal,
                self.finished == old(self).finished,
                accs_view(self.tool_acc@) == merge_frags(t0, all.take(i as int)),
            decreases n - i,
        {
            let ghost r0 = rest@;
            let f = rest.remove(0);
            proof {
                assert(all.take(i + 1).drop_last() =~= all.take(i as int));
                assert(frags_view(r0)[0] == f@);
                assert(all.skip(i as int)[0] == f@);
                assert(all.take(i + 1).last() == f@);
                assert(rest@ =~= r0.remove(0));
                assert(frags_view(rest@) =~= frags_view(r0).drop_first());
                assert(all.skip(i as int).drop_first() =~= all.skip(i + 1));
            }
            merge_one(&mut self.tool_acc, f);
            i = i + 1;
        }
        proof {
            assert(all.take(n as int) =~= all);
        }
    }

    /// Queue the merged tool calls, in index order, behind the pending
    /// events; the accumulators are emptied.
    pub fn flush_tools_to_pending(&mut self)
        ensures
            final(self)@.pending == with_tools(old(self)@.pending, old(self)@.tools),
            final(self)@.tools == Seq::<(u64, AccV)>::empty(),
            final(self)@.buffer == old(self)@.buffer,
            final(self)@.terminal == old(self)@.terminal,
            final(self)@.finished == old(self)@.finished,
    {
        if self.tool_acc.len() == 0 {
            proof {
                assert(accs_view(self.tool_acc@) =~= Seq::<(u64, AccV)>::empty());
            }
            return;
        }
        let mut accs: Vec<(u64, ToolAccum)> = Vec::new();
        std::mem::swap(&mut accs, &mut self.tool_acc);
        let ghost t = accs_view(accs@);
        let n = accs.len();
        let mut calls: Vec<AssembledToolCall> = Vec::new();
        let mut i: usize = 0;
        proof {
            assert(t.skip(0) =~= t);
            assert(calls@.map_values(|c: AssembledToolCall| c@) =~= assembled(t).take(0));
        }
        while i < n
            invariant
                0 <= i <= n,
                n == t.len(),
                accs@.len() == n - i,
                accs_view(accs@) == t.skip(i as int),
                calls@.map_values(|c: AssembledToolCall| c@) == assembled(t).take(i as int),
            decreases n - i,
        {
            let ghost a0 = accs@;
            let (_, acc) = accs.remove(0);
            proof {
                assert(accs_view(a0)[0].1 == acc@);
                assert(t.skip(i as int)[0].1 == acc@);
                assert(accs@ =~= a0.remove(0));
                assert(accs_view(accs@) =~= accs_view(a0).drop_first());
                assert(t.skip(i as int).drop_first() =~= t.skip(i + 1));
            }
            let mut idv: Vec<char> = Vec::new();
            push_str(&mut idv, "call_");
            push_decimal(&mut idv, i as u64);
            let call = acc.assemble(string_of(idv.as_slice()));
            let ghost cv = calls@.map_values(|c: AssembledToolCall| c@);
            calls.push(call);
            proof {
                assert(calls@.map_values(|c: AssembledToolCall| c@) =~= cv.push(call@));
                assert(assembled(t).take(i + 1) =~= assembled(t).take(i as int).push(assembled(t)[i as int]));
            }
            i = i + 1;
        }
        proof {
            assert(assembled(t).take(n as int) =~= assembled(t));
        }
        let ghost pv = events_view(self.pending@);
        let ev = AiEvent::ToolCalls(calls);
        self.pending.push_back(ev);
        proof {
            assert(events_view(self.pending@) =~= pv.push(ev@));
            assert(accs_view(self.tool_acc@) =~= Seq::<(u64, AccV)>::empty());
        }
    }

    /// Mark the stream finished and give the terminal event: the usage
    /// report where one came, zero usage otherwise.
    pub fn finish(&mut self) -> (r: AiEvent)
        ensures
            r@ == terminal_or_zero(old(self)@.terminal),
            final(self)@.finished,
            final(self)@.terminal is None,
            final(self)@.buffer == old(self)@.buffer,
            final(self)@.pending == old(self)@.pending,
            final(self)@.tools == old(self)@.tools,
    {
        self.finished = true;
        match self.terminal.take() {
            Some(e) => e,
            None => AiEvent::Done { prompt_tokens: 0, completion_tokens: 0 },
        }
    }

    /// Hand out the next pending event, if any.
    fn pop_pending(&mut self) -> (r: Option<AiEvent>)
        ensures
            match r {
                Some(e) => old(self)@.pending.len() > 0 && e@ == old(self)@.pending[0]
                    && final(self)@.pending == old(self)@.pending.drop_first(),
                None => old(self)@.pending.len() == 0 && final(self)@.pending == old(self)@.pending,
            },
            final(self)@.buffer == old(self)@.buffer,
            final(self)@.terminal == old(self)@.terminal,
            final(self)@.tools == old(self)@.tools,
            final(self)@.finished == old(self)@.finished,
    {
        let ghost pv = self.pending@;
        let r = self.pending.pop_front();
        proof {
            if r is Some {
                assert(events_view(self.pending@) =~= events_view(pv).drop_first());
            }
        }
        r
    }

    /// Buffer a chunk of bytes from the network.
    pub fn on_chunk(&mut self, bytes: &[u8])
        ensures
            final(self)@.buffer == old(self)@.buffer + bytes@,
            final(self)@.pending == old(self)@.pending,
            final(self)@.terminal == old(self)@.terminal,
            final(self)@.tools == old(self)@.tools,
            final(self)@.finished == old(self)@.finished,
    {
        self.dec.feed(bytes);
    }

    /// A read from the network failed: the stream ends with that failure.
    pub fn on_read_error(&mut self, detail: &str) -> (r: Result<AiEvent, AppError>)
        ensures
            zen_failure(r, "stream read failed: "@ + detail@),
            final(self)@.finished,
            final(self)@.terminal is None,
            final(self)@.buffer == old(self)@.buffer,
            final(self)@.pending == old(self)@.pending,
            final(self)@.tools == old(self)@.tools,
    {
        let _ = self.finish();
        let mut m: Vec<char> = Vec::new();
        push_str(&mut m, "stream read failed: ");
        push_str(&mut m, detail);
        Err(AppError::source_unavailable("zen", string_of(m.as_slice()).as_str()))
    }

    /// One step: hand out a pending event, or decode the next frame.
    pub fn step(&mut self) -> (r: Step)
        ensures
            step_spec(old(self)@, final(self)@, r),
    {
        if self.finished {
            return Step::Finished;
        }
        if let Some(ev) = self.pop_pending() {
            return Step::Emit(Ok(ev));
        }
        let ghost s1 = self@;
        match self.dec.pop_frame() {
            Ok(Some(Frame::Done)) => {
                self.flush_tools_to_pending();
                if let Some(ev) = self.pop_pending() {
                    return Step::Emit(Ok(ev));
                }
                let ev = self.finish();
                Step::Emit(Ok(ev))
            },
            Ok(Some(Frame::Data(frame))) => {
                match parse_data_frame(frame.as_str()) {
                    Parsed::Empty => Step::Continue,
                    Parsed::Error(e) => {
                        let _ = self.finish();
                        Step::Emit(Err(e))
                    },
                    Parsed::Frames(evs, frags) => {
                        self.note_events(evs);
                        self.note_tool_frags(frags);
                        Step::Continue
                    },
                }
            },
            _ => Step::NeedBytes,
        }
    }

    /// The byte stream ended: flush an unterminated last frame, queue the
    /// merged tool calls, and hand out the next event or the terminal one.
    pub fn on_eof(&mut self) -> (r: Result<AiEvent, AppError>)
        ensures
            eof_spec(old(self)@, final(self)@, r),
    {
        match self.dec.flush_tail() {
            Ok(Some(Frame::Data(frame))) => {
                match parse_data_frame(frame.as_str()) {
                    Parsed::Frames(evs, frags) => {
                        self.note_events(evs);
                        self.note_tool_frags(frags);
                    },
                    _ => {},
                }
            },
            _ => {},
        }
        self.flush_tools_to_pending();
        if let Some(ev) = self.pop_pending() {
            return Ok(ev);
        }
        Ok(self.finish())
    }
}

/// The state after a frame's events and pieces are noted.
pub open spec fn noted(s: StreamV, evs: Seq<EventV>, frs: Seq<FragV>) -> StreamV {
    StreamV {
        buffer: s.buffer,
        pending: s.pending + content_events(evs),
        terminal: last_usage(evs, s.terminal),
        tools: merge_frags(s.tools, frs),
        finished: s.finished,
    }
}

/// The state with the merged tool calls queued.
pub open spec fn tools_flushed(s: StreamV) -> StreamV {
    StreamV {
        buffer: s.buffer,
        pending: with_tools(s.pending, s.tools),
        terminal: s.terminal,
        tools: Seq::empty(),
        finished: s.finished,
    }
}

/// Handing out the next event of `s`: the first pending one, or the terminal
/// one (which finishes the stream).
pub open spec fn hand_out(s: StreamV, t: StreamV, r: Result<AiEvent, AppError>) -> bool {
    if s.pending.len() > 0 {
        r matches Ok(e) && e@ == s.pending[0] && t == StreamV { pending: s.pending.drop_first(), ..s }
    } else {
        r matches Ok(e) && e@ == terminal_or_zero(s.terminal) && t == StreamV {
            terminal: None,
            finished: true,
            ..s
        }
    }
}

/// One step of the state machine, from `s` to `t` with result `r`.
pub open spec fn step_spec(s: StreamV, t: StreamV, r: Step) -> bool {
    if s.finished {
        r is Finished && t == s
    } else if s.pending.len() > 0 {
        emits_event(r, s.pending[0]) && t == StreamV { pending: s.pending.drop_first(), ..s }
    } else {
        let (rest, f) = next_frame(s.buffer);
        let s1 = StreamV { buffer: rest, ..s };
        match f {
            None => r is NeedBytes && t == s1,
            Some(FrameV::Done) => (r matches Step::Emit(x) && hand_out(tools_flushed(s1), t, x)),
            Some(FrameV::Data(d)) => match parsed_of(d) {
                ParsedV::Empty => r is Continue && t == s1,
                ParsedV::Error(why) => (r matches Step::Emit(x) && zen_failure(x, why)) && t == StreamV {
                    terminal: None,
                    finished: true,
                    ..s1
                },
                ParsedV::Frames(evs, frs) => r is Continue && t == noted(s1, evs, frs),
            },
        }
    }
}

/// The end of the byte stream, from `s` to `t` with result `r`: the tail
/// frame's content is noted, the tool calls queued, the next event handed
/// out.
pub open spec fn eof_spec(s: StreamV, t: StreamV, r: Result<AiEvent, AppError>) -> bool {
    let s1 = StreamV { buffer: Seq::empty(), ..s };
    let s2 = match tail_frame(s.buffer) {
        Some(FrameV::Data(d)) => match parsed_of(d) {
            ParsedV::Frames(evs, frs) => noted(s1, evs, frs),
            _ => s1,
        },
        _ => s1,
    };
    hand_out(tools_flushed(s2), t, r)
}

/// Accumulators are kept in strictly ascending index order.
pub open spec fn indices_ascending(t: Seq<(u64, AccV)>) -> bool {
    forall|i: int, j: int| 0 <= i < j < t.len() ==> #[trigger] t[i].0 < #[trigger] t[j].0
}

/// Merging a piece keeps the accumulators in strictly ascending index order,
/// with one accumulator for the piece's index, so the assembled calls come
/// out once per index, in index order.
pub proof fn law_merge_keeps_index_order(t: Seq<(u64, AccV)>, f: FragV)
    requires
        indices_ascending(t),
    ensures
        indices_ascending(merge_frag(t, f)),
        exists|k: int| 0 <= k < merge_frag(t, f).len() && #[trigger] merge_frag(t, f)[k].0 == f.0,
        forall|k: int| 0 <= k < merge_frag(t, f).len() ==> #[trigger] merge_frag(t, f)[k].0 == f.0 || exists|
            i: int,
        | 0 <= i < t.len() && t[i].0 == merge_frag(t, f)[k].0,
    decreases t.len(),
{
    let r = merge_frag(t, f);
    if t.len() == 0 {
        assert(r[0].0 == f.0);
    } else if t[0].0 == f.0 {
        assert(r[0].0 == f.0);
        assert forall|k: int| 0 <= k < r.len() implies #[trigger] r[k].0 == f.0 || exists|i: int|
            0 <= i < t.len() && t[i].0 == r[k].0 by {
            if k > 0 {
                assert(r[k] == t[k]);
            }
        }
        assert forall|i: int, j: int| 0 <= i < j < r.len() implies #[trigger] r[i].0 < #[trigger] r[j].0 by {
            assert(r[j] == t[j]);
            if i > 0 {
                assert(r[i] == t[i]);
            }
        }
    } else if t[0].0 > f.0 {
        assert(r[0].0 == f.0);
        assert forall|k: int| 0 <= k < r.len() implies #[trigger] r[k].0 == f.0 || exists|i: int|
            0 <= i < t.len() && t[i].0 == r[k].0 by {
            if k > 0 {
                assert(r[k] == t[k - 1]);
            }
        }
        assert forall|i: int, j: int| 0 <= i < j < r.len() implies #[trigger] r[i].0 < #[trigger] r[j].0 by {
            assert(r[j] == t[j - 1]);
            if i > 0 {
                assert(r[i] == t[i - 1]);
            } else {
                assert(t[0].0 <= t[j - 1].0);
            }
        }
    } else {
        let rest = t.drop_first();
        assert forall|i: int, j: int| 0 <= i < j < rest.len() implies #[trigger] rest[i].0 < #[trigger] rest[j].0 by {
            assert(rest[i] == t[i + 1] && rest[j] == t[j + 1]);
        }
        law_merge_keeps_index_order(rest, f);
        let m = merge_frag(rest, f);
        assert(r =~= seq![t[0]] + m);
        let k0 = choose|k: int| 0 <= k < m.len() && #[trigger] m[k].0 == f.0;
        assert(r[k0 + 1].0 == f.0);
        assert forall|k: int| 0 <= k < r.len() implies #[trigger] r[k].0 == f.0 || exists|i: int|
            0 <= i < t.len() && t[i].0 == r[k].0 by {
            if k == 0 {
                assert(t[0].0 == r[0].0);
            } else {
                assert(r[k] == m[k - 1]);
                if m[k - 1].0 != f.0 {
                    let i = choose|i: int| 0 <= i < rest.len() && rest[i].0 == m[k - 1].0;
                    assert(t[i + 1].0 == r[k].0);
                }
            }
        }
        assert forall|i: int, j: int| 0 <= i < j < r.len() implies #[trigger] r[i].0 < #[trigger] r[j].0 by {
            if i == 0 {
                assert(r[j] == m[j - 1]);
                if m[j - 1].0 != f.0 {
                    let x = choose|x: int| 0 <= x < rest.len() && rest[x].0 == m[j - 1].0;
                    assert(t[0].0 < t[x + 1].0);
                }
            } else {
                assert(r[i] == m[i - 1] && r[j] == m[j - 1]);
            }
        }
    }
}

} // verus!
