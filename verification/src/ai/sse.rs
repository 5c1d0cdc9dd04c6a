//! Incremental server-sent-events decoding: raw network bytes in, complete
//! `data:` frames out. Tolerates CRLF, multi-line data fields, comment lines
//! and chunk boundaries that split a frame.
use vstd::prelude::*;
use vstd::utf8::{decode_utf8, valid_utf8};
use crate::text::{
    chars_of, chars_range, find_char, first_index_of, lossy_of, str_eq, string_of, trim, trim_seq, utf8_lossy,
};

verus! {

/// A complete frame.
#[derive(Debug)]
pub enum Frame {
    /// The joined `data:` payload of one event block.
    Data(String),
    /// The `[DONE]` sentinel that ends the stream.
    Done,
}

/// A frame as plain values.
pub enum FrameV {
    Data(Seq<char>),
    Done,
}

/// `f` is what `v` describes.
pub open spec fn frame_is(f: Frame, v: FrameV) -> bool {
    match v {
        FrameV::Data(d) => f matches Frame::Data(s) && s@ == d,
        FrameV::Done => f is Done,
    }
}

/// An optional frame is what an optional description says.
pub open spec fn opt_frame_is(f: Option<Frame>, v: Option<FrameV>) -> bool {
    match v {
        Some(x) => f matches Some(g) && frame_is(g, x),
        None => f is None,
    }
}

/// Bytes `i`, `i + 1` are `\n\n` or `\r\r`.
pub open spec fn pair_at(b: Seq<u8>, i: int) -> bool {
    0 <= i && i + 1 < b.len() && ((b[i] == 10 && b[i + 1] == 10) || (b[i] == 13 && b[i + 1] == 13))
}

/// Bytes `i .. i + 4` are `\r\n\r\n`.
pub open spec fn crlf2_at(b: Seq<u8>, i: int) -> bool {
    0 <= i && i + 3 < b.len() && b[i] == 13 && b[i + 1] == 10 && b[i + 2] == 13 && b[i + 3] == 10
}

/// The first `\n\n` / `\r\r` at or after `k`.
pub open spec fn pair_from(b: Seq<u8>, k: int) -> Option<int>
    decreases b.len() - k,
{
    if k < 0 || k + 1 >= b.len() {
        None
    } else if pair_at(b, k) {
        Some(k)
    } else {
        pair_from(b, k + 1)
    }
}

/// The first `\r\n\r\n` at or after `k`.
pub open spec fn crlf2_from(b: Seq<u8>, k: int) -> Option<int>
    decreases b.len() - k,
{
    if k < 0 || k + 3 >= b.len() {
        None
    } else if crlf2_at(b, k) {
        Some(k)
    } else {
        crlf2_from(b, k + 1)
    }
}

/// Index just past the blank line that ends the first complete event block:
/// past the first `\n\n` or `\r\r`; failing those, past the first
/// `\r\n\r\n`.
pub open spec fn frame_end(b: Seq<u8>) -> Option<int> {
    match pair_from(b, 0) {
        Some(i) => Some(i + 2),
        None => match crlf2_from(b, 0) {
            Some(i) => Some(i + 4),
            None => None,
        },
    }
}

/// Where a search finds something, it lies inside the buffer.
pub proof fn lemma_frame_end_in_range(b: Seq<u8>)
    ensures
        frame_end(b) matches Some(e) ==> 2 <= e && e <= b.len(),
{
    lemma_pair_from_in_range(b, 0);
    lemma_crlf2_from_in_range(b, 0);
}

proof fn lemma_pair_from_in_range(b: Seq<u8>, k: int)
    ensures
        pair_from(b, k) matches Some(i) ==> k <= i && pair_at(b, i),
    decreases b.len() - k,
{
    if !(k < 0 || k + 1 >= b.len()) && !pair_at(b, k) {
        lemma_pair_from_in_range(b, k + 1);
    }
}

proof fn lemma_crlf2_from_in_range(b: Seq<u8>, k: int)
    ensures
        crlf2_from(b, k) matches Some(i) ==> k <= i && crlf2_at(b, i),
    decreases b.len() - k,
{
    if !(k < 0 || k + 3 >= b.len()) && !crlf2_at(b, k) {
        lemma_crlf2_from_in_range(b, k + 1);
    }
}

/// `l` without one trailing `\r`.
pub open spec fn strip_cr(l: Seq<char>) -> Seq<char> {
    if l.len() > 0 && l.last() == '\r' { l.drop_last() } else { l }
}

/// `l` without one leading space.
pub open spec fn strip_space(l: Seq<char>) -> Seq<char> {
    if l.len() > 0 && l[0] == ' ' { l.drop_first() } else { l }
}

/// The payload of a `data:` line (one leading space dropped); `None` for
/// any other line: comments, blank lines, `event:`, `id:`, `retry:`.
pub open spec fn line_payload(l: Seq<char>) -> Option<Seq<char>> {
    let m = strip_cr(l);
    if m.len() >= 5 && m.take(5) == "data:"@ {
        Some(strip_space(m.skip(5)))
    } else {
        None
    }
}

/// A present value as a one-element sequence.
pub open spec fn opt_seq(o: Option<Seq<char>>) -> Seq<Seq<char>> {
    match o {
        Some(x) => seq![x],
        None => Seq::empty(),
    }
}

/// The payloads of the `data:` lines of a text, in order.
pub open spec fn data_lines(t: Seq<char>) -> Seq<Seq<char>>
    decreases t.len(),
{
    match first_index_of(t, '\n') {
        Some(i) => if 0 <= i < t.len() {
            opt_seq(line_payload(t.take(i))) + data_lines(t.skip(i + 1))
        } else {
            Seq::empty()
        },
        None => opt_seq(line_payload(t)),
    }
}

/// Lines joined with `\n`.
pub open spec fn join_lines(ls: Seq<Seq<char>>) -> Seq<char>
    decreases ls.len(),
{
    if ls.len() == 0 {
        Seq::empty()
    } else if ls.len() == 1 {
        ls[0]
    } else {
        join_lines(ls.drop_last()) + seq!['\n'] + ls.last()
    }
}

/// The frame of one event block: its joined `data:` payload, or `Done` where
/// that is `[DONE]`; nothing where the block has no `data:` line.
pub open spec fn block_frame(text: Seq<char>) -> Option<FrameV> {
    let ls = data_lines(text);
    if ls.len() == 0 {
        None
    } else if trim_seq(join_lines(ls)) == "[DONE]"@ {
        Some(FrameV::Done)
    } else {
        Some(FrameV::Data(join_lines(ls)))
    }
}

/// The text of received bytes: what they encode where they are valid UTF-8,
/// else the lossy reading with replacement characters.
pub open spec fn bytes_text(b: Seq<u8>) -> Seq<char> {
    if valid_utf8(b) { decode_utf8(b) } else { lossy_of(b) }
}

/// The next complete frame of a buffer, and what is left of the buffer after
/// it: blocks without `data:` lines are consumed and skipped; with no
/// complete block left, the buffer stays as it is.
pub open spec fn next_frame(b: Seq<u8>) -> (Seq<u8>, Option<FrameV>)
    decreases b.len(),
{
    match frame_end(b) {
        Some(e) => if 0 < e && e <= b.len() {
            match block_frame(bytes_text(b.take(e))) {
                Some(f) => (b.skip(e), Some(f)),
                None => next_frame(b.skip(e)),
            }
        } else {
            (b, None)
        },
        None => (b, None),
    }
}

/// `s` without leading and trailing `\r` and `\n`.
pub open spec fn trim_crlf(s: Seq<char>) -> Seq<char>
    decreases s.len(),
{
    if s.len() > 0 && (s[0] == '\r' || s[0] == '\n') {
        trim_crlf(s.drop_first())
    } else if s.len() > 0 && (s.last() == '\r' || s.last() == '\n') {
        trim_crlf(s.drop_last())
    } else {
        s
    }
}

/// The frame of an unterminated tail once the stream has ended: `[DONE]`,
/// or the joined `data:` payloads where there are any.
pub open spec fn tail_frame(b: Seq<u8>) -> Option<FrameV> {
    let t = trim_crlf(bytes_text(b));
    if b.len() == 0 || t.len() == 0 {
        None
    } else if t == "[DONE]"@ {
        Some(FrameV::Done)
    } else if join_lines(data_lines(t)).len() == 0 {
        None
    } else {
        Some(FrameV::Data(join_lines(data_lines(t))))
    }
}

/// Index just past the blank line that ends the first complete event block,
/// if any.
pub fn find_frame_end(buf: &[u8]) -> (r: Option<usize>)
    ensures
        match r {
            Some(e) => frame_end(buf@) == Some(e as int),
            None => frame_end(buf@) is None,
        },
{
    let n = buf.len();
    let mut i: usize = 0;
    while n >= 2 && i < n - 1
        invariant
            n == buf@.len(),
            i <= n,
            pair_from(buf@, 0) == pair_from(buf@, i as int),
        decreases n - i,
    {
        if (buf[i] == 10 && buf[i + 1] == 10) || (buf[i] == 13 && buf[i + 1] == 13) {
            return Some(i + 2);
        }
        i = i + 1;
    }
    let mut k: usize = 0;
    while n >= 4 && k < n - 3
        invariant
            n == buf@.len(),
            k <= n,
            pair_from(buf@, 0) is None,
            crlf2_from(buf@, 0) == crlf2_from(buf@, k as int),
        decreases n - k,
    {
        if buf[k] == 13 && buf[k + 1] == 10 && buf[k + 2] == 13 && buf[k + 3] == 10 {
            return Some(k + 4);
        }
        k = k + 1;
    }
    None
}

/// The payload of a line, where it is a `data:` line.
fn line_payload_exec(l: &[char]) -> (r: Option<Vec<char>>)
    ensures
        match r {
            Some(p) => line_payload(l@) == Some(p@),
            None => line_payload(l@) is None,
        },
{
    let end = if l.len() > 0 && l[l.len() - 1] == '\r' { l.len() - 1 } else { l.len() };
    let m = chars_range(l, 0, end);
    proof {
        assert(m@ =~= strip_cr(l@));
    }
    if m.len() >= 5 && m[0] == 'd' && m[1] == 'a' && m[2] == 't' && m[3] == 'a' && m[4] == ':' {
        proof {
            reveal_strlit("data:");
            assert(m@.take(5) =~= "data:"@);
        }
        let start: usize = if m.len() > 5 && m[5] == ' ' { 6 } else { 5 };
        let p = chars_range(m.as_slice(), start, m.len());
        proof {
            assert(p@ =~= strip_space(m@.skip(5)));
        }
        Some(p)
    } else {
        proof {
            reveal_strlit("data:");
            if m@.len() >= 5 && m@.take(5) == "data:"@ {
                assert(m@[0] == m@.take(5)[0]);
                assert(m@[1] == m@.take(5)[1]);
                assert(m@[2] == m@.take(5)[2]);
                assert(m@[3] == m@.take(5)[3]);
                assert(m@[4] == m@.take(5)[4]);
            }
        }
        None
    }
}

/// Append a payload to the joined text of the payloads before it.
fn push_line(out: &mut Vec<char>, p: &Vec<char>, count: usize, Ghost(acc): Ghost<Seq<Seq<char>>>)
    requires
        old(out)@ == join_lines(acc),
        count == acc.len(),
    ensures
        final(out)@ == join_lines(acc.push(p@)),
{
    if count > 0 {
        out.push('\n');
    }
    let ghost start = out@;
    let mut k: usize = 0;
    while k < p.len()
        invariant
            0 <= k <= p@.len(),
            out@ == start + p@.take(k as int),
        decreases p@.len() - k,
    {
        out.push(p[k]);
        k = k + 1;
        proof {
            assert(p@.take(k as int) =~= p@.take(k - 1).push(p@[k - 1]));
        }
    }
    proof {
        assert(p@.take(p@.len() as int) =~= p@);
        assert(acc.push(p@).drop_last() =~= acc);
        if acc.len() == 0 {
            assert(out@ =~= p@);
        } else {
            assert(out@ =~= join_lines(acc) + seq!['\n'] + p@);
        }
    }
}

/// The joined `data:` payloads of a text, and how many lines gave one.
fn data_payload(t: &[char]) -> (r: (Vec<char>, usize))
    ensures
        r.0@ == join_lines(data_lines(t@)),
        r.1 == data_lines(t@).len(),
{
    let mut out: Vec<char> = Vec::new();
    let mut count: usize = 0;
    let ghost mut acc: Seq<Seq<char>> = Seq::empty();
    let mut pos: usize = 0;
    let tn = t.len();
    let mut rest = chars_range(t, 0, t.len());
    proof {
        assert(t@.skip(0) =~= t@);
    }
    loop
        invariant
            0 <= pos <= t@.len(),
            tn == t@.len(),
            rest@ == t@.skip(pos as int),
            data_lines(t@) == acc + data_lines(rest@),
            out@ == join_lines(acc),
            count == acc.len(),
            acc.len() <= pos,
        decreases t@.len() - pos,
    {
        match find_char(rest.as_slice(), '\n') {
            Some(i) => {
                assert(i < rest@.len());
                let line = chars_range(rest.as_slice(), 0, i);
                let next = chars_range(rest.as_slice(), i + 1, rest.len());
                proof {
                    assert(line@ =~= rest@.take(i as int));
                    assert(next@ =~= rest@.skip(i + 1));
                    assert(rest@.skip(i + 1) =~= t@.skip(pos + i + 1));
                }
                match line_payload_exec(line.as_slice()) {
                    Some(p) => {
                        push_line(&mut out, &p, count, Ghost(acc));
                        proof {
                            assert(acc + data_lines(rest@) =~= acc.push(p@) + data_lines(next@));
                            acc = acc.push(p@);
                        }
                        count = count + 1;
                    },
                    None => {
                        proof {
                            assert(acc + data_lines(rest@) =~= acc + data_lines(next@));
                        }
                    },
                }
                pos = pos + i + 1;
                rest = next;
            },
            None => {
                match line_payload_exec(rest.as_slice()) {
                    Some(p) => {
                        proof {
                            if rest@.len() == 0 {
                                assert(strip_cr(rest@).len() == 0);
                            }
                        }
                        push_line(&mut out, &p, count, Ghost(acc));
                        proof {
                            assert(acc + data_lines(rest@) =~= acc.push(p@));
                            acc = acc.push(p@);
                        }
                        count = count + 1;
                    },
                    None => {
                        proof {
                            assert(acc + data_lines(rest@) =~= acc);
                        }
                    },
                }
                return (out, count);
            },
        }
    }
}

/// The frame of one event block.
fn block_frame_exec(text: &str) -> (r: Option<Frame>)
    ensures
        opt_frame_is(r, block_frame(text@)),
{
    let t = chars_of(text);
    let (joined, count) = data_payload(t.as_slice());
    if count == 0 {
        return None;
    }
    let s = string_of(joined.as_slice());
    if str_eq(trim(s.as_str()), "[DONE]") {
        Some(Frame::Done)
    } else {
        Some(Frame::Data(s))
    }
}

/// Whether a character is `\r` or `\n`.
fn is_crlf(c: char) -> (r: bool)
    ensures
        r == (c == '\r' || c == '\n'),
{
    c == '\r' || c == '\n'
}

/// `s` without leading and trailing `\r` and `\n`.
fn trim_crlf_exec(s: &[char]) -> (r: Vec<char>)
    ensures
        r@ == trim_crlf(s@),
{
    let mut lo: usize = 0;
    let mut hi: usize = s.len();
    proof {
        assert(s@.subrange(0, s@.len() as int) =~= s@);
    }
    while lo < hi && is_crlf(s[lo])
        invariant
            0 <= lo <= hi == s@.len(),
            trim_crlf(s@) == trim_crlf(s@.subrange(lo as int, hi as int)),
        decreases hi - lo,
    {
        proof {
            assert(s@.subrange(lo as int, hi as int).drop_first() =~= s@.subrange(lo + 1, hi as int));
        }
        lo = lo + 1;
    }
    while lo < hi && is_crlf(s[hi - 1])
        invariant
            0 <= lo <= hi <= s@.len(),
            lo < hi ==> !(s@[lo as int] == '\r' || s@[lo as int] == '\n'),
            trim_crlf(s@) == trim_crlf(s@.subrange(lo as int, hi as int)),
        decreases hi - lo,
    {
        proof {
            let w = s@.subrange(lo as int, hi as int);
            assert(w.drop_last() =~= s@.subrange(lo as int, hi - 1));
            if w.len() > 0 {
                assert(w[0] == s@[lo as int]);
            }
        }
        hi = hi - 1;
    }
    proof {
        let w = s@.subrange(lo as int, hi as int);
        if w.len() > 0 {
            assert(w[0] == s@[lo as int]);
            assert(w.last() == s@[hi - 1]);
        }
    }
    chars_range(s, lo, hi)
}

/// Incremental frame decoder over a growing byte buffer.
pub struct SseDecoder {
    buffer: Vec<u8>,
}

impl View for SseDecoder {
    type V = Seq<u8>;

    closed spec fn view(&self) -> Seq<u8> {
        self.buffer@
    }
}

impl SseDecoder {
    /// A decoder with nothing buffered.
    pub fn new() -> (r: Self)
        ensures
            r@ == Seq::<u8>::empty(),
    {
        SseDecoder { buffer: Vec::new() }
    }

    /// Buffer more bytes from the network.
    pub fn feed(&mut self, bytes: &[u8])
        ensures
            final(self)@ == old(self)@ + bytes@,
    {
        let ghost start = self.buffer@;
        let mut i: usize = 0;
        while i < bytes.len()
            invariant
                0 <= i <= bytes@.len(),
                self.buffer@ == start + bytes@.take(i as int),
            decreases bytes@.len() - i,
        {
            self.buffer.push(bytes[i]);
            i = i + 1;
            proof {
                assert(bytes@.take(i as int) =~= bytes@.take(i - 1).push(bytes@[i - 1]));
            }
        }
        proof {
            assert(bytes@.take(bytes@.len() as int) =~= bytes@);
        }
    }

    /// Pop the next complete frame, if any; `Ok(None)` means more bytes are
    /// needed. Blocks without a `data:` line are consumed on the way.
    pub fn pop_frame(&mut self) -> (r: Result<Option<Frame>, crate::error::AppError>)
        ensures
            r matches Ok(f) && opt_frame_is(f, next_frame(old(self)@).1),
            final(self)@ == next_frame(old(self)@).0,
    {
        loop
            invariant
                next_frame(old(self)@) == next_frame(self.buffer@),
            decreases self.buffer@.len(),
        {
            let end = match find_frame_end(self.buffer.as_slice()) {
                Some(e) => e,
                None => return Ok(None),
            };
            proof {
                lemma_frame_end_in_range(self.buffer@);
                assert(2 <= end <= self.buffer@.len());
            }
            let ghost b = self.buffer@;
            let mut block = self.buffer.split_off(end);
            std::mem::swap(&mut self.buffer, &mut block);
            proof {
                assert(block@ =~= b.take(end as int));
                assert(self.buffer@ =~= b.skip(end as int));
            }
            let text = utf8_lossy(block.as_slice());
            match block_frame_exec(text.as_str()) {
                Some(f) => return Ok(Some(f)),
                None => {},
            }
        }
    }

    /// Once the byte stream has ended, flush a final unterminated frame.
    pub fn flush_tail(&mut self) -> (r: Result<Option<Frame>, crate::error::AppError>)
        ensures
            r matches Ok(f) && opt_frame_is(f, tail_frame(old(self)@)),
            final(self)@ == Seq::<u8>::empty(),
    {
        if self.buffer.len() == 0 {
            return Ok(None);
        }
        let rest = utf8_lossy(self.buffer.as_slice());
        self.buffer.clear();
        let rv = chars_of(rest.as_str());
        let t = trim_crlf_exec(rv.as_slice());
        if t.len() == 0 {
            return Ok(None);
        }
        let ts = string_of(t.as_slice());
        if str_eq(ts.as_str(), "[DONE]") {
            return Ok(Some(Frame::Done));
        }
        let (data, _count) = data_payload(t.as_slice());
        if data.len() == 0 {
            Ok(None)
        } else {
            Ok(Some(Frame::Data(string_of(data.as_slice()))))
        }
    }
}

} // verus!
