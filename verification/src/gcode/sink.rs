//! Output sink for post-processor line emission.
//!
//! Every post-processor appends its rendered lines here. The sink has two
//! modes behind one infallible API:
//!
//!   * **Buffered** (the default): an in-memory list of lines; `finish` joins
//!     them into the program text (lines separated by `\n`, plus one
//!     trailing `\n`).
//!   * **Streaming**: each line is rendered into an outbox the moment it is
//!     pushed (with the `\n` separator in front of every line but the
//!     first); the caller hands the outbox to its writer with
//!     [`GcodeSink::take_output`] and finishes with
//!     [`GcodeSink::finish_stream`], which adds the trailing newline. Only
//!     the lines emitted since the last [`GcodeSink::checkpoint`] (the
//!     current operation's body) are retained, and only up to a per-op cap:
//!     an operation that exceeds it marks the sink as overflowed and its
//!     retained body is dropped. Output text is never affected by the cap.
//!
//! A write error on the caller's side is reported back with
//! [`GcodeSink::record_write_failure`]; line bookkeeping keeps advancing and
//! [`GcodeSink::finish_stream`] reports the failure once at the end.
//!
//! The text a streaming sink hands out for a sequence of lines is exactly
//! the text a buffered sink's `finish` returns for the same lines.

use vstd::prelude::*;

use crate::chars::push_str;
use vstd::utf8::encode_utf8;

verus! {

/// Default per-op tee budget for a streaming sink: the number of lines the
/// per-op tee retains before it gives up caching the current op.
pub const DEFAULT_STREAM_TEE_CAP_LINES: usize = 1048576;

/// Lines joined with `\n` separators (no trailing newline).
pub open spec fn join_lines(ls: Seq<Seq<char>>) -> Seq<char>
    decreases ls.len(),
{
    if ls.len() == 0 {
        Seq::empty()
    } else if ls.len() == 1 {
        ls[0]
    } else {
        join_lines(ls.drop_last()) + seq!['\n'] + ls.last()
    }
}

/// The finished program text of `ls`: the lines joined by `\n`, plus a
/// trailing `\n` (an empty program is a lone newline).
pub open spec fn program_text(ls: Seq<Seq<char>>) -> Seq<char> {
    join_lines(ls) + seq!['\n']
}

/// The UTF-8 bytes of `program_text`.
pub open spec fn join_bytes(ls: Seq<Seq<char>>) -> Seq<u8>
    decreases ls.len(),
{
    if ls.len() == 0 {
        Seq::empty()
    } else if ls.len() == 1 {
        encode_utf8(ls[0])
    } else {
        join_bytes(ls.drop_last()) + seq![10u8] + encode_utf8(ls.last())
    }
}

pub open spec fn program_bytes(ls: Seq<Seq<char>>) -> Seq<u8> {
    join_bytes(ls) + seq![10u8]
}

/// The separator written in front of a line: `\n` unless it is the first.
pub open spec fn separator(any_before: bool) -> Seq<char> {
    if any_before {
        seq!['\n']
    } else {
        Seq::empty()
    }
}

pub open spec fn lines_view(v: Seq<String>) -> Seq<Seq<char>> {
    v.map_values(|s: String| s@)
}

/// The caller's writer refused a write; reported by `finish_stream`.
#[derive(Debug, Clone, Copy, PartialEq, Eq, Structural)]
pub struct StreamWriteFailed;

struct StreamState {
    /// Lines emitted since the last checkpoint (the current op's body),
    /// while it stays within `tail_cap`.
    tail: Vec<String>,
    /// Logical index of `tail[0]`.
    tail_start: usize,
    /// Total lines emitted.
    total: usize,
    tail_cap: usize,
    overflowed: bool,
    wrote_any: bool,
    failed: bool,
    /// Rendered text not yet handed to the caller.
    pending: String,
    /// Every line emitted so far.
    lines: Ghost<Seq<Seq<char>>>,
    /// Everything ever rendered into the outbox.
    text: Ghost<Seq<char>>,
    /// The part of `text` already handed to the caller.
    handed: Ghost<Seq<char>>,
}

enum Mode {
    Buffered(Vec<String>),
    Streaming(StreamState),
}

/// Accumulates a post-processor's emitted g-code lines, buffered in memory
/// or rendered into a streaming outbox (see the module docs). Each line is
/// stored without its newline; the newline is the separator.
pub struct GcodeSink {
    mode: Mode,
}

impl StreamState {
    spec fn inv(&self) -> bool {
        &&& self.total == self.lines@.len()
        &&& self.tail_start <= self.total
        &&& self.overflowed == (self.total - self.tail_start > self.tail_cap)
        &&& self.overflowed ==> self.tail@.len() == 0
        &&& !self.overflowed ==> lines_view(self.tail@) == self.lines@.subrange(
            self.tail_start as int,
            self.total as int,
        )
        &&& self.wrote_any == (self.total > 0)
        &&& !self.failed ==> self.handed@ + self.pending@ == self.text@
        &&& self.failed ==> self.pending@.len() == 0
    }
}

impl GcodeSink {
    /// The sink's internal bookkeeping is consistent.
    pub closed spec fn wf(&self) -> bool {
        match self.mode {
            Mode::Buffered(_) => true,
            Mode::Streaming(s) => s.inv(),
        }
    }

    /// Every line emitted so far, in order.
    pub closed spec fn emitted(&self) -> Seq<Seq<char>> {
        match self.mode {
            Mode::Buffered(v) => lines_view(v@),
            Mode::Streaming(s) => s.lines@,
        }
    }

    pub closed spec fn is_streaming(&self) -> bool {
        self.mode is Streaming
    }

    /// Logical index of the first line of the current op (streaming).
    pub closed spec fn op_start(&self) -> nat {
        match self.mode {
            Mode::Buffered(_) => 0,
            Mode::Streaming(s) => s.tail_start as nat,
        }
    }

    /// Per-op tee budget (streaming).
    pub closed spec fn cap(&self) -> nat {
        match self.mode {
            Mode::Buffered(_) => 0,
            Mode::Streaming(s) => s.tail_cap as nat,
        }
    }

    /// Whether the caller reported a failed write (streaming).
    pub closed spec fn failed(&self) -> bool {
        match self.mode {
            Mode::Buffered(_) => false,
            Mode::Streaming(s) => s.failed,
        }
    }

    /// Everything the streaming sink has rendered so far.
    pub closed spec fn text(&self) -> Seq<char> {
        match self.mode {
            Mode::Buffered(_) => Seq::empty(),
            Mode::Streaming(s) => s.text@,
        }
    }

    /// The part of `text` already handed to the caller.
    pub closed spec fn handed(&self) -> Seq<char> {
        match self.mode {
            Mode::Buffered(_) => Seq::empty(),
            Mode::Streaming(s) => s.handed@,
        }
    }

    /// A streaming sink has rendered exactly the joined lines it was given
    /// (the trailing newline comes at `finish_stream`); always true of a
    /// buffered sink.
    pub open spec fn synced(&self) -> bool {
        self.is_streaming() ==> self.text() == join_lines(self.emitted())
    }

    /// Whether the current op's body exceeded the per-op cap.
    pub open spec fn overflowed_spec(&self) -> bool {
        self.is_streaming() && self.emitted().len() - self.op_start() > self.cap()
    }

    /// A buffered, empty sink.
    pub fn new() -> (s: Self)
        ensures
            s.wf(),
            !s.is_streaming(),
            s.synced(),
            s.op_start() == 0,
            s.emitted() == Seq::<Seq<char>>::empty(),
            sink_view(s) == buffered_start(),
    {
        let v: Vec<String> = Vec::new();
        proof {
            assert(lines_view(v@) =~= Seq::<Seq<char>>::empty());
        }
        GcodeSink { mode: Mode::Buffered(v) }
    }

    /// A streaming sink with the default per-op tee budget.
    pub fn streaming() -> (s: Self)
        ensures
            s.wf(),
            s.is_streaming(),
            s.emitted() == Seq::<Seq<char>>::empty(),
            s.cap() == DEFAULT_STREAM_TEE_CAP_LINES,
            s.op_start() == 0,
            !s.failed(),
            s.text() == Seq::<char>::empty(),
            s.handed() == Seq::<char>::empty(),
            s.synced(),
            sink_view(s) == stream_start(DEFAULT_STREAM_TEE_CAP_LINES as nat),
    {
        Self::streaming_with_cap(DEFAULT_STREAM_TEE_CAP_LINES)
    }

    /// A streaming sink whose per-op tee retains at most `tail_cap` lines.
    pub fn streaming_with_cap(tail_cap: usize) -> (s: Self)
        ensures
            s.wf(),
            s.is_streaming(),
            s.emitted() == Seq::<Seq<char>>::empty(),
            s.cap() == tail_cap,
            s.op_start() == 0,
            !s.failed(),
            s.text() == Seq::<char>::empty(),
            s.handed() == Seq::<char>::empty(),
            s.synced(),
            sink_view(s) == stream_start(tail_cap as nat),
    {
        let tail: Vec<String> = Vec::new();
        let pending = String::new();
        let st = StreamState {
            tail,
            tail_start: 0,
            total: 0,
            tail_cap,
            overflowed: false,
            wrote_any: false,
            failed: false,
            pending,
            lines: Ghost(Seq::empty()),
            text: Ghost(Seq::empty()),
            handed: Ghost(Seq::empty()),
        };
        proof {
            assert(lines_view(st.tail@) =~= Seq::<Seq<char>>::empty());
            assert(st.lines@.subrange(0, 0) =~= Seq::<Seq<char>>::empty());
            assert(st.handed@ + st.pending@ =~= st.text@);
        }
        GcodeSink { mode: Mode::Streaming(st) }
    }

    /// Append one already-rendered line.
    pub fn push(&mut self, line: String)
        requires
            old(self).wf(),
            old(self).emitted().len() < usize::MAX,
        ensures
            final(self).wf(),
            final(self).emitted() == old(self).emitted().push(line@),
            final(self).is_streaming() == old(self).is_streaming(),
            final(self).op_start() == old(self).op_start(),
            final(self).cap() == old(self).cap(),
            final(self).failed() == old(self).failed(),
            final(self).handed() == old(self).handed(),
            final(self).text() == (if old(self).is_streaming() {
                old(self).text() + separator(old(self).emitted().len() > 0) + line@
            } else {
                old(self).text()
            }),
            old(self).synced() ==> final(self).synced(),
            sink_view(*final(self)) == sink_step(sink_view(*old(self)), SinkCall::Push(line@)),
    {
        proof {
            lemma_join_push(self.emitted(), line@);
        }
        match &mut self.mode {
            Mode::Buffered(v) => {
                let ghost v0 = v@;
                v.push(line);
                proof {
                    assert(lines_view(v@) =~= lines_view(v0).push(line@));
                }
            },
            Mode::Streaming(s) => {
                let ghost l = line@;
                let ghost old_lines = s.lines@;
                let ghost old_tail = s.tail@;
                let sep_needed = s.wrote_any;
                if !s.failed {
                    if sep_needed {
                        crate::chars::push_char(&mut s.pending, '\n');
                    }
                    push_str(&mut s.pending, line.as_str());
                }
                proof {
                    s.text@ = s.text@ + separator(sep_needed) + l;
                    s.lines@ = s.lines@.push(l);
                }
                s.wrote_any = true;
                s.total = s.total + 1;
                proof {
                    assert(lines_view(old_tail).len() == old_tail.len());
                }
                if !s.overflowed {
                    s.tail.push(line);
                    if s.tail.len() > s.tail_cap {
                        s.overflowed = true;
                        s.tail = Vec::new();
                    }
                }
                proof {
                    if !s.overflowed {
                        assert(lines_view(s.tail@) =~= lines_view(old_tail).push(l));
                        assert(s.lines@.subrange(s.tail_start as int, s.total as int)
                            =~= old_lines.subrange(s.tail_start as int, (s.total - 1) as int).push(
                            l));
                    }
                    if !s.failed {
                        if sep_needed {
                            assert(separator(sep_needed) == seq!['\n']);
                        } else {
                            assert(separator(sep_needed) =~= Seq::<char>::empty());
                        }
                        assert(s.handed@ + s.pending@ =~= s.text@);
                    }
                    assert(s.inv());
                }
            },
        }
    }

    /// Number of lines emitted.
    pub fn len(&self) -> (n: usize)
        requires
            self.wf(),
        ensures
            n == self.emitted().len(),
    {
        match &self.mode {
            Mode::Buffered(v) => v.len(),
            Mode::Streaming(s) => s.total,
        }
    }

    /// The emitted lines from `start` on; empty when `start >= len()`. In
    /// streaming mode only the current op's lines are retained: an
    /// overflowed op yields nothing, and a `start` before the current op's
    /// first line yields the current op's lines.
    pub fn clone_from(&self, start: usize) -> (r: Vec<String>)
        requires
            self.wf(),
        ensures
            lines_view(r@) == view_tail_from(sink_view(*self), start as nat),
            lines_view(r@) == (if start >= self.emitted().len() || self.overflowed_spec() {
                Seq::<Seq<char>>::empty()
            } else if start >= self.op_start() {
                self.emitted().subrange(start as int, self.emitted().len() as int)
            } else {
                self.emitted().subrange(self.op_start() as int, self.emitted().len() as int)
            }),
    {
        let mut r: Vec<String> = Vec::new();
        match &self.mode {
            Mode::Buffered(v) => {
                if start >= v.len() {
                    proof {
                        assert(lines_view(r@) =~= Seq::<Seq<char>>::empty());
                    }
                    return r;
                }
                let mut i = start;
                while i < v.len()
                    invariant
                        start <= i <= v.len(),
                        lines_view(r@) == lines_view(v@).subrange(start as int, i as int),
                    decreases v.len() - i,
                {
                    let ghost r0 = r@;
                    r.push(v[i].clone());
                    proof {
                        assert(lines_view(r@) =~= lines_view(r0).push(v@[i as int]@));
                        assert(lines_view(v@).subrange(start as int, i + 1) =~= lines_view(
                            v@,
                        ).subrange(start as int, i as int).push(v@[i as int]@));
                    }
                    i = i + 1;
                }
                r
            },
            Mode::Streaming(s) => {
                if start >= s.total || s.overflowed {
                    proof {
                        assert(lines_view(r@) =~= Seq::<Seq<char>>::empty());
                    }
                    return r;
                }
                proof {
                    assert(lines_view(s.tail@).len() == s.tail@.len());
                }
                let off = if start >= s.tail_start {
                    start - s.tail_start
                } else {
                    0
                };
                let mut i = off;
                while i < s.tail.len()
                    invariant
                        off <= i <= s.tail.len(),
                        lines_view(r@) == lines_view(s.tail@).subrange(off as int, i as int),
                    decreases s.tail.len() - i,
                {
                    let ghost r0 = r@;
                    r.push(s.tail[i].clone());
                    proof {
                        assert(lines_view(r@) =~= lines_view(r0).push(s.tail@[i as int]@));
                        assert(lines_view(s.tail@).subrange(off as int, i + 1) =~= lines_view(
                            s.tail@,
                        ).subrange(off as int, i as int).push(s.tail@[i as int]@));
                    }
                    i = i + 1;
                }
                proof {
                    let tv = lines_view(s.tail@);
                    assert(tv.subrange(off as int, tv.len() as int) =~= s.lines@.subrange(
                        s.tail_start + off,
                        s.total as int,
                    ));
                }
                r
            },
        }
    }

    /// Append a pre-rendered batch verbatim, line by line.
    pub fn extend_from_slice(&mut self, lines: &[String])
        requires
            old(self).wf(),
            old(self).emitted().len() + lines@.len() < usize::MAX,
        ensures
            final(self).wf(),
            final(self).emitted() == old(self).emitted() + lines_view(lines@),
            final(self).is_streaming() == old(self).is_streaming(),
            final(self).op_start() == old(self).op_start(),
            final(self).cap() == old(self).cap(),
            final(self).failed() == old(self).failed(),
            final(self).handed() == old(self).handed(),
            !old(self).is_streaming() ==> final(self).text() == old(self).text(),
            old(self).synced() ==> final(self).synced(),
            sink_view(*final(self)) == sink_step(
                sink_view(*old(self)),
                SinkCall::Extend(lines_view(lines@)),
            ),
    {
        let ghost l0 = self.emitted();
        let mut i: usize = 0;
        proof {
            assert(lines_view(lines@).subrange(0, 0) =~= Seq::<Seq<char>>::empty());
        }
        while i < lines.len()
            invariant
                i <= lines.len(),
                self.wf(),
                l0.len() + lines@.len() < usize::MAX,
                self.emitted() == l0 + lines_view(lines@).subrange(0, i as int),
                self.is_streaming() == old(self).is_streaming(),
                self.op_start() == old(self).op_start(),
                self.cap() == old(self).cap(),
                self.failed() == old(self).failed(),
                self.handed() == old(self).handed(),
                !old(self).is_streaming() ==> self.text() == old(self).text(),
                old(self).is_streaming() ==> self.text() == rendered(
                    old(self).text(),
                    l0.len(),
                    lines_view(lines@).subrange(0, i as int),
                ),
                old(self).synced() ==> self.synced(),
            decreases lines.len() - i,
        {
            let ghost t0 = self.text();
            self.push(lines[i].clone());
            proof {
                let pre = lines_view(lines@).subrange(0, i as int);
                assert(pre.push(lines@[i as int]@).drop_last() =~= pre);
                assert(lines_view(lines@).subrange(0, i + 1) =~= pre.push(lines@[i as int]@));
                assert(lines_view(lines@).subrange(0, i + 1) =~= lines_view(lines@).subrange(
                    0,
                    i as int,
                ).push(lines@[i as int]@));
            }
            i = i + 1;
        }
        proof {
            assert(lines_view(lines@).subrange(0, lines@.len() as int) =~= lines_view(lines@));
        }
    }

    /// Mark an op boundary: in streaming mode, drop the previous op's
    /// retained lines and start a fresh per-op tee at the current position.
    /// A no-op in buffered mode.
    pub fn checkpoint(&mut self)
        requires
            old(self).wf(),
        ensures
            final(self).wf(),
            final(self).emitted() == old(self).emitted(),
            final(self).is_streaming() == old(self).is_streaming(),
            final(self).op_start() == (if old(self).is_streaming() {
                old(self).emitted().len()
            } else {
                0
            }),
            final(self).cap() == old(self).cap(),
            final(self).failed() == old(self).failed(),
            final(self).handed() == old(self).handed(),
            final(self).text() == old(self).text(),
            sink_view(*final(self)) == sink_step(sink_view(*old(self)), SinkCall::Checkpoint),
    {
        match &mut self.mode {
            Mode::Buffered(_) => {},
            Mode::Streaming(s) => {
                s.tail_start = s.total;
                s.tail.clear();
                s.overflowed = false;
                proof {
                    assert(lines_view(s.tail@) =~= Seq::<Seq<char>>::empty());
                    assert(s.lines@.subrange(s.total as int, s.total as int)
                        =~= Seq::<Seq<char>>::empty());
                }
            },
        }
    }

    /// Whether the current op's body overflowed the per-op tee. Always
    /// `false` for a buffered sink.
    pub fn op_overflowed(&self) -> (b: bool)
        requires
            self.wf(),
        ensures
            b == self.overflowed_spec(),
            b == view_overflowed(sink_view(*self)),
    {
        match &self.mode {
            Mode::Buffered(_) => false,
            Mode::Streaming(s) => s.overflowed,
        }
    }

    /// The buffered lines; empty for a streaming sink, which does not keep
    /// the whole program.
    pub fn lines(&self) -> (r: &[String])
        ensures
            lines_view(r@) == (if self.is_streaming() {
                Seq::<Seq<char>>::empty()
            } else {
                self.emitted()
            }),
    {
        match &self.mode {
            Mode::Buffered(v) => v.as_slice(),
            Mode::Streaming(_) => {
                let e: &[String] = &[];
                proof {
                    assert(lines_view(e@) =~= Seq::<Seq<char>>::empty());
                }
                e
            },
        }
    }

    /// The finished program: the lines joined by `\n` with a trailing `\n`.
    /// Buffered only; a streaming sink returns an empty string (its text
    /// goes out through `take_output` / `finish_stream`).
    pub fn finish(&self) -> (r: String)
        ensures
            r@ == (if self.is_streaming() {
                Seq::<char>::empty()
            } else {
                program_text(self.emitted())
            }),
    {
        match &self.mode {
            Mode::Buffered(v) => {
                let mut out = String::new();
                let mut i: usize = 0;
                while i < v.len()
                    invariant
                        i <= v.len(),
                        out@ == join_lines(lines_view(v@).subrange(0, i as int)),
                    decreases v.len() - i,
                {
                    let ghost o0 = out@;
                    if i > 0 {
                        crate::chars::push_char(&mut out, '\n');
                    }
                    push_str(&mut out, v[i].as_str());
                    proof {
                        let p = lines_view(v@).subrange(0, i + 1);
                        assert(p.drop_last() =~= lines_view(v@).subrange(0, i as int));
                        if i == 0 {
                            assert(p.len() == 1);
                            assert(out@ =~= p[0]);
                        } else {
                            assert(out@ =~= o0 + seq!['\n'] + p.last());
                        }
                    }
                    i = i + 1;
                }
                crate::chars::push_char(&mut out, '\n');
                proof {
                    assert(lines_view(v@).subrange(0, v@.len() as int) =~= lines_view(v@));
                }
                out
            },
            Mode::Streaming(_) => String::new(),
        }
    }

    /// Append the finished program's UTF-8 bytes to `w` (buffered only; a
    /// streaming sink appends nothing).
    pub fn write_to(&self, w: &mut Vec<u8>)
        ensures
            final(w)@ == old(w)@ + (if self.is_streaming() {
                Seq::<u8>::empty()
            } else {
                program_bytes(self.emitted())
            }),
    {
        match &self.mode {
            Mode::Buffered(v) => {
                let ghost w0 = w@;
                let mut i: usize = 0;
                while i < v.len()
                    invariant
                        i <= v.len(),
                        w@ == w0 + join_bytes(lines_view(v@).subrange(0, i as int)),
                    decreases v.len() - i,
                {
                    let ghost o0 = w@;
                    if i > 0 {
                        w.push(10u8);
                    }
                    let b = v[i].as_str().as_bytes();
                    w.extend_from_slice(b);
                    proof {
                        let p = lines_view(v@).subrange(0, i + 1);
                        assert(p.drop_last() =~= lines_view(v@).subrange(0, i as int));
                        if i == 0 {
                            assert(w@ =~= w0 + encode_utf8(p[0]));
                        } else {
                            assert(w@ =~= o0 + seq![10u8] + encode_utf8(p.last()));
                        }
                    }
                    i = i + 1;
                }
                w.push(10u8);
                proof {
                    assert(lines_view(v@).subrange(0, v@.len() as int) =~= lines_view(v@));
                }
            },
            Mode::Streaming(_) => {
                proof {
                    assert(w@ =~= w@ + Seq::<u8>::empty());
                }
            },
        }
    }

    /// Hand over the rendered text not yet taken (streaming); empty for a
    /// buffered sink or after a reported write failure.
    pub fn take_output(&mut self) -> (r: String)
        requires
            old(self).wf(),
        ensures
            final(self).wf(),
            final(self).emitted() == old(self).emitted(),
            final(self).is_streaming() == old(self).is_streaming(),
            final(self).op_start() == old(self).op_start(),
            final(self).cap() == old(self).cap(),
            final(self).failed() == old(self).failed(),
            final(self).text() == old(self).text(),
            final(self).handed() == (if old(self).is_streaming() && !old(self).failed() {
                old(self).handed() + r@
            } else {
                old(self).handed()
            }),
            !old(self).failed() && old(self).is_streaming() ==> final(self).handed()
                == old(self).text(),
            old(self).failed() || !old(self).is_streaming() ==> r@ == Seq::<char>::empty(),
            sink_view(*final(self)) == sink_step(sink_view(*old(self)), SinkCall::Take),
    {
        match &mut self.mode {
            Mode::Buffered(_) => String::new(),
            Mode::Streaming(s) => {
                let mut out = String::new();
                std::mem::swap(&mut out, &mut s.pending);
                proof {
                    if !s.failed {
                        s.handed@ = s.handed@ + out@;
                    }
                    assert(s.pending@ == Seq::<char>::empty());
                    assert(s.handed@ + s.pending@ =~= s.handed@);
                }
                out
            },
        }
    }

    /// Record that the caller's writer failed: the sink stops rendering
    /// output (line bookkeeping continues) and `finish_stream` reports the
    /// failure. A no-op for a buffered sink.
    pub fn record_write_failure(&mut self)
        requires
            old(self).wf(),
        ensures
            final(self).wf(),
            final(self).emitted() == old(self).emitted(),
            final(self).is_streaming() == old(self).is_streaming(),
            final(self).op_start() == old(self).op_start(),
            final(self).cap() == old(self).cap(),
            final(self).failed() == old(self).is_streaming(),
            final(self).text() == old(self).text(),
            final(self).handed() == old(self).handed(),
            sink_view(*final(self)) == sink_step(sink_view(*old(self)), SinkCall::WriteFailed),
    {
        match &mut self.mode {
            Mode::Buffered(_) => {},
            Mode::Streaming(s) => {
                s.failed = true;
                s.pending = String::new();
            },
        }
    }

    /// Finalize a streaming sink: render the single trailing newline and
    /// hand over everything not yet taken, or report a recorded write
    /// failure. `Ok` with nothing for a buffered sink.
    pub fn finish_stream(&mut self) -> (r: Result<String, StreamWriteFailed>)
        requires
            old(self).wf(),
        ensures
            final(self).wf(),
            final(self).emitted() == old(self).emitted(),
            final(self).is_streaming() == old(self).is_streaming(),
            final(self).op_start() == old(self).op_start(),
            final(self).cap() == old(self).cap(),
            final(self).failed() == old(self).failed(),
            !old(self).is_streaming() ==> r is Ok && r->Ok_0@ == Seq::<char>::empty(),
            old(self).is_streaming() ==> (r is Err <==> old(self).failed()),
            old(self).is_streaming() && !old(self).failed() ==> {
                &&& r is Ok
                &&& final(self).text() == old(self).text() + seq!['\n']
                &&& old(self).handed() + r->Ok_0@ == final(self).text()
                &&& final(self).handed() == final(self).text()
            },
    {
        match &mut self.mode {
            Mode::Buffered(_) => Ok(String::new()),
            Mode::Streaming(s) => {
                if s.failed {
                    return Err(StreamWriteFailed);
                }
                crate::chars::push_char(&mut s.pending, '\n');
                proof {
                    s.text@ = s.text@ + seq!['\n'];
                }
                let ghost p0 = s.pending@;
                let mut out = String::new();
                std::mem::swap(&mut out, &mut s.pending);
                proof {
                    assert(out@ == p0);
                    assert(s.pending@ == Seq::<char>::empty());
                    s.handed@ = s.handed@ + out@;
                    assert(s.handed@ + s.pending@ =~= s.handed@);
                    assert(s.handed@ == s.text@);
                    assert(s.inv());
                }
                Ok(out)
            },
        }
    }
}

impl Default for GcodeSink {
    /// Buffered and empty.
    fn default() -> (s: Self)
        ensures
            s.wf(),
            !s.is_streaming(),
            s.synced(),
            s.emitted() == Seq::<Seq<char>>::empty(),
    {
        GcodeSink::new()
    }
}

/// Rendering line after line with the first-line-has-no-separator rule
/// builds exactly `join_lines`.
pub proof fn lemma_join_push(ls: Seq<Seq<char>>, l: Seq<char>)
    ensures
        join_lines(ls.push(l)) == join_lines(ls) + separator(ls.len() > 0) + l,
{
    assert(ls.push(l).drop_last() == ls);
    if ls.len() == 0 {
        assert(join_lines(ls) =~= Seq::<char>::empty());
        assert(separator(false) =~= Seq::<char>::empty());
        assert(join_lines(ls.push(l)) == l);
        assert(Seq::<char>::empty() + Seq::<char>::empty() + l =~= l);
    } else {
        assert(ls.push(l).last() == l);
    }
}


// ----- Call sequences ------------------------------------------------------

/// What the contracts say of a sink: its mode, the lines emitted, the text
/// rendered and the part of it handed out (streaming), whether a write
/// failed, where the current op starts and the per-op cap.
pub struct SinkView {
    pub streaming: bool,
    pub emitted: Seq<Seq<char>>,
    pub text: Seq<char>,
    pub handed: Seq<char>,
    pub failed: bool,
    pub op_start: nat,
    pub cap: nat,
}

pub open spec fn sink_view(s: GcodeSink) -> SinkView {
    SinkView {
        streaming: s.is_streaming(),
        emitted: s.emitted(),
        text: s.text(),
        handed: s.handed(),
        failed: s.failed(),
        op_start: s.op_start(),
        cap: s.cap(),
    }
}

/// A call that changes a sink: `push`, `extend_from_slice`, `checkpoint`,
/// `take_output` and `record_write_failure`.
pub enum SinkCall {
    Push(Seq<char>),
    Extend(Seq<Seq<char>>),
    Checkpoint,
    Take,
    WriteFailed,
}

/// `text` with `ls` rendered after it, `n` lines having come before: a
/// `\n` in front of every line but the very first.
pub open spec fn rendered(text: Seq<char>, n: nat, ls: Seq<Seq<char>>) -> Seq<char>
    decreases ls.len(),
{
    if ls.len() == 0 {
        text
    } else {
        rendered(text, n, ls.drop_last()) + separator(n + ls.len() - 1 > 0) + ls.last()
    }
}

/// The view of a sink after one call.
pub open spec fn sink_step(v: SinkView, c: SinkCall) -> SinkView {
    match c {
        SinkCall::Push(l) => SinkView {
            emitted: v.emitted.push(l),
            text: if v.streaming {
                v.text + separator(v.emitted.len() > 0) + l
            } else {
                v.text
            },
            ..v
        },
        SinkCall::Extend(ls) => SinkView {
            emitted: v.emitted + ls,
            text: if v.streaming {
                rendered(v.text, v.emitted.len(), ls)
            } else {
                v.text
            },
            ..v
        },
        SinkCall::Checkpoint => SinkView {
            op_start: if v.streaming {
                v.emitted.len()
            } else {
                0
            },
            ..v
        },
        SinkCall::Take => SinkView {
            handed: if v.streaming && !v.failed {
                v.text
            } else {
                v.handed
            },
            ..v
        },
        SinkCall::WriteFailed => SinkView { failed: v.streaming, ..v },
    }
}

/// The view after the calls `cs`, in order.
pub open spec fn run_calls(v: SinkView, cs: Seq<SinkCall>) -> SinkView
    decreases cs.len(),
{
    if cs.len() == 0 {
        v
    } else {
        run_calls(sink_step(v, cs[0]), cs.drop_first())
    }
}

/// A new buffered sink.
pub open spec fn buffered_start() -> SinkView {
    SinkView {
        streaming: false,
        emitted: Seq::empty(),
        text: Seq::empty(),
        handed: Seq::empty(),
        failed: false,
        op_start: 0,
        cap: 0,
    }
}

/// A new streaming sink with per-op cap `cap`.
pub open spec fn stream_start(cap: nat) -> SinkView {
    SinkView { streaming: true, cap, ..buffered_start() }
}

/// Whether the current op outgrew the per-op cap.
pub open spec fn view_overflowed(v: SinkView) -> bool {
    v.streaming && v.emitted.len() - v.op_start > v.cap
}

/// What `clone_from(start)` returns.
pub open spec fn view_tail_from(v: SinkView, start: nat) -> Seq<Seq<char>> {
    if start >= v.emitted.len() || view_overflowed(v) {
        Seq::empty()
    } else if start >= v.op_start {
        v.emitted.subrange(start as int, v.emitted.len() as int)
    } else {
        v.emitted.subrange(v.op_start as int, v.emitted.len() as int)
    }
}

/// The lines the calls `cs` emit, in order.
pub open spec fn calls_lines(cs: Seq<SinkCall>) -> Seq<Seq<char>>
    decreases cs.len(),
{
    if cs.len() == 0 {
        Seq::empty()
    } else {
        let first = match cs[0] {
            SinkCall::Push(l) => seq![l],
            SinkCall::Extend(ls) => ls,
            _ => Seq::empty(),
        };
        first + calls_lines(cs.drop_first())
    }
}

/// Rendering `ls` after the joined lines `e` joins `e + ls`.
proof fn lemma_rendered_join(e: Seq<Seq<char>>, ls: Seq<Seq<char>>)
    ensures
        rendered(join_lines(e), e.len(), ls) == join_lines(e + ls),
    decreases ls.len(),
{
    if ls.len() > 0 {
        lemma_rendered_join(e, ls.drop_last());
        assert(e + ls.drop_last() + seq![ls.last()] =~= e + ls);
        assert((e + ls.drop_last()).push(ls.last()) =~= e + ls);
        lemma_join_push(e + ls.drop_last(), ls.last());
    } else {
        assert(e + ls =~= e);
    }
}

/// Every call adds its lines to the emitted ones, in either mode.
pub proof fn lemma_run_emitted(v: SinkView, cs: Seq<SinkCall>)
    ensures
        run_calls(v, cs).emitted == v.emitted + calls_lines(cs),
        run_calls(v, cs).streaming == v.streaming,
        run_calls(v, cs).cap == v.cap,
    decreases cs.len(),
{
    if cs.len() == 0 {
        assert(v.emitted + Seq::<Seq<char>>::empty() =~= v.emitted);
    } else {
        let w = sink_step(v, cs[0]);
        lemma_run_emitted(w, cs.drop_first());
        let first = match cs[0] {
            SinkCall::Push(l) => seq![l],
            SinkCall::Extend(ls) => ls,
            _ => Seq::<Seq<char>>::empty(),
        };
        assert(w.emitted =~= v.emitted + first);
        assert(v.emitted + first + calls_lines(cs.drop_first()) =~= v.emitted + (first
            + calls_lines(cs.drop_first())));
    }
}

/// The invariant of a streaming sink that no write failed: the text is the
/// joined lines, and what was handed out is a prefix of it.
pub open spec fn stream_in_step(v: SinkView) -> bool {
    &&& v.streaming
    &&& !v.failed
    &&& v.text == join_lines(v.emitted)
    &&& v.handed.len() <= v.text.len()
    &&& v.text.subrange(0, v.handed.len() as int) == v.handed
}

proof fn lemma_prefix_grows(h: Seq<char>, t: Seq<char>, x: Seq<char>)
    requires
        h.len() <= t.len(),
        t.subrange(0, h.len() as int) == h,
    ensures
        h.len() <= (t + x).len(),
        (t + x).subrange(0, h.len() as int) == h,
{
    assert((t + x).subrange(0, h.len() as int) =~= t.subrange(0, h.len() as int));
}

proof fn lemma_run_in_step(v: SinkView, cs: Seq<SinkCall>)
    requires
        stream_in_step(v),
        forall|i: int| 0 <= i < cs.len() ==> !(#[trigger] cs[i] is WriteFailed),
    ensures
        stream_in_step(run_calls(v, cs)),
    decreases cs.len(),
{
    if cs.len() > 0 {
        let w = sink_step(v, cs[0]);
        match cs[0] {
            SinkCall::Push(l) => {
                lemma_join_push(v.emitted, l);
                lemma_prefix_grows(v.handed, v.text, separator(v.emitted.len() > 0) + l);
                assert(v.text + separator(v.emitted.len() > 0) + l =~= v.text + (separator(
                    v.emitted.len() > 0,
                ) + l));
            },
            SinkCall::Extend(ls) => {
                lemma_rendered_join(v.emitted, ls);
                let t2 = join_lines(v.emitted + ls);
                lemma_rendered_prefix(v.text, v.emitted.len(), ls);
                assert(t2.subrange(0, v.text.len() as int) == v.text);
                assert(t2.subrange(0, v.handed.len() as int) =~= v.text.subrange(
                    0,
                    v.handed.len() as int,
                ));
            },
            SinkCall::Take => {
                assert(v.text.subrange(0, v.text.len() as int) =~= v.text);
            },
            _ => {},
        }
        assert(stream_in_step(w));
        let rest = cs.drop_first();
        assert forall|i: int| 0 <= i < rest.len() implies !(#[trigger] rest[i] is WriteFailed) by {
            assert(rest[i] == cs[i + 1]);
        }
        lemma_run_in_step(w, rest);
    }
}

proof fn lemma_rendered_prefix(t: Seq<char>, n: nat, ls: Seq<Seq<char>>)
    ensures
        rendered(t, n, ls).len() >= t.len(),
        rendered(t, n, ls).subrange(0, t.len() as int) == t,
    decreases ls.len(),
{
    if ls.len() == 0 {
        assert(t.subrange(0, t.len() as int) =~= t);
    } else {
        lemma_rendered_prefix(t, n, ls.drop_last());
        let r0 = rendered(t, n, ls.drop_last());
        let x = separator(n + ls.len() - 1 > 0) + ls.last();
        assert(r0 + separator(n + ls.len() - 1 > 0) + ls.last() =~= r0 + x);
        assert((r0 + x).subrange(0, t.len() as int) =~= r0.subrange(0, t.len() as int));
    }
}

/// Law: a streaming sink hands out exactly what a buffered sink finishes
/// with. Run any calls but a write failure on a new streaming sink (any
/// per-op cap) and on a new buffered sink: both emit the same lines; what
/// the streaming sink has handed out is a prefix of its text; and that
/// prefix, the rest (which `take_output` or `finish_stream` hands out
/// next) and the trailing newline `finish_stream` adds make up the
/// buffered sink's `finish` text.
pub proof fn lemma_stream_equals_buffered(cap: nat, cs: Seq<SinkCall>)
    requires
        forall|i: int| 0 <= i < cs.len() ==> !(#[trigger] cs[i] is WriteFailed),
    ensures
        ({
            let s = run_calls(stream_start(cap), cs);
            let b = run_calls(buffered_start(), cs);
            &&& s.emitted == b.emitted
            &&& b.emitted == calls_lines(cs)
            &&& !s.failed
            &&& s.text == join_lines(s.emitted)
            &&& s.handed.len() <= s.text.len()
            &&& s.text.subrange(0, s.handed.len() as int) == s.handed
            &&& s.handed + s.text.subrange(s.handed.len() as int, s.text.len() as int) + seq!['\n']
                == program_text(b.emitted)
        }),
{
    let s0 = stream_start(cap);
    assert(join_lines(Seq::<Seq<char>>::empty()) =~= Seq::<char>::empty());
    assert(s0.text.subrange(0, 0) =~= Seq::<char>::empty());
    lemma_run_in_step(s0, cs);
    lemma_run_emitted(s0, cs);
    lemma_run_emitted(buffered_start(), cs);
    let s = run_calls(s0, cs);
    assert(Seq::<Seq<char>>::empty() + calls_lines(cs) =~= calls_lines(cs));
    assert(s.handed + s.text.subrange(s.handed.len() as int, s.text.len() as int) =~= s.text);
}

/// Running `a` and then `b` is running `a + b`.
pub proof fn lemma_run_concat(v: SinkView, a: Seq<SinkCall>, b: Seq<SinkCall>)
    ensures
        run_calls(v, a + b) == run_calls(run_calls(v, a), b),
    decreases a.len(),
{
    if a.len() == 0 {
        assert(a + b =~= b);
    } else {
        assert((a + b)[0] == a[0]);
        assert((a + b).drop_first() =~= a.drop_first() + b);
        lemma_run_concat(sink_step(v, a[0]), a.drop_first(), b);
    }
}

/// The calls that push the lines `m` one by one.
pub open spec fn pushes(m: Seq<Seq<char>>) -> Seq<SinkCall> {
    m.map_values(|l: Seq<char>| SinkCall::Push(l))
}

proof fn lemma_pushes_keep(v: SinkView, m: Seq<Seq<char>>)
    ensures
        run_calls(v, pushes(m)).emitted == v.emitted + m,
        run_calls(v, pushes(m)).op_start == v.op_start,
        run_calls(v, pushes(m)).cap == v.cap,
        run_calls(v, pushes(m)).streaming == v.streaming,
    decreases m.len(),
{
    if m.len() == 0 {
        assert(v.emitted + m =~= v.emitted);
    } else {
        assert(pushes(m)[0] == SinkCall::Push(m[0]));
        assert(pushes(m).drop_first() =~= pushes(m.drop_first()));
        lemma_pushes_keep(sink_step(v, SinkCall::Push(m[0])), m.drop_first());
        assert(v.emitted.push(m[0]) + m.drop_first() =~= v.emitted + m);
    }
}

/// Law: the per-op tee holds an op's lines exactly while they stay within
/// the cap. After any calls, a checkpoint, and then `k` pushed lines `m`
/// on a streaming sink with cap `cap`: the sink counts `k` more lines, is
/// overflowed exactly when `k > cap`, and `clone_from` of the checkpoint's
/// position gives `m` when `k <= cap` and nothing otherwise.
pub proof fn lemma_tee_holds_the_op_within_cap(cap: nat, cs: Seq<SinkCall>, m: Seq<Seq<char>>)
    ensures
        ({
            let at_op = run_calls(stream_start(cap), cs + seq![SinkCall::Checkpoint]);
            let s = run_calls(stream_start(cap), cs + seq![SinkCall::Checkpoint] + pushes(m));
            let start = at_op.emitted.len();
            &&& s.emitted.len() == start + m.len()
            &&& view_overflowed(s) == (m.len() > cap)
            &&& view_tail_from(s, start) == (if m.len() <= cap {
                m
            } else {
                Seq::empty()
            })
        }),
{
    let v0 = stream_start(cap);
    let c1 = cs + seq![SinkCall::Checkpoint];
    lemma_run_concat(v0, cs, seq![SinkCall::Checkpoint]);
    lemma_run_emitted(v0, cs);
    let at_op = run_calls(v0, c1);
    let w = run_calls(v0, cs);
    assert(seq![SinkCall::Checkpoint].drop_first() =~= Seq::<SinkCall>::empty());
    assert(run_calls(w, seq![SinkCall::Checkpoint]) == sink_step(w, SinkCall::Checkpoint)) by {
        reveal_with_fuel(run_calls, 2);
    }
    assert(at_op.op_start == at_op.emitted.len());
    lemma_run_concat(v0, c1, pushes(m));
    lemma_pushes_keep(at_op, m);
    let s = run_calls(v0, c1 + pushes(m));
    assert(s.emitted.subrange(at_op.emitted.len() as int, s.emitted.len() as int) =~= m);
}

/// Law: a write failure is reported once, at the end, and the writer gets
/// nothing after it. After any calls, a write failure, and any further
/// calls on a streaming sink: every pushed line still counts, the sink is
/// failed (so `finish_stream` is `Err`), and nothing more was handed out.
pub proof fn lemma_write_failure_is_deferred(
    cap: nat,
    before: Seq<SinkCall>,
    after: Seq<SinkCall>,
)
    ensures
        ({
            let at_fail = run_calls(stream_start(cap), before + seq![SinkCall::WriteFailed]);
            let s = run_calls(stream_start(cap), before + seq![SinkCall::WriteFailed] + after);
            &&& s.emitted == calls_lines(before + seq![SinkCall::WriteFailed] + after)
            &&& s.failed
            &&& s.handed == at_fail.handed
        }),
{
    let v0 = stream_start(cap);
    let c1 = before + seq![SinkCall::WriteFailed];
    lemma_run_concat(v0, before, seq![SinkCall::WriteFailed]);
    lemma_run_emitted(v0, before);
    assert(seq![SinkCall::WriteFailed].drop_first() =~= Seq::<SinkCall>::empty());
    let w = run_calls(v0, before);
    assert(run_calls(w, seq![SinkCall::WriteFailed]) == sink_step(w, SinkCall::WriteFailed)) by {
        reveal_with_fuel(run_calls, 2);
    }
    let at_fail = run_calls(v0, c1);
    assert(at_fail.failed && at_fail.streaming);
    lemma_run_concat(v0, c1, after);
    lemma_failed_stays(at_fail, after);
    lemma_run_emitted(v0, c1 + after);
    assert(Seq::<Seq<char>>::empty() + calls_lines(c1 + after) =~= calls_lines(c1 + after));
}

proof fn lemma_failed_stays(v: SinkView, cs: Seq<SinkCall>)
    requires
        v.failed,
        v.streaming,
    ensures
        run_calls(v, cs).failed,
        run_calls(v, cs).handed == v.handed,
    decreases cs.len(),
{
    if cs.len() > 0 {
        lemma_failed_stays(sink_step(v, cs[0]), cs.drop_first());
    }
}


/// A call that keeps a sink in sync and adds `block` to its lines, with
/// nothing else changed, is an `Extend` of the sink by `block`.
pub proof fn lemma_synced_extend(old: GcodeSink, new: GcodeSink, block: Seq<Seq<char>>)
    requires
        old.synced(),
        new.synced(),
        new.emitted() == old.emitted() + block,
        new.is_streaming() == old.is_streaming(),
        new.op_start() == old.op_start(),
        new.cap() == old.cap(),
        new.failed() == old.failed(),
        new.handed() == old.handed(),
    ensures
        sink_view(new) == sink_step(sink_view(old), SinkCall::Extend(block)),
{
    if old.is_streaming() {
        lemma_rendered_join(old.emitted(), block);
    }
}

} // verus!
