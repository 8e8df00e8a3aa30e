//! GRBL post-processor. It emits through an inner `LinuxCNC` post; the
//! differences are that GRBL only understands `;` line comments (paren
//! comments in raw lines and templates are rewritten), that tool changes
//! are emitted only from a configured template (GRBL is single-tool), and
//! its own header and trailer.

use vstd::prelude::*;

use crate::chars::{push_char, push_str, to_chars, trim, trim_end, trimmed_chars, trim_end_len};
use crate::gcode::linuxcnc;
use crate::gcode::linuxcnc::{
    captured, comp_line, coolant_off_template, emits, feed_line, flood_template, initial_state,
    laser_line, mist_template, restored, spindle_block, spindle_needs_emit, spindle_off_emits,
    template_or, tlo_line, unit_line, PostState,
};
use crate::gcode::{
    template_lines, template_lines_spec, wcs_word_spec, CapturedModalState, CoolantState,
    PostProfile, SpindleDirection, ToolOffset, UnitSystem, Wcs,
};
use crate::gcode::sink::{
    buffered_start, calls_lines, program_text, sink_step, sink_view, stream_start, GcodeSink,
    SinkCall, StreamWriteFailed,
};
use crate::gcode::sink::{join_lines, lemma_join_push, lines_view};
use crate::gcode::{split_char, split_on, string_of};
use vstd::utf8::{decode_utf8, encode_utf8, valid_utf8};

verus! {

/// Scanner state over a line's bytes: the code characters so far, the
/// closed comment bodies, the body being read when inside `( … )`, and
/// whether the parens went wrong (a `(` inside a comment, or a `)` outside
/// one).
pub type ParenScan = (Seq<char>, Seq<Seq<u8>>, Option<Seq<u8>>, bool);

/// One byte of the scan. Once the parens went wrong the scan stops.
/// Outside a comment, `(` opens one, `)` is a mismatch and any other byte
/// is code (taken as the character with that code point); inside, `)`
/// closes it, `(` is a nesting and any other byte is body.
pub open spec fn scan_step(st: ParenScan, b: u8) -> ParenScan {
    if st.3 {
        st
    } else {
        match st.2 {
            None => if b == 40u8 {
                (st.0, st.1, Some(Seq::<u8>::empty()), false)
            } else if b == 41u8 {
                (st.0, st.1, None, true)
            } else {
                (st.0.push(b as char), st.1, None, false)
            },
            Some(cur) => if b == 41u8 {
                (st.0, st.1.push(cur), None, false)
            } else if b == 40u8 {
                (st.0, st.1, Some(cur), true)
            } else {
                (st.0, st.1, Some(cur.push(b)), false)
            },
        }
    }
}

pub open spec fn scan(bs: Seq<u8>) -> ParenScan
    decreases bs.len(),
{
    if bs.len() == 0 {
        (Seq::empty(), Seq::empty(), None, false)
    } else {
        scan_step(scan(bs.drop_last()), bs.last())
    }
}

/// A comment body's text: its UTF-8 decoding, trimmed (empty when the
/// bytes are not UTF-8).
pub open spec fn body_text(b: Seq<u8>) -> Seq<char> {
    if valid_utf8(b) {
        trim(decode_utf8(b))
    } else {
        Seq::empty()
    }
}

pub open spec fn body_texts(bodies: Seq<Seq<u8>>) -> Seq<Seq<char>> {
    bodies.map_values(|b: Seq<u8>| body_text(b))
}

/// `; <text>` for each comment, one per line.
pub open spec fn semicolon_lines(ts: Seq<Seq<char>>) -> Seq<char> {
    join_lines(ts.map_values(|t: Seq<char>| "; "@ + t))
}

/// `\n; <text>` for each comment, concatenated.
pub open spec fn trailing_comments(ts: Seq<Seq<char>>) -> Seq<char>
    decreases ts.len(),
{
    if ts.len() == 0 {
        Seq::empty()
    } else {
        trailing_comments(ts.drop_last()) + "\n; "@ + ts.last()
    }
}

/// GRBL's comment rewrite of one line. A line whose trimmed text holds no
/// `(`, or whose parens are mismatched or nested, is kept as it is.
/// Otherwise the paren comments are taken out: a line with no code left becomes one
/// `; <body>` line per comment; a line with code keeps its trimmed code
/// and gets each comment on a fresh `; <body>` line after it.
pub open spec fn grbl_rewrite(line: Seq<char>) -> Seq<char> {
    let t = trim_end(line);
    if !t.contains('(') {
        line
    } else {
        let st = scan(encode_utf8(t));
        if st.2 is Some || st.3 {
            line
        } else if trim(st.0).len() == 0 {
            semicolon_lines(body_texts(st.1))
        } else {
            trim(st.0) + trailing_comments(body_texts(st.1))
        }
    }
}

/// The lines a GRBL post emits for a raw line.
pub open spec fn grbl_raw_lines(line: Seq<char>) -> Seq<Seq<char>> {
    split_char(grbl_rewrite(line), '\n')
}

/// `std::str::from_utf8`, owned: `Some` exactly when `bytes` is valid
/// UTF-8, holding the text the bytes encode.
#[verifier::external_body]
fn utf8_text(bytes: &[u8]) -> (r: Option<String>)
    ensures
        r is Some <==> valid_utf8(bytes@),
        r matches Some(s) ==> s@ == decode_utf8(bytes@),
{
    std::str::from_utf8(bytes).ok().map(|s| s.to_owned())
}

fn has_char(v: &[char], c: char) -> (b: bool)
    ensures
        b == v@.contains(c),
{
    let mut i: usize = 0;
    while i < v.len()
        invariant
            i <= v.len(),
            forall|k: int| 0 <= k < i ==> v@[k] != c,
        decreases v.len() - i,
    {
        if v[i] == c {
            return true;
        }
        i = i + 1;
    }
    false
}

pub open spec fn bodies_view(v: Seq<Vec<u8>>) -> Seq<Seq<u8>> {
    v.map_values(|b: Vec<u8>| b@)
}

/// Scan the bytes of `t` for paren comments; the flag is set when the
/// parens are unbalanced or nested.
fn scan_bytes(bs: &[u8]) -> (r: (String, Vec<Vec<u8>>, bool))
    ensures
        r.2 == (scan(bs@).2 is Some || scan(bs@).3),
        !r.2 ==> r.0@ == scan(bs@).0 && bodies_view(r.1@) == scan(bs@).1,
{
    let mut code = String::new();
    let mut bodies: Vec<Vec<u8>> = Vec::new();
    let mut in_body = false;
    let mut cur: Vec<u8> = Vec::new();
    let mut i: usize = 0;
    proof {
        assert(bs@.take(0) =~= Seq::<u8>::empty());
        assert(bodies_view(bodies@) =~= Seq::<Seq<u8>>::empty());
    }
    while i < bs.len()
        invariant
            i <= bs.len(),
            scan(bs@.take(i as int)) == (code@, bodies_view(bodies@), if in_body {
                Some(cur@)
            } else {
                None::<Seq<u8>>
            }, false),
        decreases bs.len() - i,
    {
        let b = bs[i];
        let ghost b0 = bodies@;
        proof {
            assert(bs@.take(i + 1).drop_last() =~= bs@.take(i as int));
            assert(bs@.take(i + 1).last() == b);
        }
        if !in_body {
            if b == 40u8 {
                in_body = true;
                cur = Vec::new();
            } else if b == 41u8 {
                proof {
                    lemma_scan_stays_bad(bs@, i + 1);
                }
                return (code, bodies, true);
            } else {
                push_char(&mut code, b as char);
            }
        } else {
            if b == 41u8 {
                let done = cur;
                bodies.push(done);
                cur = Vec::new();
                in_body = false;
                proof {
                    assert(bodies_view(bodies@) =~= bodies_view(b0).push(done@));
                }
            } else if b == 40u8 {
                proof {
                    lemma_scan_stays_bad(bs@, i + 1);
                }
                return (code, bodies, true);
            } else {
                cur.push(b);
            }
        }
        i = i + 1;
    }
    proof {
        assert(bs@.take(bs@.len() as int) =~= bs@);
    }
    (code, bodies, in_body)
}

/// Once the parens went wrong in a prefix, they stay wrong.
proof fn lemma_scan_stays_bad(bs: Seq<u8>, k: int)
    requires
        0 <= k <= bs.len(),
        scan(bs.take(k)).3,
    ensures
        scan(bs).3,
    decreases bs.len() - k,
{
    if k < bs.len() {
        assert(bs.take(k + 1).drop_last() =~= bs.take(k));
        lemma_scan_stays_bad(bs, k + 1);
    } else {
        assert(bs.take(k) =~= bs);
    }
}

/// The texts of the comment bodies.
fn texts_of(bodies: &Vec<Vec<u8>>) -> (r: Vec<String>)
    ensures
        lines_view(r@) == body_texts(bodies_view(bodies@)),
{
    let mut r: Vec<String> = Vec::new();
    let mut i: usize = 0;
    while i < bodies.len()
        invariant
            i <= bodies.len(),
            lines_view(r@) == body_texts(bodies_view(bodies@)).take(i as int),
        decreases bodies.len() - i,
    {
        let ghost r0 = r@;
        let t = match utf8_text(bodies[i].as_slice()) {
            Some(s) => {
                let cs = to_chars(s.as_str());
                let tc = trimmed_chars(cs.as_slice());
                crate::chars::from_chars(tc.as_slice())
            },
            None => String::new(),
        };
        r.push(t);
        proof {
            assert(lines_view(r@) =~= lines_view(r0).push(t@));
            assert(body_texts(bodies_view(bodies@)).take(i + 1) =~= body_texts(
                bodies_view(bodies@),
            ).take(i as int).push(t@));
        }
        i = i + 1;
    }
    proof {
        assert(body_texts(bodies_view(bodies@)).take(bodies.len() as int) =~= body_texts(
            bodies_view(bodies@),
        ));
    }
    r
}

/// Rewrite paren comments in `line` into GRBL's `;` comments (see
/// [`grbl_rewrite`]).
pub fn rewrite_paren_comments_for_grbl(line: &str) -> (r: String)
    ensures
        r@ == grbl_rewrite(line@),
{
    let chars = to_chars(line);
    let e = trim_end_len(chars.as_slice());
    let t = crate::chars::sub_vec(chars.as_slice(), 0, e);
    proof {
        assert(t@ == trim_end(line@));
    }
    if !has_char(t.as_slice(), '(') {
        return string_of(line);
    }
    let ts = crate::chars::from_chars(t.as_slice());
    let (code, bodies, open) = scan_bytes(ts.as_str().as_bytes());
    if open {
        return string_of(line);
    }
    let texts = texts_of(&bodies);
    let cc = to_chars(code.as_str());
    let code_t = trimmed_chars(cc.as_slice());
    let ghost tv = lines_view(texts@);
    let mut out = String::new();
    if code_t.len() == 0 {
        let ghost pre = tv.map_values(|x: Seq<char>| "; "@ + x);
        let mut i: usize = 0;
        proof {
            assert(pre.take(0) =~= Seq::<Seq<char>>::empty());
        }
        while i < texts.len()
            invariant
                i <= texts.len(),
                tv == lines_view(texts@),
                pre == tv.map_values(|x: Seq<char>| "; "@ + x),
                out@ == join_lines(pre.take(i as int)),
            decreases texts.len() - i,
        {
            proof {
                lemma_join_push(pre.take(i as int), pre[i as int]);
                assert(pre.take(i + 1) =~= pre.take(i as int).push(pre[i as int]));
            }
            if i > 0 {
                push_char(&mut out, '\n');
            }
            push_str(&mut out, "; ");
            push_str(&mut out, texts[i].as_str());
            proof {
                assert(pre[i as int] == "; "@ + tv[i as int]);
                if i > 0 {
                    assert(crate::gcode::sink::separator(true) == seq!['\n']);
                } else {
                    assert(crate::gcode::sink::separator(false) =~= Seq::<char>::empty());
                }
            }
            i = i + 1;
        }
        proof {
            assert(pre.take(texts.len() as int) =~= pre);
        }
    } else {
        out = crate::chars::from_chars(code_t.as_slice());
        let ghost c0 = out@;
        let mut i: usize = 0;
        proof {
            assert(tv.take(0) =~= Seq::<Seq<char>>::empty());
            assert(c0 + trailing_comments(tv.take(0)) =~= c0);
        }
        while i < texts.len()
            invariant
                i <= texts.len(),
                tv == lines_view(texts@),
                out@ == c0 + trailing_comments(tv.take(i as int)),
            decreases texts.len() - i,
        {
            push_str(&mut out, "\n; ");
            push_str(&mut out, texts[i].as_str());
            proof {
                assert(tv.take(i + 1).drop_last() =~= tv.take(i as int));
                assert(tv.take(i + 1).last() == tv[i as int]);
            }
            i = i + 1;
        }
        proof {
            assert(tv.take(texts.len() as int) =~= tv);
        }
    }
    out
}

/// Each template line, rewritten for GRBL and split into lines.
pub open spec fn grbl_block(ls: Seq<Seq<char>>) -> Seq<Seq<char>>
    decreases ls.len(),
{
    if ls.len() == 0 {
        Seq::empty()
    } else {
        grbl_block(ls.drop_last()) + grbl_raw_lines(ls.last())
    }
}

/// A template's rewritten lines when one is configured, else `builtin`.
pub open spec fn grbl_template_or(t: Option<String>, builtin: Seq<Seq<char>>) -> Seq<Seq<char>> {
    match t {
        Some(s) => grbl_block(template_lines_spec(s@)),
        None => builtin,
    }
}

proof fn lemma_grbl_block_prefix(ls: Seq<Seq<char>>, j: int)
    requires
        0 <= j <= ls.len(),
    ensures
        grbl_block(ls.take(j)).len() <= grbl_block(ls).len(),
    decreases ls.len() - j,
{
    if j < ls.len() {
        lemma_grbl_block_prefix(ls.drop_last(), j);
        assert(ls.drop_last().take(j) =~= ls.take(j));
    } else {
        assert(ls.take(j) =~= ls);
    }
}

/// The GRBL post.
pub struct Post {
    inner: linuxcnc::Post,
}

impl Post {
    /// The inner `LinuxCNC` post GRBL emits through.
    pub closed spec fn base(&self) -> linuxcnc::Post {
        self.inner
    }

    /// A buffered GRBL post in its initial state (`M3` laser firing).
    pub fn new() -> (p: Self)
        ensures
            p.base().wf(),
            initial_state(p.base().st()),
            p.base().lines() == Seq::<Seq<char>>::empty(),
            !p.base().out().is_streaming(),
            p.base().out().synced(),
            sink_view(p.base().out()) == buffered_start(),
    {
        Post { inner: linuxcnc::Post::new() }
    }

    /// A buffered GRBL post; in dynamic-power laser mode (`dynamic`) the
    /// laser is armed and fired with `M4` instead of `M3`.
    pub fn with_dynamic_laser(dynamic: bool) -> (p: Self)
        ensures
            p.base().wf(),
            p.base().st().laser_dynamic == dynamic,
            initial_state(PostState { laser_dynamic: false, ..p.base().st() }),
            p.base().lines() == Seq::<Seq<char>>::empty(),
            !p.base().out().is_streaming(),
            p.base().out().synced(),
    {
        let mut p = Post::new();
        p.inner.set_laser_dynamic(dynamic);
        p
    }

    /// A streaming GRBL post (see [`linuxcnc::Post::streaming`]).
    pub fn streaming() -> (p: Self)
        ensures
            p.base().wf(),
            initial_state(p.base().st()),
            p.base().lines() == Seq::<Seq<char>>::empty(),
            p.base().out().is_streaming(),
            p.base().out().cap() == crate::gcode::sink::DEFAULT_STREAM_TEE_CAP_LINES,
            p.base().out().op_start() == 0,
            !p.base().out().failed(),
            p.base().out().handed() == Seq::<char>::empty(),
            p.base().out().synced(),
            sink_view(p.base().out()) == stream_start(
                crate::gcode::sink::DEFAULT_STREAM_TEE_CAP_LINES as nat,
            ),
    {
        Post { inner: linuxcnc::Post::streaming() }
    }

    /// A streaming GRBL post with a per-op tee of at most `tail_cap` lines.
    pub fn streaming_with_cap(tail_cap: usize) -> (p: Self)
        ensures
            p.base().wf(),
            initial_state(p.base().st()),
            p.base().lines() == Seq::<Seq<char>>::empty(),
            p.base().out().is_streaming(),
            p.base().out().cap() == tail_cap,
            p.base().out().op_start() == 0,
            !p.base().out().failed(),
            p.base().out().handed() == Seq::<char>::empty(),
            p.base().out().synced(),
            sink_view(p.base().out()) == stream_start(tail_cap as nat),
    {
        Post { inner: linuxcnc::Post::streaming_with_cap(tail_cap) }
    }

    /// Emit `cmd` with its paren comments rewritten to `;` comments, one
    /// output line per resulting line.
    pub fn raw(&mut self, cmd: &str)
        requires
            old(self).base().wf(),
            old(self).base().room(grbl_raw_lines(cmd@).len() as int),
        ensures
            emits(old(self).base(), final(self).base(), grbl_raw_lines(cmd@)),
            final(self).base().st() == old(self).base().st(),
    {
        let rewritten = rewrite_paren_comments_for_grbl(cmd);
        let cs = to_chars(rewritten.as_str());
        let pieces = split_on(cs.as_slice(), '\n');
        self.inner.out_extend_lines(pieces.as_slice());
    }

    /// Emit each template line through [`Post::raw`].
    pub(crate) fn raw_lines(&mut self, ls: Vec<String>)
        requires
            old(self).base().wf(),
            old(self).base().room(grbl_block(lines_view(ls@)).len() as int),
        ensures
            emits(old(self).base(), final(self).base(), grbl_block(lines_view(ls@))),
            final(self).base().st() == old(self).base().st(),
    {
        let ghost lv = lines_view(ls@);
        let ghost l0 = self.base().lines();
        let mut i: usize = 0;
        proof {
            assert(lv.take(0) =~= Seq::<Seq<char>>::empty());
            assert(l0 + grbl_block(lv.take(0)) =~= l0);
        }
        while i < ls.len()
            invariant
                i <= ls.len(),
                lv == lines_view(ls@),
                l0 == old(self).base().lines(),
                l0.len() + grbl_block(lv).len() < usize::MAX,
                emits(old(self).base(), self.base(), grbl_block(lv.take(i as int))),
                self.base().st() == old(self).base().st(),
            decreases ls.len() - i,
        {
            proof {
                assert(lv.take(i + 1).drop_last() =~= lv.take(i as int));
                assert(lv.take(i + 1).last() == lv[i as int]);
                lemma_grbl_block_prefix(lv, i + 1);
            }
            self.raw(ls[i].as_str());
            proof {
                assert(l0 + grbl_block(lv.take(i as int)) + grbl_raw_lines(lv[i as int]) =~= l0
                    + grbl_block(lv.take(i + 1)));
            }
            i = i + 1;
        }
        proof {
            assert(lv.take(ls.len() as int) =~= lv);
        }
    }

    /// `; text`.
    pub fn comment(&mut self, text: &str)
        requires
            old(self).base().wf(),
            old(self).base().room(1),
        ensures
            emits(old(self).base(), final(self).base(), seq!["; "@ + text@]),
            final(self).base().st() == old(self).base().st(),
    {
        let mut s = string_of("; ");
        push_str(&mut s, text);
        self.inner.raw(s.as_str());
    }

    /// The program header: the profile's start template (rewritten), else
    /// `; generated by ivaCAM (GRBL)`.
    pub fn program_start(&mut self)
        requires
            old(self).base().wf(),
            old(self).base().room(
                grbl_template_or(
                    linuxcnc::start_template(old(self).base().st().profile),
                    seq!["; generated by ivaCAM (GRBL)"@],
                ).len() as int,
            ),
        ensures
            emits(
                old(self).base(),
                final(self).base(),
                grbl_template_or(
                    linuxcnc::start_template(old(self).base().st().profile),
                    seq!["; generated by ivaCAM (GRBL)"@],
                ),
            ),
            final(self).base().st() == old(self).base().st(),
    {
        let t = match self.inner.profile() {
            Some(p) => p.program_start.clone(),
            None => None,
        };
        match t {
            Some(t) => {
                let ls = template_lines(&t);
                self.raw_lines(ls);
            },
            None => {
                self.inner.raw("; generated by ivaCAM (GRBL)");
            },
        }
    }

    /// The program trailer: the profile's end template (rewritten), else
    /// `M2`.
    pub fn program_end(&mut self)
        requires
            old(self).base().wf(),
            old(self).base().room(
                grbl_template_or(
                    linuxcnc::end_template(old(self).base().st().profile),
                    seq!["M2"@],
                ).len() as int,
            ),
        ensures
            emits(
                old(self).base(),
                final(self).base(),
                grbl_template_or(linuxcnc::end_template(old(self).base().st().profile), seq!["M2"@]),
            ),
            final(self).base().st() == old(self).base().st(),
    {
        let t = match self.inner.profile() {
            Some(p) => p.program_end.clone(),
            None => None,
        };
        match t {
            Some(t) => {
                let ls = template_lines(&t);
                self.raw_lines(ls);
            },
            None => {
                self.inner.raw("M2");
            },
        }
    }

    /// Tool change: only a configured tool-change template is emitted
    /// (rewritten); without one GRBL, being single-tool, emits nothing.
    pub fn tool(&mut self, n: u32)
        requires
            old(self).base().wf(),
            old(self).base().room(
                grbl_template_or(
                    linuxcnc::tool_template(old(self).base().st().profile),
                    Seq::empty(),
                ).len() as int,
            ),
        ensures
            emits(
                old(self).base(),
                final(self).base(),
                grbl_template_or(linuxcnc::tool_template(old(self).base().st().profile), Seq::empty()),
            ),
            final(self).base().st() == old(self).base().st(),
    {
        let t = match self.inner.profile() {
            Some(p) => p.tool_change.clone(),
            None => None,
        };
        match t {
            Some(t) => {
                let ls = template_lines(&t);
                self.raw_lines(ls);
            },
            None => {
                proof {
                    assert(self.base().lines() + Seq::<Seq<char>>::empty() =~= self.base().lines());
                }
            },
        }
    }

    /// GRBL has no numbered parameters: the probed tool length is applied
    /// only by a grblHAL tool-change macro, so this emits a comment that
    /// says so.
    pub fn apply_probed_tool_length(&mut self)
        requires
            old(self).base().wf(),
            old(self).base().room(1),
        ensures
            emits(
                old(self).base(),
                final(self).base(),
                seq![
                    "; tool length offset: relies on grblHAL $341 in the M6 macro (see grbl_fixed_sensor_no_offset)"@,
                ],
            ),
            final(self).base().st() == old(self).base().st(),
    {
        self.inner.raw(
            "; tool length offset: relies on grblHAL $341 in the M6 macro (see grbl_fixed_sensor_no_offset)",
        );
    }

    /// An empty separator line.
    pub fn separation(&mut self)
        requires
            old(self).base().wf(),
            old(self).base().room(1),
        ensures
            emits(old(self).base(), final(self).base(), seq![Seq::<char>::empty()]),
            final(self).base().st() == old(self).base().st(),
    {
        self.inner.separation();
    }

    /// `G21` (mm) or `G20` (inch).
    pub fn unit(&mut self, unit: UnitSystem)
        requires
            old(self).base().wf(),
            old(self).base().room(1),
        ensures
            emits(old(self).base(), final(self).base(), seq![unit_line(unit)]),
            final(self).base().st() == old(self).base().st(),
    {
        self.inner.unit(unit);
    }

    /// `G90` (absolute) or `G91` (incremental).
    pub fn absolute(&mut self, active: bool)
        requires
            old(self).base().wf(),
            old(self).base().room(1),
        ensures
            emits(
                old(self).base(),
                final(self).base(),
                seq![if active { "G90"@ } else { "G91"@ }],
            ),
            final(self).base().st() == (PostState { absolute: active, ..old(self).base().st() }),
    {
        self.inner.absolute(active);
    }

    /// Feed rate rendered by the caller (see
    /// [`linuxcnc::Post::feedrate_rendered`]).
    pub fn feedrate_rendered(&mut self, rate: u32, text: Option<&str>)
        requires
            old(self).base().wf(),
            old(self).base().room(1),
        ensures
            rate == 0 || old(self).base().st().last_rate == Some(rate) ==> {
                &&& emits(old(self).base(), final(self).base(), Seq::empty())
                &&& final(self).base().st() == old(self).base().st()
            },
            rate != 0 && old(self).base().st().last_rate != Some(rate) ==> {
                &&& emits(
                    old(self).base(),
                    final(self).base(),
                    match text {
                        Some(t) => seq![t@],
                        None => Seq::<Seq<char>>::empty(),
                    },
                )
                &&& final(self).base().st() == (PostState {
                    last_rate: Some(rate),
                    ..old(self).base().st()
                })
            },
    {
        self.inner.feedrate_rendered(rate, text);
    }

    /// `F<rate>` on a change of feed rate. A zero rate is never emitted
    /// (controllers halt on `F0`): the modal feed stays as it was.
    pub fn feedrate(&mut self, rate: u32)
        requires
            old(self).base().wf(),
            old(self).base().room(1),
        ensures
            rate == 0 || old(self).base().st().last_rate == Some(rate) ==> {
                &&& emits(old(self).base(), final(self).base(), Seq::empty())
                &&& final(self).base().st() == old(self).base().st()
            },
            rate != 0 && old(self).base().st().last_rate != Some(rate) ==> {
                &&& emits(old(self).base(), final(self).base(), seq![feed_line(rate as nat)])
                &&& final(self).base().st() == (PostState { last_rate: Some(rate), ..old(self).base().st() })
            },
    {
        self.inner.feedrate(rate);
    }

    /// Cutter compensation: `G40` for none/on, `G42` inside, `G41` outside.
    pub fn tool_offsets(&mut self, offset: ToolOffset)
        requires
            old(self).base().wf(),
            old(self).base().room(1),
        ensures
            emits(old(self).base(), final(self).base(), seq![comp_line(offset)]),
            final(self).base().st() == old(self).base().st(),
    {
        self.inner.tool_offsets(offset);
    }

    /// Mist coolant on, only on a change of coolant state: the profile's
    /// template, else `M7`.
    pub fn coolant_mist(&mut self)
        requires
            old(self).base().wf(),
            old(self).base().room(template_or(mist_template(old(self).base().st().profile), "M7"@).len() as int),
        ensures
            old(self).base().st().last_coolant == CoolantState::Mist ==> {
                &&& emits(old(self).base(), final(self).base(), Seq::empty())
                &&& final(self).base().st() == old(self).base().st()
            },
            old(self).base().st().last_coolant != CoolantState::Mist ==> {
                &&& emits(
                    old(self).base(),
                    final(self).base(),
                    template_or(mist_template(old(self).base().st().profile), "M7"@),
                )
                &&& final(self).base().st() == (PostState {
                    last_coolant: CoolantState::Mist,
                    ..old(self).base().st()
                })
            },
    {
        self.inner.coolant_mist();
    }

    /// Flood coolant on, only on a change of coolant state: the profile's
    /// template, else `M8`.
    pub fn coolant_flood(&mut self)
        requires
            old(self).base().wf(),
            old(self).base().room(template_or(flood_template(old(self).base().st().profile), "M8"@).len() as int),
        ensures
            old(self).base().st().last_coolant == CoolantState::Flood ==> {
                &&& emits(old(self).base(), final(self).base(), Seq::empty())
                &&& final(self).base().st() == old(self).base().st()
            },
            old(self).base().st().last_coolant != CoolantState::Flood ==> {
                &&& emits(
                    old(self).base(),
                    final(self).base(),
                    template_or(flood_template(old(self).base().st().profile), "M8"@),
                )
                &&& final(self).base().st() == (PostState {
                    last_coolant: CoolantState::Flood,
                    ..old(self).base().st()
                })
            },
    {
        self.inner.coolant_flood();
    }

    /// Coolant off unless already off (an `Unknown` state still emits, so
    /// a defensive shutdown always goes out): the profile's flood-off
    /// template, else its mist-off template, else `M9`.
    pub fn coolant_off(&mut self)
        requires
            old(self).base().wf(),
            old(self).base().room(
                template_or(coolant_off_template(old(self).base().st().profile), "M9"@).len() as int,
            ),
        ensures
            old(self).base().st().last_coolant == CoolantState::Off ==> {
                &&& emits(old(self).base(), final(self).base(), Seq::empty())
                &&& final(self).base().st() == old(self).base().st()
            },
            old(self).base().st().last_coolant != CoolantState::Off ==> {
                &&& emits(
                    old(self).base(),
                    final(self).base(),
                    template_or(coolant_off_template(old(self).base().st().profile), "M9"@),
                )
                &&& final(self).base().st() == (PostState {
                    last_coolant: CoolantState::Off,
                    ..old(self).base().st()
                })
            },
    {
        self.inner.coolant_off();
    }

    /// `M5`, unless the spindle is known to be off and no profile is
    /// active. Clears the tracked speed and direction so the next spindle
    /// command re-asserts them.
    pub fn spindle_off(&mut self)
        requires
            old(self).base().wf(),
            old(self).base().room(1),
        ensures
            !spindle_off_emits(old(self).base().st()) ==> {
                &&& emits(old(self).base(), final(self).base(), Seq::empty())
                &&& final(self).base().st() == old(self).base().st()
            },
            spindle_off_emits(old(self).base().st()) ==> {
                &&& emits(old(self).base(), final(self).base(), seq!["M5"@])
                &&& final(self).base().st() == (PostState {
                    spindle_lit: false,
                    last_speed: None,
                    last_spindle_dir: None,
                    ..old(self).base().st()
                })
            },
    {
        self.inner.spindle_off();
    }

    /// Spindle clockwise: `M3 S<speed>` (then `G4 P<pause>` when
    /// `pause > 0`) when the speed or the direction changed.
    pub fn spindle_cw(&mut self, speed: u32, pause: u32)
        requires
            old(self).base().wf(),
            old(self).base().room(2),
        ensures
            !spindle_needs_emit(old(self).base().st(), SpindleDirection::Cw, speed) ==> {
                &&& emits(old(self).base(), final(self).base(), Seq::empty())
                &&& final(self).base().st() == (PostState { spindle_lit: true, ..old(self).base().st() })
            },
            spindle_needs_emit(old(self).base().st(), SpindleDirection::Cw, speed) ==> {
                &&& emits(
                    old(self).base(),
                    final(self).base(),
                    spindle_block(SpindleDirection::Cw, speed as nat, pause as nat),
                )
                &&& final(self).base().st() == (PostState {
                    spindle_lit: true,
                    last_speed: Some(speed),
                    last_spindle_dir: Some(SpindleDirection::Cw),
                    ..old(self).base().st()
                })
            },
    {
        self.inner.spindle_cw(speed, pause);
    }

    /// Spindle counter-clockwise: `M4 S<speed>` (then `G4 P<pause>` when
    /// `pause > 0`) when the speed or the direction changed.
    pub fn spindle_ccw(&mut self, speed: u32, pause: u32)
        requires
            old(self).base().wf(),
            old(self).base().room(2),
        ensures
            !spindle_needs_emit(old(self).base().st(), SpindleDirection::Ccw, speed) ==> {
                &&& emits(old(self).base(), final(self).base(), Seq::empty())
                &&& final(self).base().st() == (PostState { spindle_lit: true, ..old(self).base().st() })
            },
            spindle_needs_emit(old(self).base().st(), SpindleDirection::Ccw, speed) ==> {
                &&& emits(
                    old(self).base(),
                    final(self).base(),
                    spindle_block(SpindleDirection::Ccw, speed as nat, pause as nat),
                )
                &&& final(self).base().st() == (PostState {
                    spindle_lit: true,
                    last_speed: Some(speed),
                    last_spindle_dir: Some(SpindleDirection::Ccw),
                    ..old(self).base().st()
                })
            },
    {
        self.inner.spindle_ccw(speed, pause);
    }

    /// Fire the laser at `power` (`M3 S<power>`, or `M4` in dynamic-power
    /// mode) unless it already runs at that power.
    pub fn laser_on(&mut self, power: u32)
        requires
            old(self).base().wf(),
            old(self).base().room(1),
        ensures
            old(self).base().st().last_speed == Some(power) ==> {
                &&& emits(old(self).base(), final(self).base(), Seq::empty())
                &&& final(self).base().st() == (PostState { spindle_lit: true, ..old(self).base().st() })
            },
            old(self).base().st().last_speed != Some(power) ==> {
                &&& emits(
                    old(self).base(),
                    final(self).base(),
                    seq![laser_line(old(self).base().st().laser_dynamic, power as nat)],
                )
                &&& final(self).base().st() == (PostState {
                    spindle_lit: true,
                    last_speed: Some(power),
                    ..old(self).base().st()
                })
            },
    {
        self.inner.laser_on(power);
    }

    /// Arm the laser at zero power before a rapid (`M3 S0` / `M4 S0`)
    /// unless it is already armed at zero.
    pub fn laser_arm(&mut self)
        requires
            old(self).base().wf(),
            old(self).base().room(1),
        ensures
            old(self).base().st().last_speed == Some(0u32) ==> {
                &&& emits(old(self).base(), final(self).base(), Seq::empty())
                &&& final(self).base().st() == (PostState { spindle_lit: true, ..old(self).base().st() })
            },
            old(self).base().st().last_speed != Some(0u32) ==> {
                &&& emits(
                    old(self).base(),
                    final(self).base(),
                    seq![laser_line(old(self).base().st().laser_dynamic, 0)],
                )
                &&& final(self).base().st() == (PostState {
                    spindle_lit: true,
                    last_speed: Some(0u32),
                    ..old(self).base().st()
                })
            },
    {
        self.inner.laser_arm();
    }

    /// `M5`: drop the beam, and forget the power so the next fire
    /// re-emits it.
    pub fn laser_off(&mut self)
        requires
            old(self).base().wf(),
            old(self).base().room(1),
        ensures
            emits(old(self).base(), final(self).base(), seq!["M5"@]),
            final(self).base().st() == (PostState {
                spindle_lit: false,
                last_speed: None,
                ..old(self).base().st()
            }),
    {
        self.inner.laser_off();
    }

    /// `G43 H<h>`: apply the tool table's length offset `h`.
    pub fn tool_length_offset(&mut self, h: u32)
        requires
            old(self).base().wf(),
            old(self).base().room(1),
        ensures
            emits(old(self).base(), final(self).base(), seq![tlo_line(h as nat)]),
            final(self).base().st() == old(self).base().st(),
    {
        self.inner.tool_length_offset(h);
    }

    /// `G49`: cancel tool-length compensation.
    pub fn tool_length_offset_off(&mut self)
        requires
            old(self).base().wf(),
            old(self).base().room(1),
        ensures
            emits(old(self).base(), final(self).base(), seq!["G49"@]),
            final(self).base().st() == old(self).base().st(),
    {
        self.inner.tool_length_offset_off();
    }

    /// `G17`.
    pub fn plane_xy(&mut self)
        requires
            old(self).base().wf(),
            old(self).base().room(1),
        ensures
            emits(old(self).base(), final(self).base(), seq!["G17"@]),
            final(self).base().st() == old(self).base().st(),
    {
        self.inner.plane_xy();
    }

    /// `G40`.
    pub fn cutter_comp_off(&mut self)
        requires
            old(self).base().wf(),
            old(self).base().room(1),
        ensures
            emits(old(self).base(), final(self).base(), seq!["G40"@]),
            final(self).base().st() == old(self).base().st(),
    {
        self.inner.cutter_comp_off();
    }

    /// `G94`.
    pub fn feed_per_minute(&mut self)
        requires
            old(self).base().wf(),
            old(self).base().room(1),
        ensures
            emits(old(self).base(), final(self).base(), seq!["G94"@]),
            final(self).base().st() == old(self).base().st(),
    {
        self.inner.feed_per_minute();
    }

    /// Select and pin the work coordinate system.
    pub fn select_wcs(&mut self, wcs: Wcs)
        requires
            old(self).base().wf(),
            old(self).base().room(1),
        ensures
            emits(old(self).base(), final(self).base(), seq![wcs_word_spec(wcs)]),
            final(self).base().st() == (PostState { wcs, ..old(self).base().st() }),
    {
        self.inner.select_wcs(wcs);
    }

    /// Install (or clear) the profile whose templates replace the
    /// built-in blocks.
    pub fn set_post_profile(&mut self, profile: Option<&PostProfile>)
        requires
            old(self).base().wf(),
        ensures
            emits(old(self).base(), final(self).base(), Seq::empty()),
            final(self).base().st() == (PostState {
                profile: match profile {
                    Some(p) => Some(*p),
                    None => None,
                },
                ..old(self).base().st()
            }),
    {
        self.inner.set_post_profile(profile);
    }

    /// The finished program of a buffered post (lines joined by `\n`, plus a
    /// trailing `\n`); empty for a streaming post.
    pub fn finish(&self) -> (r: String)
        ensures
            r@ == (if self.base().out().is_streaming() {
                Seq::<char>::empty()
            } else {
                program_text(self.base().lines())
            }),
    {
        self.inner.finish()
    }

    /// Hand over the streamed text not yet taken (see
    /// [`GcodeSink::take_output`]).
    pub fn take_output(&mut self) -> (r: String)
        requires
            old(self).base().wf(),
        ensures
            final(self).base().wf(),
            final(self).base().lines() == old(self).base().lines(),
            final(self).base().st() == old(self).base().st(),
            final(self).base().out().is_streaming() == old(self).base().out().is_streaming(),
            final(self).base().out().op_start() == old(self).base().out().op_start(),
            final(self).base().out().cap() == old(self).base().out().cap(),
            final(self).base().out().failed() == old(self).base().out().failed(),
            final(self).base().out().text() == old(self).base().out().text(),
            old(self).base().out().is_streaming() && !old(self).base().out().failed() ==> {
                &&& final(self).base().out().handed() == old(self).base().out().handed() + r@
                &&& final(self).base().out().handed() == old(self).base().out().text()
            },
            old(self).base().out().failed() || !old(self).base().out().is_streaming() ==> {
                &&& r@ == Seq::<char>::empty()
                &&& final(self).base().out().handed() == old(self).base().out().handed()
            },
            sink_view(final(self).base().out()) == sink_step(
                sink_view(old(self).base().out()),
                SinkCall::Take,
            ),
    {
        self.inner.take_output()
    }

    /// Report that the caller's writer failed (see
    /// [`GcodeSink::record_write_failure`]).
    pub fn record_write_failure(&mut self)
        requires
            old(self).base().wf(),
        ensures
            final(self).base().wf(),
            final(self).base().lines() == old(self).base().lines(),
            final(self).base().st() == old(self).base().st(),
            final(self).base().out().is_streaming() == old(self).base().out().is_streaming(),
            final(self).base().out().op_start() == old(self).base().out().op_start(),
            final(self).base().out().cap() == old(self).base().out().cap(),
            final(self).base().out().failed() == old(self).base().out().is_streaming(),
            final(self).base().out().text() == old(self).base().out().text(),
            final(self).base().out().handed() == old(self).base().out().handed(),
            sink_view(final(self).base().out()) == sink_step(
                sink_view(old(self).base().out()),
                SinkCall::WriteFailed,
            ),
    {
        self.inner.record_write_failure();
    }

    /// Finalize a streaming post: the rest of the text with the trailing
    /// newline, or the recorded write failure. For a streaming post that
    /// stayed in sync, everything handed out is the buffered program text
    /// of the same lines.
    pub fn finish_stream(&mut self) -> (r: Result<String, StreamWriteFailed>)
        requires
            old(self).base().wf(),
        ensures
            final(self).base().wf(),
            final(self).base().lines() == old(self).base().lines(),
            final(self).base().st() == old(self).base().st(),
            final(self).base().out().is_streaming() == old(self).base().out().is_streaming(),
            !old(self).base().out().is_streaming() ==> r is Ok && r->Ok_0@ == Seq::<char>::empty(),
            old(self).base().out().is_streaming() ==> (r is Err <==> old(self).base().out().failed()),
            old(self).base().out().is_streaming() && !old(self).base().out().failed() ==> {
                &&& r is Ok
                &&& final(self).base().out().handed() == old(self).base().out().handed() + r->Ok_0@
                &&& old(self).base().out().synced() ==> old(self).base().out().handed() + r->Ok_0@
                    == program_text(old(self).base().lines())
            },
    {
        self.inner.finish_stream()
    }

    /// Number of lines emitted.
    pub fn out_lines_count(&self) -> (n: usize)
        requires
            self.base().wf(),
        ensures
            n == self.base().lines().len(),
    {
        self.inner.out_lines_count()
    }

    /// The emitted lines from `start` on (see [`GcodeSink::clone_from`]).
    pub fn out_lines_clone_from(&self, start: usize) -> (r: Vec<String>)
        requires
            self.base().wf(),
        ensures
            lines_view(r@) == (if start >= self.base().lines().len() || self.base().out().overflowed_spec() {
                Seq::<Seq<char>>::empty()
            } else if start >= self.base().out().op_start() {
                self.base().lines().subrange(start as int, self.base().lines().len() as int)
            } else {
                self.base().lines().subrange(self.base().out().op_start() as int, self.base().lines().len() as int)
            }),
    {
        self.inner.out_lines_clone_from(start)
    }

    /// Splice pre-rendered lines in verbatim (an op-cache replay).
    pub fn out_extend_lines(&mut self, lines: &[String])
        requires
            old(self).base().wf(),
            old(self).base().room(lines@.len() as int),
        ensures
            emits(old(self).base(), final(self).base(), lines_view(lines@)),
            final(self).base().st() == old(self).base().st(),
    {
        self.inner.out_extend_lines(lines);
    }

    /// Mark an op boundary in the output (see [`GcodeSink::checkpoint`]).
    pub fn checkpoint(&mut self)
        requires
            old(self).base().wf(),
        ensures
            final(self).base().wf(),
            old(self).base().out().synced() ==> final(self).base().out().synced(),
            final(self).base().lines() == old(self).base().lines(),
            final(self).base().st() == old(self).base().st(),
            final(self).base().out().is_streaming() == old(self).base().out().is_streaming(),
            final(self).base().out().op_start() == (if old(self).base().out().is_streaming() {
                old(self).base().lines().len()
            } else {
                0
            }),
            final(self).base().out().cap() == old(self).base().out().cap(),
            final(self).base().out().failed() == old(self).base().out().failed(),
            final(self).base().out().text() == old(self).base().out().text(),
            final(self).base().out().handed() == old(self).base().out().handed(),
            sink_view(final(self).base().out()) == sink_step(
                sink_view(old(self).base().out()),
                SinkCall::Checkpoint,
            ),
    {
        self.inner.checkpoint();
    }

    /// Whether the current op overflowed the streaming tee.
    pub fn out_op_overflowed(&self) -> (b: bool)
        requires
            self.base().wf(),
        ensures
            b == self.base().out().overflowed_spec(),
    {
        self.inner.out_op_overflowed()
    }

    /// Forget the tracked feed, speed and spindle direction so the next
    /// commands re-emit them (after a pause). Coolant is kept.
    pub fn reset_state(&mut self)
        requires
            old(self).base().wf(),
        ensures
            emits(old(self).base(), final(self).base(), Seq::empty()),
            final(self).base().st() == (PostState {
                last_rate: None,
                last_speed: None,
                last_spindle_dir: None,
                ..old(self).base().st()
            }),
    {
        self.inner.reset_state();
    }

    /// The modal state to carry across an op boundary.
    pub fn capture_state(&self) -> (c: CapturedModalState)
        ensures
            c == captured(self.base().st()),
    {
        self.inner.capture_state()
    }

    /// Restore a captured op-boundary modal state.
    pub fn restore_state(&mut self, c: &CapturedModalState)
        requires
            old(self).base().wf(),
        ensures
            emits(old(self).base(), final(self).base(), Seq::empty()),
            final(self).base().st() == restored(old(self).base().st(), *c),
    {
        self.inner.restore_state(c);
    }

    /// GRBL has no canned cycles (drills are expanded into plain moves), so
    /// there is no cycle to cancel: nothing is emitted.
    pub fn cancel_canned_cycle(&mut self)
        requires
            old(self).base().wf(),
        ensures
            emits(old(self).base(), final(self).base(), Seq::empty()),
            final(self).base().st() == old(self).base().st(),
    {
        proof {
            assert(self.base().lines() + Seq::<Seq<char>>::empty() =~= self.base().lines());
        }
    }

    /// The active work coordinate system; its `P` number addresses the
    /// offset table a `G10 L20` rewrites.
    pub fn active_wcs(&self) -> (w: Wcs)
        ensures
            w == self.base().st().wcs,
    {
        self.inner.active_wcs()
    }
}

impl Default for Post {
    /// A buffered GRBL post in its initial state.
    fn default() -> (p: Self)
        ensures
            p.base().wf(),
            initial_state(p.base().st()),
            p.base().lines() == Seq::<Seq<char>>::empty(),
            !p.base().out().is_streaming(),
    {
        Post::new()
    }
}

/// The inner posts of a run of GRBL posts.
pub open spec fn bases(ps: Seq<Post>) -> Seq<linuxcnc::Post> {
    ps.map_values(|p: Post| p.base())
}

/// Law: a streaming GRBL post hands out the same program a buffered GRBL
/// post finishes with. Run the same calls (no write failure among them)
/// from a new buffered post and from a new streaming post of any per-op
/// cap: both end with the same lines, and what the streaming one has handed
/// out, the rest it holds and the trailing newline make up the buffered
/// post's `finish` text.
pub proof fn lemma_grbl_stream_equals_buffered(a: Seq<Post>, b: Seq<Post>, cs: Seq<SinkCall>)
    requires
        linuxcnc::post_trace(bases(a), cs),
        linuxcnc::post_trace(bases(b), cs),
        sink_view(a[0].base().out()) == buffered_start(),
        sink_view(b[0].base().out()) == stream_start(b[0].base().out().cap()),
        forall|i: int| 0 <= i < cs.len() ==> !(#[trigger] cs[i] is WriteFailed),
    ensures
        ({
            let fa = a.last().base();
            let fb = b.last().base();
            let h = fb.out().handed();
            let t = fb.out().text();
            &&& fb.lines() == fa.lines()
            &&& fa.lines() == calls_lines(cs)
            &&& !fa.out().is_streaming()
            &&& fb.out().is_streaming()
            &&& !fb.out().failed()
            &&& fb.out().synced()
            &&& h.len() <= t.len()
            &&& h + t.subrange(h.len() as int, t.len() as int) + seq!['\n'] == program_text(
                fa.lines(),
            )
        }),
{
    assert(bases(a)[0] == a[0].base());
    assert(bases(b)[0] == b[0].base());
    assert(bases(a).last() == a.last().base());
    assert(bases(b).last() == b.last().base());
    linuxcnc::lemma_post_stream_equals_buffered(bases(a), bases(b), cs);
}

} // verus!
