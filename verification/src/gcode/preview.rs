//! The decisions of the g-code preview interpreter: op markers, comment
//! stripping, `G`-word classification, the kind of a straight move, and
//! the line ↔ segment index the text panel and the 3D view share.
//! The interpreter's coordinate arithmetic runs on top of these.

use vstd::prelude::*;

use crate::chars::{
    has_prefix, is_ws, is_ws_char, parse_u32_chars, parse_u32_spec, push_char, to_chars, trim,
};
use crate::gcode::{dec, digit_char, lemma_dec_parses};

verus! {

/// The kind of a preview segment.
#[derive(Debug, Clone, Copy, PartialEq, Eq, Structural)]
pub enum MoveKind {
    Rapid,
    Cut,
    Plunge,
    Retract,
    Arc,
}

/// A gcode line that produced no segment.
pub const NO_SEGMENT: u32 = 0xFFFF_FFFFu32;

/// `s` without its trailing run of `c`.
pub open spec fn strip_trailing(s: Seq<char>, c: char) -> Seq<char>
    decreases s.len(),
{
    if s.len() > 0 && s.last() == c {
        strip_trailing(s.drop_last(), c)
    } else {
        s
    }
}

/// The characters of `s` up to its first whitespace.
pub open spec fn first_token(s: Seq<char>) -> Seq<char>
    decreases s.len(),
{
    if s.len() == 0 || is_ws(s[0]) {
        Seq::empty()
    } else {
        seq![s[0]] + first_token(s.drop_first())
    }
}

/// The op id of a `; OP <n>` or `(OP <n>)` marker line (`op` in lower case
/// too); text after the number (a label) is ignored. `None` for any
/// other line.
pub open spec fn op_marker(raw: Seq<char>) -> Option<u32> {
    let s = trim(raw);
    if s.len() == 0 || !(s[0] == ';' || s[0] == '(') {
        None
    } else {
        let body = trim(strip_trailing(s.drop_first(), ')'));
        if has_prefix(body, "OP"@) || has_prefix(body, "op"@) {
            let rest = trim(body.skip(2));
            if rest.len() == 0 {
                None
            } else {
                parse_u32_spec(first_token(rest))
            }
        } else {
            None
        }
    }
}

/// A line without its comments: `( … )` spans are dropped (an unclosed
/// one runs to the end of the line) and a `;` ends the line.
pub open spec fn strip_comment_from(s: Seq<char>, in_paren: bool) -> Seq<char>
    decreases s.len(),
{
    if s.len() == 0 {
        Seq::empty()
    } else if s[0] == '(' {
        strip_comment_from(s.drop_first(), true)
    } else if s[0] == ')' {
        strip_comment_from(s.drop_first(), false)
    } else if s[0] == ';' {
        Seq::empty()
    } else if in_paren {
        strip_comment_from(s.drop_first(), true)
    } else {
        seq![s[0]] + strip_comment_from(s.drop_first(), false)
    }
}

/// What a `G` word does to the interpreter.
#[derive(Debug, Clone, Copy, PartialEq, Eq, Structural)]
pub enum GWord {
    /// `G53` (machine coordinates) or `G38.x` (probe): a move the preview
    /// cannot place in the work frame.
    NonCutting,
    /// `G0`..`G3`.
    Motion(u8),
    /// `G20`.
    Inch,
    /// `G21`.
    Metric,
    /// A drill canned cycle: `G73`, `G81`, `G82`, `G83`.
    Drill(u8),
    /// Anything else.
    Other,
}

pub open spec fn g_word_spec(v: Seq<char>) -> GWord {
    if v == "53"@ || has_prefix(v, "38"@) {
        GWord::NonCutting
    } else {
        match parse_u32_spec(v) {
            Some(n) => if n <= 3 {
                GWord::Motion(n as u8)
            } else if n == 20 {
                GWord::Inch
            } else if n == 21 {
                GWord::Metric
            } else if n == 73 || n == 81 || n == 82 || n == 83 {
                GWord::Drill(n as u8)
            } else {
                GWord::Other
            },
            None => GWord::Other,
        }
    }
}

/// The kind of a straight (non-arc, non-drill) move under the active
/// motion code: `G0` is a rapid; a `G1` with a Z word and no XY change
/// is a retract when it rises, else a plunge; other `G1`s cut; `G2`/`G3`
/// are arcs.
pub open spec fn move_kind_spec(active: u8, had_z: bool, xy_same: bool, rises: bool) -> MoveKind {
    if active == 0 {
        MoveKind::Rapid
    } else if active == 1 {
        if had_z && xy_same {
            if rises {
                MoveKind::Retract
            } else {
                MoveKind::Plunge
            }
        } else {
            MoveKind::Cut
        }
    } else if active == 2 || active == 3 {
        MoveKind::Arc
    } else {
        MoveKind::Cut
    }
}

fn first_token_chars(v: &[char], from: usize) -> (r: Vec<char>)
    requires
        from <= v.len(),
    ensures
        r@ == first_token(v@.skip(from as int)),
{
    let mut r: Vec<char> = Vec::new();
    let mut i = from;
    while i < v.len() && !is_ws_char(v[i])
        invariant
            from <= i <= v.len(),
            r@ + first_token(v@.skip(i as int)) == first_token(v@.skip(from as int)),
        decreases v.len() - i,
    {
        proof {
            let t = v@.skip(i as int);
            assert(t.drop_first() =~= v@.skip(i + 1));
            assert(r@.push(v@[i as int]) + first_token(v@.skip(i + 1)) =~= r@ + first_token(t));
        }
        r.push(v[i]);
        i = i + 1;
    }
    proof {
        assert(first_token(v@.skip(i as int)) =~= Seq::<char>::empty());
        assert(r@ + Seq::<char>::empty() =~= r@);
    }
    r
}

fn prefix_at(v: &[char], from: usize, a: char, b: char) -> (r: bool)
    requires
        from <= v.len(),
    ensures
        r == has_prefix(v@.skip(from as int), seq![a, b]),
{
    if v.len() >= 2 && from <= v.len() - 2 {
        let r = v[from] == a && v[from + 1] == b;
        proof {
            let t = v@.skip(from as int);
            if r {
                assert(t.subrange(0, 2) =~= seq![a, b]);
            } else {
                if t.subrange(0, 2) =~= seq![a, b] {
                    assert(t.subrange(0, 2)[0] == a);
                    assert(t.subrange(0, 2)[1] == b);
                }
            }
        }
        r
    } else {
        false
    }
}

/// The trimmed body of a comment line: `s` without its lead character and
/// its trailing `)` run, trimmed.
fn marker_body(s: &Vec<char>) -> (r: Vec<char>)
    requires
        s.len() >= 1,
    ensures
        r@ == trim(strip_trailing(s@.drop_first(), ')')),
{
    let mut e = s.len();
    proof {
        assert(s@.drop_first().take(s@.len() - 1) =~= s@.drop_first());
    }
    while e > 1 && s[e - 1] == ')'
        invariant
            1 <= e <= s.len(),
            strip_trailing(s@.drop_first(), ')') == strip_trailing(
                s@.drop_first().take(e - 1),
                ')',
            ),
        decreases e,
    {
        proof {
            let t = s@.drop_first().take(e - 1);
            assert(t.drop_last() =~= s@.drop_first().take(e - 2));
            assert(t.last() == s@[e - 1]);
        }
        e = e - 1;
    }
    proof {
        let t = s@.drop_first().take(e - 1);
        if e > 1 {
            assert(t.last() == s@[e - 1]);
        }
        assert(strip_trailing(t, ')') == t);
    }
    let inner = crate::chars::sub_vec(s.as_slice(), 1, e);
    proof {
        assert(inner@ =~= s@.drop_first().take(e - 1));
    }
    crate::chars::trimmed_chars(inner.as_slice())
}

/// The op id after the `OP` of a marker body.
fn marker_number(body: &Vec<char>) -> (r: Option<u32>)
    requires
        body.len() >= 2,
    ensures
        r == (if trim(body@.skip(2)).len() == 0 {
            None
        } else {
            parse_u32_spec(first_token(trim(body@.skip(2))))
        }),
{
    let after = crate::chars::sub_vec(body.as_slice(), 2, body.len());
    proof {
        assert(after@ =~= body@.skip(2));
    }
    let rest = crate::chars::trimmed_chars(after.as_slice());
    if rest.len() == 0 {
        return None;
    }
    let tok = first_token_chars(rest.as_slice(), 0);
    proof {
        assert(rest@.skip(0) == rest@);
    }
    parse_u32_chars(tok.as_slice())
}

/// Extract the op id of a `; OP <n>` / `(OP <n>)` marker line.
pub fn parse_op_marker(raw: &str) -> (r: Option<u32>)
    ensures
        r == op_marker(raw@),
{
    let cs = to_chars(raw);
    let s = crate::chars::trimmed_chars(cs.as_slice());
    if s.len() == 0 || !(s[0] == ';' || s[0] == '(') {
        return None;
    }
    let body = marker_body(&s);
    let p_upper = prefix_at(body.as_slice(), 0, 'O', 'P');
    let p_lower = prefix_at(body.as_slice(), 0, 'o', 'p');
    proof {
        assert(body@.skip(0) == body@);
        assert("OP"@ =~= seq!['O', 'P']) by {
            reveal_strlit("OP");
        }
        assert("op"@ =~= seq!['o', 'p']) by {
            reveal_strlit("op");
        }
    }
    if !(p_upper || p_lower) {
        return None;
    }
    marker_number(&body)
}

/// A line with its comments removed (see [`strip_comment_from`]).
pub fn strip_comment(line: &str) -> (r: String)
    ensures
        r@ == strip_comment_from(line@, false),
{
    let cs = to_chars(line);
    let mut out = String::new();
    let mut in_paren = false;
    let mut i: usize = 0;
    proof {
        assert(cs@.skip(0) == cs@);
    }
    while i < cs.len()
        invariant
            i <= cs.len(),
            cs@ == line@,
            out@ + strip_comment_from(cs@.skip(i as int), in_paren) == strip_comment_from(
                line@,
                false,
            ),
        decreases cs.len() - i,
    {
        let ch = cs[i];
        proof {
            assert(cs@.skip(i as int).drop_first() =~= cs@.skip(i + 1));
            assert(cs@.skip(i as int)[0] == ch);
        }
        if ch == '(' {
            in_paren = true;
        } else if ch == ')' {
            in_paren = false;
        } else if ch == ';' {
            proof {
                assert(out@ + Seq::<char>::empty() =~= out@);
            }
            return out;
        } else if !in_paren {
            let ghost o0 = out@;
            push_char(&mut out, ch);
            proof {
                assert(o0 + strip_comment_from(cs@.skip(i as int), false) =~= out@
                    + strip_comment_from(cs@.skip(i + 1), false));
            }
        }
        i = i + 1;
    }
    proof {
        assert(cs@.skip(i as int) =~= Seq::<char>::empty());
        assert(out@ + Seq::<char>::empty() =~= out@);
    }
    out
}

/// Classify the value of a `G` word (the text after the `G`).
pub fn classify_g_word(val: &str) -> (g: GWord)
    ensures
        g == g_word_spec(val@),
{
    let v = to_chars(val);
    let is53 = v.len() == 2 && v[0] == '5' && v[1] == '3';
    let is38 = prefix_at(v.as_slice(), 0, '3', '8');
    proof {
        assert(v@.skip(0) == v@);
        assert("53"@ =~= seq!['5', '3']) by {
            reveal_strlit("53");
        }
        assert("38"@ =~= seq!['3', '8']) by {
            reveal_strlit("38");
        }
        if v@ == seq!['5', '3'] {
            assert(v@[0] == '5' && v@[1] == '3');
        }
    }
    if is53 || is38 {
        proof {
            if is53 {
                assert(v@ =~= seq!['5', '3']);
            }
        }
        return GWord::NonCutting;
    }
    match parse_u32_chars(v.as_slice()) {
        Some(n) => {
            if n <= 3 {
                GWord::Motion(n as u8)
            } else if n == 20 {
                GWord::Inch
            } else if n == 21 {
                GWord::Metric
            } else if n == 73 || n == 81 || n == 82 || n == 83 {
                GWord::Drill(n as u8)
            } else {
                GWord::Other
            }
        },
        None => GWord::Other,
    }
}

/// The kind of a straight move (see [`move_kind_spec`]).
pub fn straight_move_kind(active: u8, had_z: bool, xy_same: bool, rises: bool) -> (k: MoveKind)
    ensures
        k == move_kind_spec(active, had_z, xy_same, rises),
{
    if active == 0 {
        MoveKind::Rapid
    } else if active == 1 {
        if had_z && xy_same {
            if rises {
                MoveKind::Retract
            } else {
                MoveKind::Plunge
            }
        } else {
            MoveKind::Cut
        }
    } else if active == 2 || active == 3 {
        MoveKind::Arc
    } else {
        MoveKind::Cut
    }
}

/// Line ↔ segment lookup: `lines_to_segment[n]` is the first segment the
/// 0-based line `n` produced (`NO_SEGMENT` for none), and
/// `segments_to_line[i]` is the 1-based line that produced segment `i`.
#[derive(Debug, Clone)]
pub struct GcodeIndex {
    pub lines_to_segment: Vec<u32>,
    pub segments_to_line: Vec<u32>,
}

impl GcodeIndex {
    /// The two tables agree: every segment's line points back at the
    /// first segment of that line, and every line that has a segment
    /// points at a segment of that line.
    pub open spec fn wf(&self) -> bool {
        let l2s = self.lines_to_segment@;
        let s2l = self.segments_to_line@;
        &&& l2s.len() < u32::MAX
        &&& s2l.len() < u32::MAX
        &&& forall|i: int|
            #![trigger s2l[i]]
            0 <= i < s2l.len() ==> {
                &&& 1 <= s2l[i] <= l2s.len()
                &&& l2s[s2l[i] - 1] != NO_SEGMENT
                &&& l2s[s2l[i] - 1] <= i
            }
        &&& forall|k: int|
            #![trigger l2s[k]]
            0 <= k < l2s.len() && l2s[k] != NO_SEGMENT ==> {
                &&& l2s[k] < s2l.len()
                &&& s2l[l2s[k] as int] == k + 1
            }
        &&& forall|i: int, j: int|
            #![trigger s2l[i], s2l[j]]
            0 <= i <= j < s2l.len() ==> s2l[i] <= s2l[j]
    }

    /// No lines, no segments.
    pub fn new() -> (ix: Self)
        ensures
            ix.wf(),
            ix.lines_to_segment@ == Seq::<u32>::empty(),
            ix.segments_to_line@ == Seq::<u32>::empty(),
    {
        GcodeIndex { lines_to_segment: Vec::new(), segments_to_line: Vec::new() }
    }

    /// Start the next source line (no segment yet).
    pub fn begin_line(&mut self)
        requires
            old(self).wf(),
            old(self).lines_to_segment@.len() + 1 < u32::MAX,
        ensures
            final(self).wf(),
            final(self).lines_to_segment@ == old(self).lines_to_segment@.push(NO_SEGMENT),
            final(self).segments_to_line@ == old(self).segments_to_line@,
    {
        self.lines_to_segment.push(NO_SEGMENT);
        proof {
            let l2s = self.lines_to_segment@;
            let s2l = self.segments_to_line@;
            assert forall|i: int| 0 <= i < s2l.len() implies #[trigger] l2s[s2l[i] - 1]
                == old(self).lines_to_segment@[s2l[i] - 1] by {}
        }
    }

    /// Record the next segment as produced by the current (last) line; it
    /// becomes the line's segment unless the line already has one.
    pub fn record_segment(&mut self)
        requires
            old(self).wf(),
            old(self).lines_to_segment@.len() >= 1,
            old(self).segments_to_line@.len() + 1 < u32::MAX,
        ensures
            final(self).wf(),
            final(self).segments_to_line@ == old(self).segments_to_line@.push(
                old(self).lines_to_segment@.len() as u32,
            ),
            final(self).lines_to_segment@ == (if old(self).lines_to_segment@.last()
                == NO_SEGMENT {
                old(self).lines_to_segment@.update(
                    old(self).lines_to_segment@.len() - 1,
                    old(self).segments_to_line@.len() as u32,
                )
            } else {
                old(self).lines_to_segment@
            }),
    {
        let ghost l0 = self.lines_to_segment@;
        let ghost s0 = self.segments_to_line@;
        let line_no = self.lines_to_segment.len() as u32;
        let seg = self.segments_to_line.len() as u32;
        self.segments_to_line.push(line_no);
        let last = self.lines_to_segment.len() - 1;
        if self.lines_to_segment[last] == NO_SEGMENT {
            self.lines_to_segment.set(last, seg);
        }
        proof {
            let l2s = self.lines_to_segment@;
            let s2l = self.segments_to_line@;
            assert forall|i: int| #![trigger s2l[i]] 0 <= i < s2l.len() implies {
                &&& 1 <= s2l[i] <= l2s.len()
                &&& l2s[s2l[i] - 1] != NO_SEGMENT
                &&& l2s[s2l[i] - 1] <= i
            } by {
                if i < s0.len() {
                    assert(s2l[i] == s0[i]);
                    assert(l0[s0[i] - 1] != NO_SEGMENT);
                }
            }
            assert forall|k: int| #![trigger l2s[k]] 0 <= k < l2s.len() && l2s[k] != NO_SEGMENT implies {
                &&& l2s[k] < s2l.len()
                &&& s2l[l2s[k] as int] == k + 1
            } by {
                if k < l0.len() - 1 || l0[k] != NO_SEGMENT {
                    assert(l2s[k] == l0[k]);
                    assert(s2l[l0[k] as int] == s0[l0[k] as int]);
                }
            }
            assert forall|i: int, j: int| #![trigger s2l[i], s2l[j]] 0 <= i <= j < s2l.len() implies s2l[i]
                <= s2l[j] by {
                if j < s0.len() {
                    assert(s2l[i] == s0[i] && s2l[j] == s0[j]);
                } else if i < s0.len() {
                    assert(s2l[i] == s0[i]);
                }
            }
        }
    }
}

/// Law: the `G` words the preview acts on, by their decimal text: `0` to
/// `3` set that motion (`G0` rapid, `G1` feed, `G2`/`G3` arcs), `20` and
/// `21` switch to inches and to millimetres, and `73`, `81`, `82`, `83` are
/// the drill cycles.
pub proof fn lemma_g_words(n: nat)
    requires
        n <= 3 || n == 20 || n == 21 || n == 73 || n == 81 || n == 82 || n == 83,
    ensures
        n <= 3 ==> g_word_spec(dec(n)) == GWord::Motion(n as u8),
        n == 20 ==> g_word_spec(dec(n)) == GWord::Inch,
        n == 21 ==> g_word_spec(dec(n)) == GWord::Metric,
        n >= 73 ==> g_word_spec(dec(n)) == GWord::Drill(n as u8),
{
    lemma_dec_parses(n);
    reveal_strlit("53");
    reveal_strlit("38");
    let v = dec(n);
    if n >= 10 {
        assert(dec(n / 10) == seq![digit_char(n / 10)]);
        assert(v[0] == digit_char(n / 10));
        assert(v[0] != '5' && v[0] != '3');
        assert("53"@[0] == '5');
        assert(v != "53"@);
        assert(!has_prefix(v, "38"@)) by {
            if has_prefix(v, "38"@) {
                assert(v.subrange(0, 2)[0] == v[0]);
            }
        }
    } else {
        assert(v.len() == 1);
    }
}

/// Law: the arc codes `G2` and `G3`, and only they, draw arcs; under `G0`
/// every straight move is a rapid; a `G1` move is never a rapid or an arc:
/// a pure Z move retracts when it rises and plunges otherwise, and a move
/// in XY cuts.
pub proof fn lemma_move_kinds(active: u8, had_z: bool, xy_same: bool, rises: bool)
    ensures
        (move_kind_spec(active, had_z, xy_same, rises) == MoveKind::Arc) <==> (active == 2 || active
            == 3),
        active == 0 ==> move_kind_spec(active, had_z, xy_same, rises) == MoveKind::Rapid,
        active == 1 ==> move_kind_spec(active, had_z, xy_same, rises) != MoveKind::Rapid
            && move_kind_spec(active, had_z, xy_same, rises) != MoveKind::Arc,
        active == 1 && had_z && xy_same ==> move_kind_spec(active, had_z, xy_same, rises) == (
        if rises {
            MoveKind::Retract
        } else {
            MoveKind::Plunge
        }),
        active == 1 && !xy_same ==> move_kind_spec(active, had_z, xy_same, rises) == MoveKind::Cut,
{
}

} // verus!
