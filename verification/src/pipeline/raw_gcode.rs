//! Raw g-code include bodies: `{name}` variable expansion against the
//! post's live state, and the per-line classification that tells the user
//! which lines of an include the simulator carves and which it skips.

use vstd::prelude::*;

use crate::chars::{
    is_ws, is_ws_char, trim_end, trim_start, lower_chars, lower_seq, parse_u32_chars, parse_u32_spec, push_char,
    push_str, to_chars, trim, upper, upper_char,
};
use crate::gcode::preview::{strip_comment, strip_comment_from};
use crate::gcode::sink::lines_view;
use crate::gcode::{dec, lemma_dec_digits, lemma_dec_parses, push_dec, split_char, string_of};

verus! {

// ----- Line classification ----------------------------------------------------

/// What one line of an include does to the simulated heightmap.
#[derive(Debug, Clone, PartialEq, Eq)]
pub enum GcodeIncludeLineClass {
    /// A move the simulator carves.
    Simulated,
    /// No effect on the carve (blank, comment, M-code, modal switch, …).
    NoOp,
    /// A line the simulator cannot carve, with the reason.
    Unsimulated(String),
}

/// `G` codes the simulator carves: `G0`..`G3` and the drill cycles.
pub open spec fn simulated_g(n: u32) -> bool {
    n <= 3 || n == 73 || n == 81 || n == 82 || n == 83
}

/// `G` codes with no effect on the carve: dwell, plane, units, homing,
/// compensation cancel, work offsets, modal cancels, distance and feed
/// modes.
pub open spec fn neutral_g(n: u32) -> bool {
    ||| n == 4
    ||| (17 <= n && n <= 21)
    ||| n == 28
    ||| n == 30
    ||| n == 40
    ||| n == 49
    ||| (53 <= n && n <= 59)
    ||| n == 80
    ||| (90 <= n && n <= 95)
}

/// Law: what a `G` word (either case) does to the include scan, by the
/// decimal text of its number. `G0`..`G3` and the drill cycles `G73`,
/// `G81`..`G83` are carved; dwell `G4`, planes and units `G17`..`G21`,
/// homing `G28`/`G30`, the compensation cancels `G40`/`G49`, machine and
/// work offsets `G53`..`G59`, the cycle cancel `G80` and the distance and
/// feed modes `G90`..`G95` leave the scan as it was; every other number is
/// recorded as unsupported.
pub proof fn lemma_g_word_scan(st: WordScan, g: char, n: nat)
    requires
        g == 'G' || g == 'g',
        n <= u32::MAX,
    ensures
        ({
            let w = seq![g] + dec(n);
            let carved = n <= 3 || n == 73 || 81 <= n <= 83;
            let neutral = n == 4 || 17 <= n <= 21 || n == 28 || n == 30 || n == 40 || n == 49
                || 53 <= n <= 59 || n == 80 || 90 <= n <= 95;
            &&& carved ==> scan_word(st, w) == (st.0, st.1, true, st.3)
            &&& neutral ==> scan_word(st, w) == st
            &&& !carved && !neutral ==> scan_word(st, w) == (st.0, st.1, st.2, Some(n as u32))
        }),
{
    lemma_dec_parses(n);
    let w = seq![g] + dec(n);
    assert(w[0] == g);
    assert(w.drop_first() =~= dec(n));
    assert(upper(g) == 'G');
}

pub open spec fn multi_axis_letter(c: char) -> bool {
    c == 'A' || c == 'B' || c == 'C' || c == 'U' || c == 'V' || c == 'W'
}

/// Classification state over a line's words: a movement word seen, the
/// first multi-axis letter, a simulated `G` seen, the last unsupported `G`.
pub type WordScan = (bool, Option<char>, bool, Option<u32>);

/// The effect of one word (non-empty, without whitespace) on the scan,
/// keyed on its upper-cased first character.
pub open spec fn scan_word(st: WordScan, w: Seq<char>) -> WordScan {
    let head = upper(w[0]);
    if head == 'G' {
        match parse_u32_spec(w.drop_first()) {
            Some(n) => if simulated_g(n) {
                (st.0, st.1, true, st.3)
            } else if neutral_g(n) {
                st
            } else {
                (st.0, st.1, st.2, Some(n))
            },
            None => st,
        }
    } else if head == 'X' || head == 'Y' || head == 'Z' {
        (true, st.1, st.2, st.3)
    } else if multi_axis_letter(head) {
        match st.1 {
            None => (st.0, Some(head), st.2, st.3),
            Some(_) => st,
        }
    } else {
        st
    }
}

/// The scan over a line, character by character: whitespace ends the
/// current word, which is then scanned. Returns the scan and the word in
/// progress.
pub open spec fn scan_chars(s: Seq<char>) -> (WordScan, Seq<char>)
    decreases s.len(),
{
    if s.len() == 0 {
        ((false, None, false, None), Seq::empty())
    } else {
        let (st, cur) = scan_chars(s.drop_last());
        if is_ws(s.last()) {
            if cur.len() > 0 {
                (scan_word(st, cur), Seq::empty())
            } else {
                (st, cur)
            }
        } else {
            (st, cur.push(s.last()))
        }
    }
}

/// The scan of all words of `s`.
pub open spec fn scan_words(s: Seq<char>) -> WordScan {
    let (st, cur) = scan_chars(s);
    if cur.len() > 0 {
        scan_word(st, cur)
    } else {
        st
    }
}

/// Every word of `s` starts with an ASCII character.
pub open spec fn words_lead_ascii(s: Seq<char>) -> bool {
    forall|i: int|
        0 <= i < s.len() && !is_ws(#[trigger] s[i]) && (i == 0 || is_ws(s[i - 1])) ==> (s[i] as u32)
            < 128
}

/// Whether every word of `s` starts with an ASCII character (see
/// [`words_lead_ascii`]).
pub fn words_lead_ascii_check(s: &[char]) -> (b: bool)
    ensures
        b == words_lead_ascii(s@),
{
    let mut i: usize = 0;
    while i < s.len()
        invariant
            i <= s@.len(),
            forall|j: int|
                0 <= j < i && !is_ws(#[trigger] s@[j]) && (j == 0 || is_ws(s@[j - 1])) ==> (
                s@[j] as u32) < 128,
        decreases s@.len() - i,
    {
        let c = s[i];
        let lead = !is_ws_char(c) && (i == 0 || is_ws_char(s[i - 1]));
        if lead && (c as u32) >= 128 {
            proof {
                assert(!is_ws(s@[i as int]) && (i == 0 || is_ws(s@[i - 1])));
            }
            return false;
        }
        i = i + 1;
    }
    true
}

pub open spec fn unsupported_reason(n: nat) -> Seq<char> {
    "unsupported G"@ + dec(n)
        + " — sim recognizes only G0/G1/G2/G3 + canned cycles G73/G81/G82/G83"@
}

pub open spec fn multi_axis_reason(a: char) -> Seq<char> {
    seq![a] + "-axis word — sim is 3-axis (XYZ) only"@
}

/// The class of one include line, by its comment-free trimmed text: blank
/// is a no-op; an unsupported `G` code (the last one) or else a
/// multi-axis word (the first one) is unsimulated; a simulated `G` code or
/// an `X`/`Y`/`Z` word is simulated; anything else is a no-op.
pub open spec fn line_class(raw: Seq<char>) -> (bool, Option<Seq<char>>) {
    let t = trim(strip_comment_from(raw, false));
    if t.len() == 0 {
        (false, None)
    } else {
        let st = scan_words(t);
        match st.3 {
            Some(n) => (false, Some(unsupported_reason(n as nat))),
            None => match st.1 {
                Some(a) => (false, Some(multi_axis_reason(a))),
                None => (st.0 || st.2, None),
            },
        }
    }
}

/// A run of characters with no whitespace and no comment delimiter.
pub open spec fn plain_word(s: Seq<char>) -> bool {
    forall|i: int|
        0 <= i < s.len() ==> !is_ws(#[trigger] s[i]) && s[i] != '(' && s[i] != ')' && s[i] != ';'
}

proof fn lemma_plain_strip(s: Seq<char>)
    requires
        plain_word(s),
    ensures
        strip_comment_from(s, false) == s,
    decreases s.len(),
{
    if s.len() > 0 {
        let r = s.drop_first();
        assert(plain_word(r)) by {
            assert forall|i: int| 0 <= i < r.len() implies !is_ws(#[trigger] r[i]) && r[i] != '('
                && r[i] != ')' && r[i] != ';' by {
                assert(r[i] == s[i + 1]);
            }
        }
        lemma_plain_strip(r);
        assert(seq![s[0]] + r =~= s);
    }
}

proof fn lemma_plain_scan(s: Seq<char>)
    requires
        plain_word(s),
    ensures
        scan_chars(s) == ((false, None::<char>, false, None::<u32>), s),
    decreases s.len(),
{
    if s.len() > 0 {
        let r = s.drop_last();
        assert(plain_word(r)) by {
            assert forall|i: int| 0 <= i < r.len() implies !is_ws(#[trigger] r[i]) && r[i] != '('
                && r[i] != ')' && r[i] != ';' by {
                assert(r[i] == s[i]);
            }
        }
        lemma_plain_scan(r);
        assert(r.push(s.last()) =~= s);
    }
}

/// Law: an include line that is one `G` word (either case) is carved for
/// `G0`..`G3` and the drill cycles `G73`, `G81`..`G83`; is a no-op for
/// dwell `G4`, planes and units `G17`..`G21`, homing `G28`/`G30`, the
/// compensation cancels `G40`/`G49`, machine and work offsets
/// `G53`..`G59`, the cycle cancel `G80` and the distance and feed modes
/// `G90`..`G95`; and is unsimulated, naming the code, for any other number.
pub proof fn lemma_g_word_line(g: char, n: nat)
    requires
        g == 'G' || g == 'g',
        n <= u32::MAX,
    ensures
        ({
            let w = seq![g] + dec(n);
            let carved = n <= 3 || n == 73 || 81 <= n <= 83;
            let neutral = n == 4 || 17 <= n <= 21 || n == 28 || n == 30 || n == 40 || n == 49
                || 53 <= n <= 59 || n == 80 || 90 <= n <= 95;
            &&& carved ==> line_class(w) == (true, None::<Seq<char>>)
            &&& neutral ==> line_class(w) == (false, None::<Seq<char>>)
            &&& !carved && !neutral ==> line_class(w) == (false, Some(unsupported_reason(n)))
        }),
{
    let w = seq![g] + dec(n);
    lemma_dec_digits(n);
    assert(plain_word(w)) by {
        assert forall|i: int| 0 <= i < w.len() implies !is_ws(#[trigger] w[i]) && w[i] != '('
            && w[i] != ')' && w[i] != ';' by {
            if i > 0 {
                assert(w[i] == dec(n)[i - 1]);
            }
        }
    }
    lemma_plain_strip(w);
    assert(trim_start(w) == w);
    assert(trim_end(w) == w);
    assert(trim(w) == w);
    lemma_plain_scan(w);
    lemma_g_word_scan((false, None, false, None), g, n);
}

/// The class as a [`GcodeIncludeLineClass`] view: `Simulated` is
/// `(true, None)`, `NoOp` is `(false, None)`, `Unsimulated(r)` is
/// `(false, Some(r))`.
pub open spec fn class_view(c: GcodeIncludeLineClass) -> (bool, Option<Seq<char>>) {
    match c {
        GcodeIncludeLineClass::Simulated => (true, None),
        GcodeIncludeLineClass::NoOp => (false, None),
        GcodeIncludeLineClass::Unsimulated(r) => (false, Some(r@)),
    }
}

/// The comment stripper include classification uses (parenthesized spans
/// and `;` to the end of the line).
pub fn strip_gcode_comment(line: &str) -> (r: String)
    ensures
        r@ == strip_comment_from(line@, false),
{
    strip_comment(line)
}

fn scan_word_exec(st: (bool, Option<char>, bool, Option<u32>), w: &[char]) -> (r: (
    bool,
    Option<char>,
    bool,
    Option<u32>,
))
    requires
        w.len() > 0,
        (w@[0] as u32) < 128,
    ensures
        r == scan_word(st, w@),
{
    let head = upper_char(w[0]);
    if head == 'G' {
        let rest = crate::chars::sub_vec(w, 1, w.len());
        proof {
            assert(rest@ =~= w@.drop_first());
        }
        match parse_u32_chars(rest.as_slice()) {
            Some(n) => {
                if n <= 3 || n == 73 || n == 81 || n == 82 || n == 83 {
                    (st.0, st.1, true, st.3)
                } else if n == 4 || (17 <= n && n <= 21) || n == 28 || n == 30 || n == 40 || n
                    == 49 || (53 <= n && n <= 59) || n == 80 || (90 <= n && n <= 95) {
                    st
                } else {
                    (st.0, st.1, st.2, Some(n))
                }
            },
            None => st,
        }
    } else if head == 'X' || head == 'Y' || head == 'Z' {
        (true, st.1, st.2, st.3)
    } else if head == 'A' || head == 'B' || head == 'C' || head == 'U' || head == 'V' || head
        == 'W' {
        match st.1 {
            None => (st.0, Some(head), st.2, st.3),
            Some(_) => st,
        }
    } else {
        st
    }
}

/// Classify one line of an expanded include body (see [`line_class`]).
/// Every word of the line's comment-free text must start with an ASCII
/// character.
pub fn classify_gcode_include_line(raw: &str) -> (c: GcodeIncludeLineClass)
    requires
        words_lead_ascii(trim(strip_comment_from(raw@, false))),
    ensures
        class_view(c) == line_class(raw@),
{
    let stripped = strip_gcode_comment(raw);
    let sc = to_chars(stripped.as_str());
    let t = crate::chars::trimmed_chars(sc.as_slice());
    if t.len() == 0 {
        return GcodeIncludeLineClass::NoOp;
    }
    let mut st: (bool, Option<char>, bool, Option<u32>) = (false, None, false, None);
    let mut start: usize = 0;
    let mut i: usize = 0;
    proof {
        assert(t@.take(0) =~= Seq::<char>::empty());
    }
    while i < t.len()
        invariant
            start <= i <= t.len(),
            words_lead_ascii(t@),
            (st, t@.subrange(start as int, i as int)) == scan_chars(t@.take(i as int)),
            start < i ==> (start == 0 || is_ws(t@[start - 1])) && !is_ws(t@[start as int]),
        decreases t.len() - i,
    {
        proof {
            assert(t@.take(i + 1).drop_last() =~= t@.take(i as int));
            assert(t@.take(i + 1).last() == t@[i as int]);
        }
        if is_ws_char(t[i]) {
            if start < i {
                let w = crate::chars::sub_vec(t.as_slice(), start, i);
                proof {
                    assert(w@[0] == t@[start as int]);
                }
                st = scan_word_exec(st, w.as_slice());
            }
            start = i + 1;
            proof {
                assert(t@.subrange(start as int, i + 1) =~= Seq::<char>::empty());
            }
        } else {
            proof {
                assert(t@.subrange(start as int, i + 1) =~= t@.subrange(start as int, i as int).push(
                    t@[i as int],
                ));
                if start == i {
                    assert(start == 0 || is_ws(t@[start - 1]));
                }
            }
        }
        i = i + 1;
    }
    proof {
        assert(t@.take(t.len() as int) =~= t@);
    }
    if start < t.len() {
        let w = crate::chars::sub_vec(t.as_slice(), start, t.len());
        proof {
            assert(w@[0] == t@[start as int]);
        }
        st = scan_word_exec(st, w.as_slice());
    }
    match st.3 {
        Some(n) => {
            let mut r = string_of("unsupported G");
            push_dec(&mut r, n);
            push_str(
                &mut r,
                " — sim recognizes only G0/G1/G2/G3 + canned cycles G73/G81/G82/G83",
            );
            GcodeIncludeLineClass::Unsimulated(r)
        },
        None => match st.1 {
            Some(a) => {
                let mut r = String::new();
                push_char(&mut r, a);
                push_str(&mut r, "-axis word — sim is 3-axis (XYZ) only");
                proof {
                    assert(r@ =~= multi_axis_reason(a));
                }
                GcodeIncludeLineClass::Unsimulated(r)
            },
            None => {
                if st.0 || st.2 {
                    GcodeIncludeLineClass::Simulated
                } else {
                    GcodeIncludeLineClass::NoOp
                }
            },
        },
    }
}

// ----- Whole bodies ------------------------------------------------------------

/// A line without one trailing carriage return.
pub open spec fn strip_cr(l: Seq<char>) -> Seq<char> {
    if l.len() > 0 && l.last() == '\r' {
        l.drop_last()
    } else {
        l
    }
}

/// `str::lines`: the text split at `\n` (a `\r` before the `\n` is dropped
/// too); a final line ending adds no empty line.
pub open spec fn text_lines(s: Seq<char>) -> Seq<Seq<char>> {
    let p = split_char(s, '\n');
    let n = if p.last().len() == 0 {
        p.len() - 1
    } else {
        p.len() as int
    };
    Seq::new(
        n as nat,
        |i: int|
            if i < p.len() - 1 {
                strip_cr(p[i])
            } else {
                p[i]
            },
    )
}

/// The lines of `s` (see [`text_lines`]).
pub fn text_lines_of(s: &str) -> (r: Vec<String>)
    ensures
        lines_view(r@) == text_lines(s@),
{
    let cs = to_chars(s);
    let pieces = crate::gcode::split_on(cs.as_slice(), '\n');
    let ghost p = split_char(s@, '\n');
    proof {
        crate::gcode::lemma_split_nonempty(s@, '\n');
        assert(lines_view(pieces@) == p);
        assert(pieces@.len() == p.len());
    }
    let last_empty = pieces[pieces.len() - 1].unicode_len() == 0;
    proof {
        assert(pieces@[pieces.len() - 1]@ == p.last());
    }
    let n = if last_empty {
        pieces.len() - 1
    } else {
        pieces.len()
    };
    let mut r: Vec<String> = Vec::new();
    let mut i: usize = 0;
    while i < n
        invariant
            i <= n <= pieces.len(),
            p.len() >= 1,
            p == split_char(s@, '\n'),
            p == lines_view(pieces@),
            n == (if p.last().len() == 0 {
                p.len() - 1
            } else {
                p.len() as int
            }),
            lines_view(r@) == text_lines(s@).take(i as int),
        decreases n - i,
    {
        let ghost r0 = lines_view(r@);
        let pc = to_chars(pieces[i].as_str());
        let line = if i + 1 < pieces.len() && pc.len() > 0 && pc[pc.len() - 1] == '\r' {
            crate::chars::string_of_range(pc.as_slice(), 0, pc.len() - 1)
        } else {
            crate::chars::from_chars(pc.as_slice())
        };
        r.push(line);
        proof {
            assert(pc@ == p[i as int]);
            if i + 1 < pieces.len() && pc@.len() > 0 && pc@.last() == '\r' {
                assert(line@ =~= p[i as int].drop_last());
            }
            assert(lines_view(r@) =~= r0.push(line@));
            let tl = text_lines(s@);
            assert(tl.len() == n);
            if i < p.len() - 1 {
                assert(tl[i as int] == strip_cr(p[i as int]));
            } else {
                assert(tl[i as int] == p[i as int]);
            }
            assert(tl[i as int] == line@);
            assert(tl.take(i + 1) =~= tl.take(i as int).push(line@));
        }
        i = i + 1;
    }
    proof {
        assert(text_lines(s@).take(n as int) =~= text_lines(s@));
    }
    r
}

/// One include line the simulator skips.
#[derive(Debug, Clone)]
pub struct SkippedIncludeLine {
    /// 1-based line number within the expanded body.
    pub line_no: u32,
    /// The line's comment-free trimmed text.
    pub trimmed: String,
    pub reason: String,
}

/// Per-line classification of a whole include body.
#[derive(Debug, Clone)]
pub struct GcodeIncludeClassification {
    pub n_simulated: usize,
    pub n_noop: usize,
    pub skipped: Vec<SkippedIncludeLine>,
}

pub open spec fn skipped_view(v: Seq<SkippedIncludeLine>) -> Seq<(u32, Seq<char>, Seq<char>)> {
    v.map_values(|k: SkippedIncludeLine| (k.line_no, k.trimmed@, k.reason@))
}

/// Classification of the lines `ls` of a body: counts of simulated and
/// no-op lines, and each unsimulated line with its 1-based number
/// (saturating at `u32::MAX`), its comment-free trimmed text and the
/// reason.
pub open spec fn classify_lines(ls: Seq<Seq<char>>) -> (nat, nat, Seq<(u32, Seq<char>, Seq<char>)>)
    decreases ls.len(),
{
    if ls.len() == 0 {
        (0, 0, Seq::empty())
    } else {
        let r = classify_lines(ls.drop_last());
        let c = line_class(ls.last());
        let line_no: u32 = if ls.len() <= u32::MAX {
            ls.len() as u32
        } else {
            u32::MAX
        };
        match c.1 {
            Some(reason) => (
                r.0,
                r.1,
                r.2.push((line_no, trim(strip_comment_from(ls.last(), false)), reason)),
            ),
            None => if c.0 {
                (r.0 + 1, r.1, r.2)
            } else {
                (r.0, r.1 + 1, r.2)
            },
        }
    }
}

/// Every line is counted exactly once: as simulated, as a no-op, or as
/// skipped.
pub proof fn lemma_classify_counts(ls: Seq<Seq<char>>)
    ensures
        classify_lines(ls).0 + classify_lines(ls).1 + classify_lines(ls).2.len() == ls.len(),
    decreases ls.len(),
{
    if ls.len() > 0 {
        lemma_classify_counts(ls.drop_last());
    }
}

/// Classify every line of an expanded include body (see
/// [`classify_lines`]). Every word of every line must start with an ASCII
/// character.
pub fn classify_gcode_include_body(expanded: &str) -> (c: GcodeIncludeClassification)
    requires
        forall|i: int|
            0 <= i < text_lines(expanded@).len() ==> words_lead_ascii(
                trim(strip_comment_from(#[trigger] text_lines(expanded@)[i], false)),
            ),
    ensures
        (c.n_simulated as nat, c.n_noop as nat, skipped_view(c.skipped@)) == classify_lines(
            text_lines(expanded@),
        ),
{
    let ls = text_lines_of(expanded);
    let ghost lv = text_lines(expanded@);
    let mut out = GcodeIncludeClassification { n_simulated: 0, n_noop: 0, skipped: Vec::new() };
    let mut i: usize = 0;
    proof {
        assert(lv.take(0) =~= Seq::<Seq<char>>::empty());
        assert(skipped_view(out.skipped@) =~= Seq::<(u32, Seq<char>, Seq<char>)>::empty());
    }
    while i < ls.len()
        invariant
            i <= ls.len(),
            lv == lines_view(ls@),
            lv == text_lines(expanded@),
            forall|k: int|
                0 <= k < lv.len() ==> words_lead_ascii(
                    trim(strip_comment_from(#[trigger] lv[k], false)),
                ),
            (out.n_simulated as nat, out.n_noop as nat, skipped_view(out.skipped@))
                == classify_lines(lv.take(i as int)),
            out.n_simulated + out.n_noop <= i,
        decreases ls.len() - i,
    {
        let raw = ls[i].as_str();
        proof {
            assert(lv.take(i + 1).drop_last() =~= lv.take(i as int));
            assert(lv.take(i + 1).last() == lv[i as int]);
            assert(raw@ == lv[i as int]);
        }
        let line_no: u32 = if i < 0xFFFF_FFFFusize {
            (i + 1) as u32
        } else {
            0xFFFF_FFFFu32
        };
        match classify_gcode_include_line(raw) {
            GcodeIncludeLineClass::Simulated => {
                out.n_simulated = out.n_simulated + 1;
            },
            GcodeIncludeLineClass::NoOp => {
                out.n_noop = out.n_noop + 1;
            },
            GcodeIncludeLineClass::Unsimulated(reason) => {
                let stripped = strip_gcode_comment(raw);
                let sc = to_chars(stripped.as_str());
                let tc = crate::chars::trimmed_chars(sc.as_slice());
                let trimmed = crate::chars::from_chars(tc.as_slice());
                let ghost s0 = skipped_view(out.skipped@);
                out.skipped.push(SkippedIncludeLine { line_no, trimmed, reason });
                proof {
                    assert(skipped_view(out.skipped@) =~= s0.push(
                        (line_no, trimmed@, out.skipped@.last().reason@),
                    ));
                }
            },
        }
        i = i + 1;
    }
    proof {
        assert(lv.take(ls.len() as int) =~= lv);
    }
    out
}

// ----- Variable expansion -------------------------------------------------------

/// The values `{name}` variables expand to: the post's last position
/// (`x`, `y`, `z`, rendered to four decimals; `None` while the post has
/// not moved, which expands to `0`), the op's safe height (`safe_z`,
/// rendered), and the last feed (`f`) and spindle speed (`s`), `0` when
/// unset.
#[derive(Debug, Clone)]
pub struct ExpansionVars {
    pub x: Option<String>,
    pub y: Option<String>,
    pub z: Option<String>,
    pub rate: Option<u32>,
    pub speed: Option<u32>,
    pub safe_z: String,
}

pub open spec fn or_zero(v: Option<u32>) -> nat {
    match v {
        Some(n) => n as nat,
        None => 0,
    }
}

/// A coordinate's text: its rendering, or `0` when the post has not moved.
pub open spec fn coord_text(c: Option<String>) -> Seq<char> {
    match c {
        Some(t) => t@,
        None => seq!['0'],
    }
}

/// The text of a known variable (by its lower-cased name).
pub open spec fn var_text(key: Seq<char>, vars: ExpansionVars) -> Option<Seq<char>> {
    if key == seq!['x'] {
        Some(coord_text(vars.x))
    } else if key == seq!['y'] {
        Some(coord_text(vars.y))
    } else if key == seq!['z'] {
        Some(coord_text(vars.z))
    } else if key == seq!['f'] {
        Some(dec(or_zero(vars.rate)))
    } else if key == seq!['s'] {
        Some(dec(or_zero(vars.speed)))
    } else if key == "safe_z"@ {
        Some(vars.safe_z@)
    } else {
        None
    }
}

/// The end of a variable name starting at `j`: the first `}` or newline at
/// or after `j`, or the end of the text.
pub open spec fn name_end(s: Seq<char>, j: int) -> int
    decreases s.len() - j,
{
    if j >= s.len() || s[j] == '}' || s[j] == '\n' {
        j
    } else {
        name_end(s, j + 1)
    }
}

pub proof fn lemma_name_end(s: Seq<char>, j: int)
    requires
        0 <= j,
    ensures
        j <= name_end(s, j),
        j <= s.len() ==> name_end(s, j) <= s.len(),
        name_end(s, j) < s.len() ==> s[name_end(s, j)] == '}' || s[name_end(s, j)] == '\n',
        forall|k: int| j <= k < name_end(s, j) ==> s[k] != '}' && s[k] != '\n',
    decreases s.len() - j,
{
    if !(j >= s.len() || s[j] == '}' || s[j] == '\n') {
        lemma_name_end(s, j + 1);
    }
}

/// Whether `names` holds `n` up to ASCII case.
pub open spec fn has_name_ci(names: Seq<Seq<char>>, n: Seq<char>) -> bool {
    exists|i: int| 0 <= i < names.len() && lower_seq(#[trigger] names[i]) == lower_seq(n)
}

/// Expansion of `s` from position `i`, with the unknown names met so far:
/// the expanded text and the unknown names, each once up to ASCII case, in
/// first-seen order. `{name}` (closed on the same line) expands a known
/// variable (names compare case-insensitively) and is kept verbatim when
/// unknown; an unclosed `{` is kept verbatim with the text after it.
pub open spec fn expand_at(s: Seq<char>, i: int, vars: ExpansionVars, unknown: Seq<Seq<char>>) -> (
    Seq<char>,
    Seq<Seq<char>>,
)
    decreases s.len() - i,
{
    if i < 0 || i >= s.len() {
        (Seq::empty(), unknown)
    } else if s[i] != '{' {
        let r = expand_at(s, i + 1, vars, unknown);
        (seq![s[i]] + r.0, r.1)
    } else {
        let e = name_end(s, i + 1);
        proof {
            lemma_name_end(s, i + 1);
        }
        let name = s.subrange(i + 1, e);
        if e >= s.len() || s[e] == '\n' {
            let r = expand_at(s, e, vars, unknown);
            (seq!['{'] + name + r.0, r.1)
        } else {
            match var_text(lower_seq(name), vars) {
                Some(t) => {
                    let r = expand_at(s, e + 1, vars, unknown);
                    (t + r.0, r.1)
                },
                None => {
                    let u2 = if has_name_ci(unknown, name) {
                        unknown
                    } else {
                        unknown.push(name)
                    };
                    let r = expand_at(s, e + 1, vars, u2);
                    (seq!['{'] + name + seq!['}'] + r.0, r.1)
                },
            }
        }
    }
}

fn chars_eq(a: &[char], b: &[char]) -> (r: bool)
    ensures
        r == (a@ == b@),
{
    if a.len() != b.len() {
        return false;
    }
    let mut i: usize = 0;
    while i < a.len()
        invariant
            i <= a.len() == b.len(),
            forall|j: int| 0 <= j < i ==> a@[j] == b@[j],
        decreases a.len() - i,
    {
        if a[i] != b[i] {
            return false;
        }
        i = i + 1;
    }
    proof {
        assert(a@ =~= b@);
    }
    true
}

fn is_single(key: &[char], c: char) -> (b: bool)
    ensures
        b == (key@ == seq![c]),
{
    let b = key.len() == 1 && key[0] == c;
    proof {
        if b {
            assert(key@ =~= seq![c]);
        }
        if key@ == seq![c] {
            assert(key@[0] == c);
        }
    }
    b
}

fn coord_string(c: &Option<String>) -> (t: String)
    ensures
        t@ == coord_text(*c),
{
    match c {
        Some(t) => t.clone(),
        None => {
            let z = string_of("0");
            proof {
                reveal_strlit("0");
            }
            z
        },
    }
}

fn known_var(key: &[char], vars: &ExpansionVars) -> (r: Option<String>)
    ensures
        r matches Some(t) ==> var_text(key@, *vars) == Some(t@),
        r is None ==> var_text(key@, *vars) is None,
{
    let sz = to_chars("safe_z");
    if is_single(key, 'x') {
        Some(coord_string(&vars.x))
    } else if is_single(key, 'y') {
        Some(coord_string(&vars.y))
    } else if is_single(key, 'z') {
        Some(coord_string(&vars.z))
    } else if is_single(key, 'f') {
        let mut t = String::new();
        push_dec(&mut t, match vars.rate {
            Some(n) => n,
            None => 0,
        });
        Some(t)
    } else if is_single(key, 's') {
        let mut t = String::new();
        push_dec(&mut t, match vars.speed {
            Some(n) => n,
            None => 0,
        });
        Some(t)
    } else if chars_eq(key, sz.as_slice()) {
        Some(vars.safe_z.clone())
    } else {
        None
    }
}

fn has_name_ci_exec(names: &Vec<String>, n: &[char]) -> (b: bool)
    ensures
        b == has_name_ci(lines_view(names@), n@),
{
    let ln = lower_chars(n);
    let mut i: usize = 0;
    while i < names.len()
        invariant
            i <= names.len(),
            ln@ == lower_seq(n@),
            forall|j: int| 0 <= j < i ==> lower_seq(#[trigger] lines_view(names@)[j]) != lower_seq(
                n@,
            ),
        decreases names.len() - i,
    {
        let c = to_chars(names[i].as_str());
        let lc = lower_chars(c.as_slice());
        if chars_eq(lc.as_slice(), ln.as_slice()) {
            proof {
                assert(lower_seq(lines_view(names@)[i as int]) == lower_seq(n@));
            }
            return true;
        }
        i = i + 1;
    }
    false
}

/// Expand `{name}` variables in a raw g-code body (see [`expand_at`]):
/// the expanded text, and the distinct unknown variable names.
pub fn expand_gcode_include_vars(content: &str, vars: &ExpansionVars) -> (r: (String, Vec<String>))
    ensures
        r.0@ == expand_at(content@, 0, *vars, Seq::empty()).0,
        lines_view(r.1@) == expand_at(content@, 0, *vars, Seq::empty()).1,
{
    let cs = to_chars(content);
    let ghost total = expand_at(cs@, 0, *vars, Seq::empty());
    let mut out = String::new();
    let mut unknown: Vec<String> = Vec::new();
    let mut i: usize = 0;
    proof {
        assert(lines_view(unknown@) =~= Seq::<Seq<char>>::empty());
        assert(out@ + total.0 =~= total.0);
    }
    while i < cs.len()
        invariant
            i <= cs.len(),
            cs@ == content@,
            total == expand_at(cs@, 0, *vars, Seq::empty()),
            out@ + expand_at(cs@, i as int, *vars, lines_view(unknown@)).0 == total.0,
            expand_at(cs@, i as int, *vars, lines_view(unknown@)).1 == total.1,
        decreases cs.len() - i,
    {
        let c = cs[i];
        let ghost u0 = lines_view(unknown@);
        let ghost o0 = out@;
        if c != '{' {
            push_char(&mut out, c);
            proof {
                assert(o0 + expand_at(cs@, i as int, *vars, u0).0 =~= out@ + expand_at(
                    cs@,
                    i + 1,
                    *vars,
                    u0,
                ).0);
            }
            i = i + 1;
        } else {
            let mut e = i + 1;
            proof {
                lemma_name_end(cs@, i + 1);
            }
            while e < cs.len() && cs[e] != '}' && cs[e] != '\n'
                invariant
                    i + 1 <= e <= cs.len(),
                    name_end(cs@, i + 1) == name_end(cs@, e as int),
                decreases cs.len() - e,
            {
                e = e + 1;
            }
            let ghost ee = name_end(cs@, i + 1);
            proof {
                assert(ee == e);
            }
            let name = crate::chars::sub_vec(cs.as_slice(), i + 1, e);
            if e >= cs.len() || cs[e] == '\n' {
                push_char(&mut out, '{');
                crate::chars::push_range(&mut out, cs.as_slice(), i + 1, e);
                proof {
                    assert(o0 + expand_at(cs@, i as int, *vars, u0).0 =~= out@ + expand_at(
                        cs@,
                        e as int,
                        *vars,
                        u0,
                    ).0);
                }
                i = e;
            } else {
                let key = lower_chars(name.as_slice());
                match known_var(key.as_slice(), vars) {
                    Some(t) => {
                        push_str(&mut out, t.as_str());
                        proof {
                            assert(o0 + expand_at(cs@, i as int, *vars, u0).0 =~= out@ + expand_at(
                                cs@,
                                e + 1,
                                *vars,
                                u0,
                            ).0);
                        }
                    },
                    None => {
                        push_char(&mut out, '{');
                        crate::chars::push_range(&mut out, cs.as_slice(), i + 1, e);
                        push_char(&mut out, '}');
                        let dup = has_name_ci_exec(&unknown, name.as_slice());
                        if !dup {
                            let nm = crate::chars::from_chars(name.as_slice());
                            unknown.push(nm);
                            proof {
                                assert(lines_view(unknown@) =~= u0.push(name@));
                            }
                        }
                        proof {
                            assert(o0 + expand_at(cs@, i as int, *vars, u0).0 =~= out@ + expand_at(
                                cs@,
                                e + 1,
                                *vars,
                                lines_view(unknown@),
                            ).0);
                        }
                    },
                }
                i = e + 1;
            }
        }
    }
    proof {
        assert(out@ + Seq::<char>::empty() =~= out@);
    }
    (out, unknown)
}

} // verus!
