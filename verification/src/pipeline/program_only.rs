//! Program-only ops (pause, homing, probe, cycle marker, raw g-code block):
//! the header and marker lines they emit, the warnings a raw g-code block
//! raises about unknown variables, an empty body and lines the simulator
//! cannot carve, and the group markers written between ops.

use vstd::prelude::*;

use crate::chars::{push_char, push_str, to_chars, trim};
use crate::gcode::dec;
use crate::gcode::hpgl::push_dec64;
use crate::gcode::push_dec;
use crate::gcode::string_of;
use crate::params::{insert_param, params_view};
use crate::pipeline::raw_gcode::{
    classify_gcode_include_body, classify_lines, expand_at, expand_gcode_include_vars, text_lines,
    text_lines_of, words_lead_ascii, words_lead_ascii_check, strip_gcode_comment, ExpansionVars,
    SkippedIncludeLine,
};
use crate::pipeline::PipelineWarning;
use crate::gcode::grbl;
use crate::gcode::grbl::grbl_block;
use crate::gcode::linuxcnc::{emits, forget_modal, lemma_emits_trans, Post};
use crate::gcode::sink::lines_view;
use crate::gcode::preview::strip_comment_from;

verus! {

/// `; OP <id> (<label>)`.
pub open spec fn op_header_text(op_id: nat, label: Seq<char>) -> Seq<char> {
    "; OP "@ + dec(op_id) + " ("@ + label + ")"@
}

/// The header line of a program-only op: `; OP <id> (<label>)`.
pub fn op_label_header(op_id: u32, label: &str) -> (s: String)
    ensures
        s@ == op_header_text(op_id as nat, label@),
{
    let mut s = string_of("; OP ");
    push_dec(&mut s, op_id);
    push_str(&mut s, " (");
    push_str(&mut s, label);
    push_str(&mut s, ")");
    s
}

/// `; OP <id> (gcode include)`, naming the source path when there is one.
pub open spec fn include_header_text(op_id: nat, path: Seq<char>) -> Seq<char> {
    if path.len() == 0 {
        op_header_text(op_id, "gcode include"@)
    } else {
        op_header_text(op_id, "gcode include: "@ + path)
    }
}

/// The header of a raw g-code block: its label names the source path when
/// there is one.
pub fn include_header(op_id: u32, path: &str) -> (s: String)
    ensures
        s@ == include_header_text(op_id as nat, path@),
{
    if path.unicode_len() == 0 {
        op_label_header(op_id, "gcode include")
    } else {
        let mut label = string_of("gcode include: ");
        push_str(&mut label, path);
        op_label_header(op_id, label.as_str())
    }
}

/// `; --- <label> ---`, or `; ---` without a label.
pub open spec fn marker_text(label: Seq<char>) -> Seq<char> {
    if label.len() == 0 {
        "; ---"@
    } else {
        "; --- "@ + label + " ---"@
    }
}

/// A cycle marker's comment: `; --- <label> ---`, or `; ---` without a
/// label.
pub fn cycle_marker_line(label: &str) -> (s: String)
    ensures
        s@ == marker_text(label@),
{
    if label.unicode_len() == 0 {
        string_of("; ---")
    } else {
        let mut s = string_of("; --- ");
        push_str(&mut s, label);
        push_str(&mut s, " ---");
        s
    }
}

// ----- Warnings of a raw g-code block ---------------------------------------

pub type WarningView = (Option<u32>, Seq<char>, Seq<char>, Seq<(Seq<char>, Seq<char>)>);

pub open spec fn warning_view(w: PipelineWarning) -> WarningView {
    (w.op_id, w.kind@, w.message@, params_view(w.params@))
}

pub open spec fn warnings_view(ws: Seq<PipelineWarning>) -> Seq<WarningView> {
    ws.map_values(|w: PipelineWarning| warning_view(w))
}

pub open spec fn p1(k1: Seq<char>, v1: Seq<char>) -> Seq<(Seq<char>, Seq<char>)> {
    insert_param(Seq::empty(), k1, v1)
}

pub open spec fn p2(k1: Seq<char>, v1: Seq<char>, k2: Seq<char>, v2: Seq<char>) -> Seq<
    (Seq<char>, Seq<char>),
> {
    insert_param(p1(k1, v1), k2, v2)
}

pub open spec fn unknown_var_warning(op_id: u32, name: Seq<char>, var: Seq<char>) -> WarningView {
    (
        Some(op_id),
        "gcode_include_unknown_variable"@,
        "Op '"@ + name + "': "@ + "unknown variable `{"@ + var
            + "}` in included G-code passed through verbatim — fix or remove to silence."@,
        p2("op_name"@, name, "variable"@, seq!['{'] + var + seq!['}']),
    )
}

pub open spec fn empty_warning(op_id: u32, name: Seq<char>) -> WarningView {
    (
        Some(op_id),
        "gcode_include_empty"@,
        "Op '"@ + name + "': "@ + "included G-code is empty — no lines emitted at this slot."@,
        p1("op_name"@, name),
    )
}

/// The summary of the lines the simulator skips: how many of how many,
/// and the first one.
pub open spec fn skipped_summary(
    op_id: u32,
    name: Seq<char>,
    n_skipped: nat,
    n_total: nat,
    first: (u32, Seq<char>, Seq<char>),
) -> WarningView {
    (
        Some(op_id),
        "gcode_include_lines_skipped"@,
        "Op '"@ + name + "': "@ + dec(n_skipped) + " of "@ + dec(n_total)
            + " included G-code line(s) cannot be simulated — the carved stock state across this slot may be incomplete. First skipped: line "@
            + dec(first.0 as nat) + " `"@ + first.1 + "` ("@ + first.2
            + "). Inspect the included file by hand."@,
        insert_param(
            insert_param(
                insert_param(
                    insert_param(
                        insert_param(p1("op_name"@, name), "n_skipped"@, dec(n_skipped)),
                        "n_total"@,
                        dec(n_total),
                    ),
                    "first_line"@,
                    dec(first.0 as nat),
                ),
                "first_text"@,
                first.1,
            ),
            "first_reason"@,
            first.2,
        ),
    )
}

/// The per-line warning of one skipped line (verbose mode).
pub open spec fn skipped_line_warning(op_id: u32, name: Seq<char>, s: (u32, Seq<char>, Seq<char>)) -> WarningView {
    (
        Some(op_id),
        "gcode_include_unsim_line"@,
        "Op '"@ + name + "': "@ + "included G-code line "@ + dec(s.0 as nat) + ": `"@ + s.1
            + "` — "@ + s.2 + "."@,
        insert_param(
            insert_param(
                insert_param(p1("op_name"@, name), "line"@, dec(s.0 as nat)),
                "text"@,
                s.1,
            ),
            "reason"@,
            s.2,
        ),
    )
}

/// The warnings a raw g-code block raises: one per unknown variable; one
/// when the expanded body is blank; and, when the simulator skips lines,
/// a summary — followed in verbose mode by one warning per skipped line.
pub open spec fn include_warnings_spec(
    op_id: u32,
    name: Seq<char>,
    expanded: Seq<char>,
    unknown: Seq<Seq<char>>,
    verbose: bool,
) -> Seq<WarningView> {
    let unk = unknown.map_values(|u: Seq<char>| unknown_var_warning(op_id, name, u));
    let emp = if trim(expanded).len() == 0 {
        seq![empty_warning(op_id, name)]
    } else {
        Seq::empty()
    };
    let c = classify_lines(text_lines(expanded));
    let skipped = if c.2.len() == 0 {
        Seq::empty()
    } else {
        let summary = seq![
            skipped_summary(op_id, name, c.2.len(), c.0 + c.1 + c.2.len(), c.2[0]),
        ];
        if verbose {
            summary + c.2.map_values(|s: (u32, Seq<char>, Seq<char>)| skipped_line_warning(op_id, name, s))
        } else {
            summary
        }
    };
    unk + emp + skipped
}

fn msg_prefix(name: &str) -> (s: String)
    ensures
        s@ == "Op '"@ + name@ + "': "@,
{
    let mut s = string_of("Op '");
    push_str(&mut s, name);
    push_str(&mut s, "': ");
    s
}

fn dec_string(n: u64) -> (s: String)
    ensures
        s@ == dec(n as nat),
{
    let mut s = String::new();
    push_dec64(&mut s, n);
    proof {
        assert(s@ =~= Seq::<char>::empty() + dec(n as nat));
    }
    s
}

fn unknown_warning(op_id: u32, name: &str, var: &str) -> (w: PipelineWarning)
    ensures
        w.wf(),
        warning_view(w) == unknown_var_warning(op_id, name@, var@),
{
    let mut msg = msg_prefix(name);
    push_str(&mut msg, "unknown variable `{");
    push_str(&mut msg, var);
    push_str(&mut msg, "}` in included G-code passed through verbatim — fix or remove to silence.");
    let mut braced = String::new();
    push_char(&mut braced, '{');
    push_str(&mut braced, var);
    push_char(&mut braced, '}');
    proof {
        assert(braced@ =~= seq!['{'] + var@ + seq!['}']);
        assert(msg@ =~= "Op '"@ + name@ + "': "@ + "unknown variable `{"@ + var@
            + "}` in included G-code passed through verbatim — fix or remove to silence."@);
    }
    let w = PipelineWarning::for_op(op_id, string_of("gcode_include_unknown_variable"), msg);
    let w = w.with_param(string_of("op_name"), string_of(name));
    let w = w.with_param(string_of("variable"), braced);
    proof {
        assert(params_view(Seq::<(String, String)>::empty()) =~= Seq::<(Seq<char>, Seq<char>)>::empty());
    }
    w
}

fn skipped_line(op_id: u32, name: &str, s: &SkippedIncludeLine) -> (w: PipelineWarning)
    ensures
        w.wf(),
        warning_view(w) == skipped_line_warning(op_id, name@, (s.line_no, s.trimmed@, s.reason@)),
{
    let mut msg = msg_prefix(name);
    push_str(&mut msg, "included G-code line ");
    push_dec(&mut msg, s.line_no);
    push_str(&mut msg, ": `");
    push_str(&mut msg, s.trimmed.as_str());
    push_str(&mut msg, "` — ");
    push_str(&mut msg, s.reason.as_str());
    push_str(&mut msg, ".");
    proof {
        assert(msg@ =~= "Op '"@ + name@ + "': "@ + "included G-code line "@ + dec(s.line_no as nat)
            + ": `"@ + s.trimmed@ + "` — "@ + s.reason@ + "."@);
    }
    let w = PipelineWarning::for_op(op_id, string_of("gcode_include_unsim_line"), msg);
    let w = w.with_param(string_of("op_name"), string_of(name));
    let w = w.with_param(string_of("line"), dec_string(s.line_no as u64));
    let w = w.with_param(string_of("text"), s.trimmed.clone());
    let w = w.with_param(string_of("reason"), s.reason.clone());
    proof {
        assert(params_view(Seq::<(String, String)>::empty()) =~= Seq::<(Seq<char>, Seq<char>)>::empty());
    }
    w
}

/// The warnings of a raw g-code block (see [`include_warnings_spec`]),
/// given the op, its expanded body and the unknown variable names the
/// expansion met. Every word of every body line must start with an ASCII
/// character.
pub fn include_warnings(
    op_id: u32,
    op_name: &str,
    expanded: &str,
    unknown: &Vec<String>,
    verbose: bool,
) -> (ws: Vec<PipelineWarning>)
    requires
        forall|i: int|
            0 <= i < text_lines(expanded@).len() ==> words_lead_ascii(
                trim(strip_comment_from(#[trigger] text_lines(expanded@)[i], false)),
            ),
    ensures
        forall|i: int| 0 <= i < ws@.len() ==> (#[trigger] ws@[i]).wf(),
        warnings_view(ws@) == include_warnings_spec(
            op_id,
            op_name@,
            expanded@,
            crate::gcode::sink::lines_view(unknown@),
            verbose,
        ),
{
    let ghost uv = crate::gcode::sink::lines_view(unknown@);
    let mut ws: Vec<PipelineWarning> = Vec::new();
    let mut i: usize = 0;
    while i < unknown.len()
        invariant
            i <= unknown.len(),
            uv == crate::gcode::sink::lines_view(unknown@),
            forall|k: int| 0 <= k < ws@.len() ==> (#[trigger] ws@[k]).wf(),
            warnings_view(ws@) == uv.take(i as int).map_values(
                |u: Seq<char>| unknown_var_warning(op_id, op_name@, u),
            ),
        decreases unknown.len() - i,
    {
        let ghost w0 = warnings_view(ws@);
        let w = unknown_warning(op_id, op_name, unknown[i].as_str());
        ws.push(w);
        proof {
            assert(warnings_view(ws@) =~= w0.push(unknown_var_warning(op_id, op_name@, uv[i as int])));
            assert(uv.take(i + 1).map_values(|u: Seq<char>| unknown_var_warning(op_id, op_name@, u))
                =~= uv.take(i as int).map_values(
                |u: Seq<char>| unknown_var_warning(op_id, op_name@, u),
            ).push(unknown_var_warning(op_id, op_name@, uv[i as int])));
        }
        i = i + 1;
    }
    proof {
        assert(uv.take(unknown.len() as int) =~= uv);
    }
    let ghost after_unknown = warnings_view(ws@);
    let ec = to_chars(expanded);
    let et = crate::chars::trimmed_chars(ec.as_slice());
    if et.len() == 0 {
        let mut msg = msg_prefix(op_name);
        push_str(&mut msg, "included G-code is empty — no lines emitted at this slot.");
        proof {
            assert(msg@ =~= "Op '"@ + op_name@ + "': "@
                + "included G-code is empty — no lines emitted at this slot."@);
        }
        let w = PipelineWarning::for_op(op_id, string_of("gcode_include_empty"), msg);
        let w = w.with_param(string_of("op_name"), string_of(op_name));
        proof {
            assert(params_view(Seq::<(String, String)>::empty()) =~= Seq::<(Seq<char>, Seq<char>)>::empty());
        }
        ws.push(w);
    }
    let ghost after_empty = warnings_view(ws@);
    proof {
        if et@.len() == 0 {
            assert(after_empty =~= after_unknown + seq![empty_warning(op_id, op_name@)]);
        } else {
            assert(after_empty =~= after_unknown + Seq::<WarningView>::empty());
        }
    }
    let c = classify_gcode_include_body(expanded);
    let ghost cs = classify_lines(text_lines(expanded@));
    if c.skipped.len() > 0 {
        let n_skipped = c.skipped.len();
        proof {
            assert(crate::pipeline::raw_gcode::skipped_view(c.skipped@).len() == n_skipped);
        }
        // Every line is counted once: the total is the number of lines.
        let all_lines = crate::pipeline::raw_gcode::text_lines_of(expanded);
        proof {
            crate::pipeline::raw_gcode::lemma_classify_counts(text_lines(expanded@));
        }
        let n_total: u64 = all_lines.len() as u64;
        let head = &c.skipped[0];
        proof {
            assert(crate::pipeline::raw_gcode::skipped_view(c.skipped@)[0] == (
                head.line_no,
                head.trimmed@,
                head.reason@,
            ));
        }
        let mut msg = msg_prefix(op_name);
        push_dec64(&mut msg, n_skipped as u64);
        push_str(&mut msg, " of ");
        push_dec64(&mut msg, n_total);
        push_str(
            &mut msg,
            " included G-code line(s) cannot be simulated — the carved stock state across this slot may be incomplete. First skipped: line ",
        );
        push_dec(&mut msg, head.line_no);
        push_str(&mut msg, " `");
        push_str(&mut msg, head.trimmed.as_str());
        push_str(&mut msg, "` (");
        push_str(&mut msg, head.reason.as_str());
        push_str(&mut msg, "). Inspect the included file by hand.");
        proof {
            assert(msg@ =~= "Op '"@ + op_name@ + "': "@ + dec(n_skipped as nat) + " of "@ + dec(
                n_total as nat,
            )
                + " included G-code line(s) cannot be simulated — the carved stock state across this slot may be incomplete. First skipped: line "@
                + dec(head.line_no as nat) + " `"@ + head.trimmed@ + "` ("@ + head.reason@
                + "). Inspect the included file by hand."@);
        }
        let w = PipelineWarning::for_op(op_id, string_of("gcode_include_lines_skipped"), msg);
        let w = w.with_param(string_of("op_name"), string_of(op_name));
        let w = w.with_param(string_of("n_skipped"), dec_string(n_skipped as u64));
        let w = w.with_param(string_of("n_total"), dec_string(n_total));
        let w = w.with_param(string_of("first_line"), dec_string(head.line_no as u64));
        let w = w.with_param(string_of("first_text"), head.trimmed.clone());
        let w = w.with_param(string_of("first_reason"), head.reason.clone());
        proof {
            assert(params_view(Seq::<(String, String)>::empty()) =~= Seq::<(Seq<char>, Seq<char>)>::empty());
        }
        ws.push(w);
        let ghost after_summary = warnings_view(ws@);
        proof {
            assert(after_summary =~= after_empty + seq![
                skipped_summary(op_id, op_name@, cs.2.len(), cs.0 + cs.1 + cs.2.len(), cs.2[0]),
            ]);
        }
        if verbose {
            let ghost sv = crate::pipeline::raw_gcode::skipped_view(c.skipped@);
            let mut k: usize = 0;
            while k < c.skipped.len()
                invariant
                    k <= c.skipped.len(),
                    sv == crate::pipeline::raw_gcode::skipped_view(c.skipped@),
                    forall|q: int| 0 <= q < ws@.len() ==> (#[trigger] ws@[q]).wf(),
                    warnings_view(ws@) == after_summary + sv.take(k as int).map_values(
                        |s: (u32, Seq<char>, Seq<char>)| skipped_line_warning(op_id, op_name@, s),
                    ),
                decreases c.skipped.len() - k,
            {
                let ghost w0 = warnings_view(ws@);
                let w = skipped_line(op_id, op_name, &c.skipped[k]);
                ws.push(w);
                proof {
                    let f = |s: (u32, Seq<char>, Seq<char>)| skipped_line_warning(op_id, op_name@, s);
                    assert(sv[k as int] == (c.skipped@[k as int].line_no, c.skipped@[k as int].trimmed@, c.skipped@[k as int].reason@));
                    assert(warnings_view(ws@) =~= w0.push(f(sv[k as int])));
                    assert(sv.take(k + 1).map_values(f) =~= sv.take(k as int).map_values(f).push(
                        f(sv[k as int]),
                    ));
                }
                k = k + 1;
            }
            proof {
                assert(sv.take(c.skipped.len() as int) =~= sv);
            }
        }
    }
    ws
}

// ----- Emitting program-only ops into a post ---------------------------------

/// The lines a pause emits: its header, `M5`, the message as a comment
/// when there is one, then the stop code (`M1`, the optional stop, when the
/// machine opts in, else `M0`).
pub open spec fn pause_lines(op_id: nat, message: Seq<char>, optional_stop: bool) -> Seq<Seq<char>> {
    seq![op_header_text(op_id, "pause"@), "M5"@] + (if message.len() == 0 {
        Seq::<Seq<char>>::empty()
    } else {
        seq![seq!['('] + message + seq![')']]
    }) + seq![if optional_stop { "M1"@ } else { "M0"@ }]
}

/// Emit a pause: stop the spindle, show the message, stop the program, and
/// forget feed, speed and spindle direction so the next op re-emits them.
pub fn emit_pause_op(post: &mut Post, op_id: u32, message: &str, optional_stop: bool)
    requires
        old(post).wf(),
        old(post).room(4),
    ensures
        emits(*old(post), *final(post), pause_lines(op_id as nat, message@, optional_stop)),
        final(post).st() == forget_modal(old(post).st()),
{
    let ghost p0 = *post;
    let header = op_label_header(op_id, "pause");
    post.raw(header.as_str());
    let ghost p1 = *post;
    post.raw("M5");
    let ghost p2 = *post;
    proof {
        lemma_emits_trans(p0, p1, p2, seq![header@], seq!["M5"@]);
    }
    let ghost mid: Seq<Seq<char>> = if message@.len() == 0 {
        Seq::empty()
    } else {
        seq![seq!['('] + message@ + seq![')']]
    };
    if message.unicode_len() != 0 {
        post.comment(message);
    } else {
        proof {
            assert(p2.lines() + Seq::<Seq<char>>::empty() =~= p2.lines());
        }
    }
    let ghost p3 = *post;
    proof {
        lemma_emits_trans(p0, p2, p3, seq![header@] + seq!["M5"@], mid);
    }
    if optional_stop {
        post.raw("M1");
    } else {
        post.raw("M0");
    }
    let ghost p4 = *post;
    proof {
        let stop = if optional_stop { "M1"@ } else { "M0"@ };
        lemma_emits_trans(p0, p3, p4, seq![header@] + seq!["M5"@] + mid, seq![stop]);
        assert(seq![header@] + seq!["M5"@] + mid + seq![stop] =~= pause_lines(
            op_id as nat,
            message@,
            optional_stop,
        ));
    }
    post.reset_state();
    proof {
        lemma_emits_trans(p0, p4, *post, pause_lines(op_id as nat, message@, optional_stop), Seq::empty());
        assert(pause_lines(op_id as nat, message@, optional_stop) + Seq::<Seq<char>>::empty()
            =~= pause_lines(op_id as nat, message@, optional_stop));
    }
}

/// The lines a homing op emits: its header, `G28`, then the rapid back
/// to the op's safe Z when it retracts.
pub open spec fn homing_lines(op_id: nat, retract: Option<Seq<char>>) -> Seq<Seq<char>> {
    seq![op_header_text(op_id, "homing"@), "G28"@] + match retract {
        Some(r) => seq![r],
        None => Seq::<Seq<char>>::empty(),
    }
}

pub open spec fn opt_str(o: Option<&str>) -> Option<Seq<char>> {
    match o {
        Some(t) => Some(t@),
        None => None,
    }
}

/// Emit a homing op: its header and `G28`, then (`retract`) the rapid to
/// the op's safe Z as the caller's coordinate emitter renders it, then
/// forget feed, speed and spindle direction, since controllers reset modal
/// state at `G28`.
pub fn emit_homing_op(post: &mut Post, op_id: u32, retract: Option<&str>)
    requires
        old(post).wf(),
        old(post).room(3),
    ensures
        emits(*old(post), *final(post), homing_lines(op_id as nat, opt_str(retract))),
        final(post).st() == forget_modal(old(post).st()),
{
    let ghost p0 = *post;
    let header = op_label_header(op_id, "homing");
    post.raw(header.as_str());
    let ghost p1 = *post;
    post.raw("G28");
    let ghost p2 = *post;
    proof {
        lemma_emits_trans(p0, p1, p2, seq![header@], seq!["G28"@]);
        assert(seq![header@] + seq!["G28"@] =~= seq![header@, "G28"@]);
    }
    let ghost tail: Seq<Seq<char>> = match retract {
        Some(r) => seq![r@],
        None => Seq::empty(),
    };
    match retract {
        Some(r) => {
            post.raw(r);
        },
        None => {
            proof {
                assert(p2.lines() + Seq::<Seq<char>>::empty() =~= p2.lines());
            }
        },
    }
    let ghost p3 = *post;
    proof {
        lemma_emits_trans(p0, p2, p3, seq![header@, "G28"@], tail);
    }
    post.reset_state();
    proof {
        let all = homing_lines(op_id as nat, opt_str(retract));
        assert(seq![header@, "G28"@] + tail =~= all);
        lemma_emits_trans(p0, p3, *post, all, Seq::empty());
        assert(all + Seq::<Seq<char>>::empty() =~= all);
    }
}

/// The probe move: `G38.2 <axis><distance> F<feed>`.
pub open spec fn probe_line(axis: char, distance: Seq<char>, feed: nat) -> Seq<char> {
    "G38.2 "@ + seq![axis] + distance + " F"@ + dec(feed)
}

/// Emit a probe op: its header and the probe move along `axis` by
/// `distance` (as the caller renders it, four decimals) at `feed`
/// mm/min, then forget feed, speed and spindle direction so the next
/// moves restate their targets.
pub fn emit_probe_op(post: &mut Post, op_id: u32, axis: char, distance: &str, feed: u32)
    requires
        old(post).wf(),
        old(post).room(2),
    ensures
        emits(
            *old(post),
            *final(post),
            seq![op_header_text(op_id as nat, "probe"@), probe_line(axis, distance@, feed as nat)],
        ),
        final(post).st() == forget_modal(old(post).st()),
{
    let ghost p0 = *post;
    let header = op_label_header(op_id, "probe");
    post.raw(header.as_str());
    let ghost p1 = *post;
    let mut line = string_of("G38.2 ");
    push_char(&mut line, axis);
    push_str(&mut line, distance);
    push_str(&mut line, " F");
    push_dec(&mut line, feed);
    proof {
        assert(line@ =~= probe_line(axis, distance@, feed as nat));
    }
    post.raw(line.as_str());
    let ghost p2 = *post;
    proof {
        lemma_emits_trans(p0, p1, p2, seq![header@], seq![line@]);
        assert(seq![header@] + seq![line@] =~= seq![header@, line@]);
    }
    post.reset_state();
    proof {
        lemma_emits_trans(p0, p2, *post, seq![header@, line@], Seq::empty());
        assert(seq![header@, line@] + Seq::<Seq<char>>::empty() =~= seq![header@, line@]);
    }
}

/// Emit a cycle marker: its header and the marker comment. No motion and
/// no change of modal state.
pub fn emit_cycle_marker_op(post: &mut Post, op_id: u32, label: &str)
    requires
        old(post).wf(),
        old(post).room(2),
    ensures
        emits(
            *old(post),
            *final(post),
            seq![op_header_text(op_id as nat, "cycle marker"@), marker_text(label@)],
        ),
        final(post).st() == old(post).st(),
{
    let ghost p0 = *post;
    let header = op_label_header(op_id, "cycle marker");
    post.raw(header.as_str());
    let ghost p1 = *post;
    let marker = cycle_marker_line(label);
    post.raw(marker.as_str());
    proof {
        lemma_emits_trans(p0, p1, *post, seq![header@], seq![marker@]);
        assert(seq![header@] + seq![marker@] =~= seq![header@, marker@]);
    }
}

/// The body of a raw g-code block once its variables are substituted.
pub open spec fn expanded_body(content: Seq<char>, vars: ExpansionVars) -> Seq<char> {
    expand_at(content, 0, vars, Seq::empty()).0
}

/// Every word of every line of `body` starts with an ASCII character.
pub open spec fn body_words_lead_ascii(body: Seq<char>) -> bool {
    forall|i: int|
        0 <= i < text_lines(body).len() ==> words_lead_ascii(
            trim(strip_comment_from(#[trigger] text_lines(body)[i], false)),
        )
}

/// Whether every word of every line of `body`, its comments stripped and
/// the line trimmed, starts with an ASCII character: what the include
/// emitters and the line classifier require of their input.
pub fn body_words_lead_ascii_check(body: &str) -> (b: bool)
    ensures
        b == body_words_lead_ascii(body@),
{
    let ls = text_lines_of(body);
    let ghost lv = text_lines(body@);
    let mut i: usize = 0;
    while i < ls.len()
        invariant
            i <= ls@.len(),
            lv == lines_view(ls@),
            lv == text_lines(body@),
            lv.len() == ls@.len(),
            forall|k: int|
                0 <= k < i ==> words_lead_ascii(trim(strip_comment_from(#[trigger] lv[k], false))),
        decreases ls@.len() - i,
    {
        let stripped = strip_gcode_comment(ls[i].as_str());
        let sc = to_chars(stripped.as_str());
        let tc = crate::chars::trimmed_chars(sc.as_slice());
        proof {
            assert(ls@[i as int]@ == lv[i as int]);
        }
        if !words_lead_ascii_check(tc.as_slice()) {
            proof {
                assert(!words_lead_ascii(
                    trim(strip_comment_from(text_lines(body@)[i as int], false)),
                ));
            }
            return false;
        }
        i = i + 1;
    }
    true
}

/// Emit a raw g-code block: its header, then every line of the body with
/// `{x}`, `{y}`, `{z}`, `{f}`, `{s}` and `{safe_z}` substituted from `vars`,
/// then forget feed, speed and spindle direction, since nothing is known of
/// where the block left them. Returns the warnings the block raises (see
/// [`include_warnings_spec`]).
pub fn emit_gcode_include_op(
    post: &mut Post,
    op_id: u32,
    op_name: &str,
    path: &str,
    content: &str,
    vars: &ExpansionVars,
    verbose: bool,
) -> (ws: Vec<PipelineWarning>)
    requires
        old(post).wf(),
        old(post).room(1 + text_lines(expanded_body(content@, *vars)).len() as int),
        body_words_lead_ascii(expanded_body(content@, *vars)),
    ensures
        emits(
            *old(post),
            *final(post),
            seq![include_header_text(op_id as nat, path@)] + text_lines(
                expanded_body(content@, *vars),
            ),
        ),
        final(post).st() == forget_modal(old(post).st()),
        forall|i: int| 0 <= i < ws@.len() ==> (#[trigger] ws@[i]).wf(),
        warnings_view(ws@) == include_warnings_spec(
            op_id,
            op_name@,
            expanded_body(content@, *vars),
            expand_at(content@, 0, *vars, Seq::empty()).1,
            verbose,
        ),
{
    let ghost p0 = *post;
    let header = include_header(op_id, path);
    post.raw(header.as_str());
    let (expanded, unknown) = expand_gcode_include_vars(content, vars);
    let ws = include_warnings(op_id, op_name, expanded.as_str(), &unknown, verbose);
    let lines = text_lines_of(expanded.as_str());
    let ghost lv = lines_view(lines@);
    let ghost head = seq![header@];
    proof {
        assert(head + lv.take(0) =~= head);
    }
    let mut i: usize = 0;
    while i < lines.len()
        invariant
            i <= lines.len(),
            lv == lines_view(lines@),
            lv == text_lines(expanded@),
            expanded@ == expanded_body(content@, *vars),
            p0.room(1 + lv.len() as int),
            emits(p0, *post, head + lv.take(i as int)),
            post.st() == p0.st(),
            head.len() == 1,
        decreases lines.len() - i,
    {
        let ghost before = *post;
        proof {
            assert(before.lines().len() == p0.lines().len() + 1 + i);
        }
        post.raw(lines[i].as_str());
        proof {
            lemma_emits_trans(p0, before, *post, head + lv.take(i as int), seq![lv[i as int]]);
            assert(head + lv.take(i as int) + seq![lv[i as int]] =~= head + lv.take(i + 1));
        }
        i = i + 1;
    }
    proof {
        assert(lv.take(lines.len() as int) =~= lv);
    }
    let ghost p1 = *post;
    post.reset_state();
    proof {
        lemma_emits_trans(p0, p1, *post, head + lv, Seq::empty());
        assert(head + lv + Seq::<Seq<char>>::empty() =~= head + lv);
    }
    ws
}


// ----- The same ops into a GRBL post ------------------------------------------
//
// A GRBL post sends every raw line through its paren-comment rewrite, so
// each op's lines come out as their `grbl_block`; a pause's message goes
// through GRBL's own `; <text>` comment.

fn strings2(a: String, b: String) -> (v: Vec<String>)
    ensures
        lines_view(v@) == seq![a@, b@],
{
    let mut v: Vec<String> = Vec::new();
    v.push(a);
    v.push(b);
    proof {
        assert(lines_view(v@) =~= seq![a@, b@]);
    }
    v
}

/// The lines a pause emits into a GRBL post.
pub open spec fn grbl_pause_lines(op_id: nat, message: Seq<char>, optional_stop: bool) -> Seq<
    Seq<char>,
> {
    grbl_block(seq![op_header_text(op_id, "pause"@), "M5"@]) + (if message.len() == 0 {
        Seq::<Seq<char>>::empty()
    } else {
        seq!["; "@ + message]
    }) + grbl::grbl_raw_lines(if optional_stop { "M1"@ } else { "M0"@ })
}

/// Emit a pause into a GRBL post (see [`emit_pause_op`]).
pub fn emit_pause_op_grbl(post: &mut grbl::Post, op_id: u32, message: &str, optional_stop: bool)
    requires
        old(post).base().wf(),
        old(post).base().room(
            grbl_pause_lines(op_id as nat, message@, optional_stop).len() as int,
        ),
    ensures
        emits(
            old(post).base(),
            final(post).base(),
            grbl_pause_lines(op_id as nat, message@, optional_stop),
        ),
        final(post).base().st() == forget_modal(old(post).base().st()),
{
    let ghost p0 = post.base();
    let ghost all = grbl_pause_lines(op_id as nat, message@, optional_stop);
    let header = op_label_header(op_id, "pause");
    let v = strings2(header, string_of("M5"));
    let ghost first = grbl_block(lines_view(v@));
    post.raw_lines(v);
    let ghost p1 = post.base();
    let ghost mid: Seq<Seq<char>> = if message@.len() == 0 {
        Seq::empty()
    } else {
        seq!["; "@ + message@]
    };
    if message.unicode_len() != 0 {
        post.comment(message);
    } else {
        proof {
            assert(p1.lines() + Seq::<Seq<char>>::empty() =~= p1.lines());
        }
    }
    let ghost p2 = post.base();
    proof {
        lemma_emits_trans(p0, p1, p2, first, mid);
    }
    let stop = if optional_stop {
        "M1"
    } else {
        "M0"
    };
    post.raw(stop);
    let ghost p3 = post.base();
    proof {
        lemma_emits_trans(p0, p2, p3, first + mid, grbl::grbl_raw_lines(stop@));
        assert(first + mid + grbl::grbl_raw_lines(stop@) =~= all);
    }
    post.reset_state();
    proof {
        lemma_emits_trans(p0, p3, post.base(), all, Seq::empty());
        assert(all + Seq::<Seq<char>>::empty() =~= all);
    }
}

/// Emit a cycle marker into a GRBL post (see [`emit_cycle_marker_op`]).
pub fn emit_cycle_marker_op_grbl(post: &mut grbl::Post, op_id: u32, label: &str)
    requires
        old(post).base().wf(),
        old(post).base().room(
            grbl_block(seq![op_header_text(op_id as nat, "cycle marker"@), marker_text(label@)]).len() as int,
        ),
    ensures
        emits(
            old(post).base(),
            final(post).base(),
            grbl_block(seq![op_header_text(op_id as nat, "cycle marker"@), marker_text(label@)]),
        ),
        final(post).base().st() == old(post).base().st(),
{
    let header = op_label_header(op_id, "cycle marker");
    let marker = cycle_marker_line(label);
    post.raw_lines(strings2(header, marker));
}

/// Emit a homing op into a GRBL post (see [`emit_homing_op`]).
pub fn emit_homing_op_grbl(post: &mut grbl::Post, op_id: u32, retract: Option<&str>)
    requires
        old(post).base().wf(),
        old(post).base().room(grbl_block(homing_lines(op_id as nat, opt_str(retract))).len() as int),
    ensures
        emits(
            old(post).base(),
            final(post).base(),
            grbl_block(homing_lines(op_id as nat, opt_str(retract))),
        ),
        final(post).base().st() == forget_modal(old(post).base().st()),
{
    let ghost p0 = post.base();
    let header = op_label_header(op_id, "homing");
    let mut v = strings2(header, string_of("G28"));
    match retract {
        Some(r) => {
            let ghost v0 = lines_view(v@);
            v.push(string_of(r));
            proof {
                assert(lines_view(v@) =~= v0.push(r@));
            }
        },
        None => {},
    }
    proof {
        assert(lines_view(v@) =~= homing_lines(op_id as nat, opt_str(retract)));
    }
    post.raw_lines(v);
    let ghost p1 = post.base();
    post.reset_state();
    proof {
        let all = grbl_block(homing_lines(op_id as nat, opt_str(retract)));
        lemma_emits_trans(p0, p1, post.base(), all, Seq::empty());
        assert(all + Seq::<Seq<char>>::empty() =~= all);
    }
}

/// Emit a probe op into a GRBL post (see [`emit_probe_op`]).
pub fn emit_probe_op_grbl(post: &mut grbl::Post, op_id: u32, axis: char, distance: &str, feed: u32)
    requires
        old(post).base().wf(),
        old(post).base().room(
            grbl_block(
                seq![op_header_text(op_id as nat, "probe"@), probe_line(axis, distance@, feed as nat)],
            ).len() as int,
        ),
    ensures
        emits(
            old(post).base(),
            final(post).base(),
            grbl_block(
                seq![op_header_text(op_id as nat, "probe"@), probe_line(axis, distance@, feed as nat)],
            ),
        ),
        final(post).base().st() == forget_modal(old(post).base().st()),
{
    let ghost p0 = post.base();
    let header = op_label_header(op_id, "probe");
    let mut line = string_of("G38.2 ");
    push_char(&mut line, axis);
    push_str(&mut line, distance);
    push_str(&mut line, " F");
    push_dec(&mut line, feed);
    proof {
        assert(line@ =~= probe_line(axis, distance@, feed as nat));
    }
    let ghost blk = grbl_block(seq![header@, line@]);
    post.raw_lines(strings2(header, line));
    let ghost p1 = post.base();
    post.reset_state();
    proof {
        lemma_emits_trans(p0, p1, post.base(), blk, Seq::empty());
        assert(blk + Seq::<Seq<char>>::empty() =~= blk);
    }
}

/// Emit a raw g-code block into a GRBL post (see [`emit_gcode_include_op`]).
pub fn emit_gcode_include_op_grbl(
    post: &mut grbl::Post,
    op_id: u32,
    op_name: &str,
    path: &str,
    content: &str,
    vars: &ExpansionVars,
    verbose: bool,
) -> (ws: Vec<PipelineWarning>)
    requires
        old(post).base().wf(),
        old(post).base().room(
            grbl_block(
                seq![include_header_text(op_id as nat, path@)] + text_lines(
                    expanded_body(content@, *vars),
                ),
            ).len() as int,
        ),
        body_words_lead_ascii(expanded_body(content@, *vars)),
    ensures
        emits(
            old(post).base(),
            final(post).base(),
            grbl_block(
                seq![include_header_text(op_id as nat, path@)] + text_lines(
                    expanded_body(content@, *vars),
                ),
            ),
        ),
        final(post).base().st() == forget_modal(old(post).base().st()),
        forall|i: int| 0 <= i < ws@.len() ==> (#[trigger] ws@[i]).wf(),
        warnings_view(ws@) == include_warnings_spec(
            op_id,
            op_name@,
            expanded_body(content@, *vars),
            expand_at(content@, 0, *vars, Seq::empty()).1,
            verbose,
        ),
{
    let ghost p0 = post.base();
    let header = include_header(op_id, path);
    let (expanded, unknown) = expand_gcode_include_vars(content, vars);
    let ws = include_warnings(op_id, op_name, expanded.as_str(), &unknown, verbose);
    let mut body = text_lines_of(expanded.as_str());
    let mut v: Vec<String> = Vec::new();
    v.push(header);
    let ghost h = lines_view(v@);
    let ghost b = lines_view(body@);
    v.append(&mut body);
    proof {
        assert(lines_view(v@) =~= h + b);
        assert(h =~= seq![include_header_text(op_id as nat, path@)]);
    }
    let ghost blk = grbl_block(lines_view(v@));
    post.raw_lines(v);
    let ghost p1 = post.base();
    post.reset_state();
    proof {
        lemma_emits_trans(p0, p1, post.base(), blk, Seq::empty());
        assert(blk + Seq::<Seq<char>>::empty() =~= blk);
    }
    ws
}

// ----- Group boundary markers ---------------------------------------------

/// An op's group as it counts for markers: an empty name is no group.
pub open spec fn live_group(g: Option<Seq<char>>) -> Option<Seq<char>> {
    match g {
        Some(s) => if s.len() == 0 {
            None
        } else {
            Some(s)
        },
        None => None,
    }
}

/// The marker written before an op in group `cur` after ops in the live
/// group `prev`: none while the group stays the same, `; === GROUP: <g> ===`
/// on entering group `g`, `; === END GROUP ===` on leaving every group.
pub open spec fn group_marker_spec(prev: Option<Seq<char>>, cur: Option<Seq<char>>) -> Option<Seq<char>> {
    let c = live_group(cur);
    if c == prev {
        None
    } else {
        match c {
            Some(g) => Some("; === GROUP: "@ + g + " ==="@),
            None => Some("; === END GROUP ==="@),
        }
    }
}

pub open spec fn opt_str_view(o: Option<String>) -> Option<Seq<char>> {
    match o {
        Some(s) => Some(s@),
        None => None,
    }
}

/// Before an op whose group is `op_group`, after ops in the live group
/// `prev_group` (`None` at the program's start): the live group from here
/// on, and the marker line to write, if any (see [`group_marker_spec`]).
pub fn group_marker(prev_group: &Option<String>, op_group: &Option<String>) -> (r: (
    Option<String>,
    Option<String>,
))
    ensures
        opt_str_view(r.0) == live_group(opt_str_view(*op_group)),
        opt_str_view(r.1) == group_marker_spec(opt_str_view(*prev_group), opt_str_view(*op_group)),
{
    let cur: Option<String> = match op_group {
        Some(g) => if g.unicode_len() == 0 {
            None
        } else {
            Some(g.clone())
        },
        None => None,
    };
    let same = match (&cur, prev_group) {
        (None, None) => true,
        (Some(a), Some(b)) => {
            let av = to_chars(a.as_str());
            let bv = to_chars(b.as_str());
            crate::params::eq_chars(av.as_slice(), bv.as_slice())
        },
        _ => false,
    };
    if same {
        return (cur, None);
    }
    let marker = match &cur {
        Some(g) => {
            let mut m = string_of("; === GROUP: ");
            push_str(&mut m, g.as_str());
            push_str(&mut m, " ===");
            m
        },
        None => string_of("; === END GROUP ==="),
    };
    (cur, Some(marker))
}

/// The markers written over a run of ops with groups `gs`, starting in
/// the live group `prev`.
pub open spec fn group_walk(prev: Option<Seq<char>>, gs: Seq<Option<Seq<char>>>) -> Seq<Seq<char>>
    decreases gs.len(),
{
    if gs.len() == 0 {
        Seq::empty()
    } else {
        let m = match group_marker_spec(prev, gs[0]) {
            Some(t) => seq![t],
            None => Seq::empty(),
        };
        m + group_walk(live_group(gs[0]), gs.drop_first())
    }
}

/// Law: a program whose ops set no group (none, or an empty name) gets no
/// group marker at all.
pub proof fn lemma_no_groups_no_markers(gs: Seq<Option<Seq<char>>>)
    requires
        forall|i: int| 0 <= i < gs.len() ==> live_group(#[trigger] gs[i]) is None,
    ensures
        group_walk(None, gs) == Seq::<Seq<char>>::empty(),
    decreases gs.len(),
{
    if gs.len() > 0 {
        let t = gs.drop_first();
        assert(live_group(gs[0]) is None);
        assert forall|i: int| 0 <= i < t.len() implies live_group(#[trigger] t[i]) is None by {
            assert(t[i] == gs[i + 1]);
        }
        lemma_no_groups_no_markers(t);
        assert(Seq::<Seq<char>>::empty() + Seq::<Seq<char>>::empty() =~= Seq::<Seq<char>>::empty());
    }
}

/// Law: a run of ops that stays in one group gets exactly one marker, the
/// group's opening marker, before its first op.
pub proof fn lemma_one_group_one_marker(g: Seq<char>, gs: Seq<Option<Seq<char>>>)
    requires
        g.len() > 0,
        gs.len() > 0,
        forall|i: int| 0 <= i < gs.len() ==> live_group(#[trigger] gs[i]) == Some(g),
    ensures
        group_walk(None, gs) == seq!["; === GROUP: "@ + g + " ==="@],
{
    let t = gs.drop_first();
    assert forall|i: int| 0 <= i < t.len() implies live_group(#[trigger] t[i]) == Some(g) by {
        assert(t[i] == gs[i + 1]);
    }
    lemma_same_group_silent(g, t);
    assert(live_group(gs[0]) == Some(g));
    assert(seq!["; === GROUP: "@ + g + " ==="@] + Seq::<Seq<char>>::empty() =~= seq![
        "; === GROUP: "@ + g + " ==="@,
    ]);
}

proof fn lemma_same_group_silent(g: Seq<char>, gs: Seq<Option<Seq<char>>>)
    requires
        forall|i: int| 0 <= i < gs.len() ==> live_group(#[trigger] gs[i]) == Some(g),
    ensures
        group_walk(Some(g), gs) == Seq::<Seq<char>>::empty(),
    decreases gs.len(),
{
    if gs.len() > 0 {
        let t = gs.drop_first();
        assert(live_group(gs[0]) == Some(g));
        assert forall|i: int| 0 <= i < t.len() implies live_group(#[trigger] t[i]) == Some(g) by {
            assert(t[i] == gs[i + 1]);
        }
        lemma_same_group_silent(g, t);
        assert(Seq::<Seq<char>>::empty() + Seq::<Seq<char>>::empty() =~= Seq::<Seq<char>>::empty());
    }
}

} // verus!
