//! Pipeline scheduling: the post-processor dialect tag, warnings with
//! their localization parameters, tool-change accounting, the
//! tool-grouping reorder of the op list, and the handling of raw g-code
//! include bodies (variable expansion and per-line classification).

pub mod per_op;
pub mod program_only;
pub mod raw_gcode;
pub mod toolchange;

use vstd::prelude::*;

use crate::chars::push_str;
use crate::gcode::dec;
use crate::params::{insert_param, params_sorted, params_view, set_param};

verus! {

// ----- Post-processor dialect ---------------------------------------------

/// The post-processor dialect a pipeline run emits.
#[derive(Debug, Clone, Copy, PartialEq, Eq, Structural)]
pub enum PostProcessorKind {
    Linuxcnc,
    Grbl,
    Hpgl,
}

impl PostProcessorKind {
    /// Stable per-dialect tag folded into the op cache key: explicit
    /// values, so reordering the variants never remaps existing keys.
    pub fn cache_tag(self) -> (t: u8)
        ensures
            t == match self {
                PostProcessorKind::Linuxcnc => 0u8,
                PostProcessorKind::Grbl => 1u8,
                PostProcessorKind::Hpgl => 2u8,
            },
    {
        match self {
            PostProcessorKind::Linuxcnc => 0,
            PostProcessorKind::Grbl => 1,
            PostProcessorKind::Hpgl => 2,
        }
    }

    /// Whether the dialect can stream its output line by line. HPGL
    /// re-derives its whole listing at `finish`, so it cannot.
    pub fn supports_streaming(self) -> (b: bool)
        ensures
            b == (self != PostProcessorKind::Hpgl),
    {
        match self {
            PostProcessorKind::Hpgl => false,
            _ => true,
        }
    }
}

impl Default for PostProcessorKind {
    fn default() -> (k: Self)
        ensures
            k == PostProcessorKind::Linuxcnc,
    {
        PostProcessorKind::Linuxcnc
    }
}

/// A streaming run was asked of a dialect that cannot stream.
#[derive(Debug, Clone, Copy, PartialEq, Eq, Structural)]
pub struct StreamUnsupported {
    pub kind: PostProcessorKind,
}

/// The dialect a request selects (`Linuxcnc` when unset), or the refusal
/// when it cannot stream.
pub fn streaming_kind(requested: Option<PostProcessorKind>) -> (r: Result<
    PostProcessorKind,
    StreamUnsupported,
>)
    ensures
        match requested {
            None => r == Ok::<PostProcessorKind, StreamUnsupported>(PostProcessorKind::Linuxcnc),
            Some(k) => if k == PostProcessorKind::Hpgl {
                r == Err::<PostProcessorKind, StreamUnsupported>(StreamUnsupported { kind: k })
            } else {
                r == Ok::<PostProcessorKind, StreamUnsupported>(k)
            },
        },
{
    let kind = match requested {
        Some(k) => k,
        None => PostProcessorKind::Linuxcnc,
    };
    if !kind.supports_streaming() {
        return Err(StreamUnsupported { kind });
    }
    Ok(kind)
}

// ----- Statistics -----------------------------------------------------------

/// Planning counts of a pipeline run.
#[derive(Debug, Clone, Copy, PartialEq, Eq, Structural)]
pub struct PipelineStats {
    pub object_count: usize,
    pub closed_object_count: usize,
    pub offset_count: usize,
}

impl Default for PipelineStats {
    fn default() -> (s: Self)
        ensures
            s.object_count == 0 && s.closed_object_count == 0 && s.offset_count == 0,
    {
        PipelineStats { object_count: 0, closed_object_count: 0, offset_count: 0 }
    }
}

// ----- Warnings -------------------------------------------------------------

/// One non-fatal warning, optionally attached to an op. `kind` is the
/// stable code a frontend keys its `warn.<kind>` template on; `params` are
/// the values that template interpolates, kept in key order; `message` is
/// the English fallback.
#[derive(Debug)]
pub struct PipelineWarning {
    pub op_id: Option<u32>,
    pub kind: String,
    pub params: Vec<(String, String)>,
    pub message: String,
}

impl PipelineWarning {
    /// The parameters are in key order with no key twice.
    pub open spec fn wf(&self) -> bool {
        params_sorted(params_view(self.params@))
    }

    /// A project-wide warning with no parameters.
    pub fn new(kind: String, message: String) -> (w: Self)
        ensures
            w.wf(),
            w.op_id is None,
            w.kind@ == kind@,
            w.message@ == message@,
            w.params@.len() == 0,
    {
        PipelineWarning { op_id: None, kind, params: Vec::new(), message }
    }

    /// A warning attached to op `op_id`, with no parameters.
    pub fn for_op(op_id: u32, kind: String, message: String) -> (w: Self)
        ensures
            w.wf(),
            w.op_id == Some(op_id),
            w.kind@ == kind@,
            w.message@ == message@,
            w.params@.len() == 0,
    {
        PipelineWarning { op_id: Some(op_id), kind, params: Vec::new(), message }
    }

    /// Set the template value of `key` (replacing an earlier value of the
    /// same key).
    pub fn with_param(self, key: String, value: String) -> (w: Self)
        requires
            self.wf(),
        ensures
            w.wf(),
            w.op_id == self.op_id,
            w.kind@ == self.kind@,
            w.message@ == self.message@,
            params_view(w.params@) == insert_param(params_view(self.params@), key@, value@),
    {
        let mut w = self;
        set_param(&mut w.params, key, value);
        w
    }
}

/// A streaming run's result: planning counts and the warnings that do not
/// need the assembled toolpath (the g-code itself went to the writer).
#[derive(Debug)]
pub struct StreamGcodeOutcome {
    pub stats: PipelineStats,
    pub warnings: Vec<PipelineWarning>,
}

// ----- Errors ---------------------------------------------------------------

/// Why a pipeline run failed. Values that are lengths in millimetres are
/// carried as the decimal text they print as.
#[derive(Debug, Clone)]
pub enum PipelineError {
    UnknownPostProcessor(String),
    /// Op id, then the unknown tool id.
    UnknownTool(u32, u32),
    /// The op kind, by name.
    UnimplementedKind(String),
    TextRender(String),
    /// A two-sided job's front op cuts clean through the stock.
    TwoSidedThrough { op_id: u32, thickness_mm: String, removal_mm: String },
    Cancelled,
}

/// What a structured error holds, over views.
pub struct ErrorView {
    pub kind: crate::errors::ErrorKind,
    pub code: Option<crate::errors::ErrorCode>,
    pub params: Seq<(Seq<char>, Seq<char>)>,
    pub message: Seq<char>,
    pub hint: Option<Seq<char>>,
    pub auto_fix: Option<crate::errors::AutoFix>,
}

pub open spec fn error_view(e: crate::errors::Error) -> ErrorView {
    ErrorView {
        kind: e.kind,
        code: e.code,
        params: params_view(e.params@),
        message: e.message@,
        hint: crate::errors::opt_view(e.recovery_hint),
        auto_fix: e.auto_fix,
    }
}

pub open spec fn one_param(k: Seq<char>, v: Seq<char>) -> Seq<(Seq<char>, Seq<char>)> {
    insert_param(Seq::empty(), k, v)
}

/// The structured error a failure surfaces as; `None` for a cancellation,
/// which is no error. `first_tool_id` is the project's first library tool,
/// offered as the fix for an unknown tool.
pub open spec fn structured_spec(e: PipelineError, first_tool_id: Option<u32>) -> Option<ErrorView> {
    match e {
        PipelineError::Cancelled => None,
        PipelineError::UnknownPostProcessor(name) => Some(
            ErrorView {
                kind: crate::errors::ErrorKind::Misconfigured,
                code: Some(crate::errors::ErrorCode::UnknownPostProcessor),
                params: one_param("name"@, name@),
                message: "unknown post_processor: "@ + name@,
                hint: Some("Pick a known post: linuxcnc, grbl, or hpgl."@),
                auto_fix: None,
            },
        ),
        PipelineError::UnknownTool(op_id, tool_id) => Some(
            ErrorView {
                kind: crate::errors::ErrorKind::Misconfigured,
                code: Some(crate::errors::ErrorCode::MissingTool),
                params: insert_param(
                    one_param("op_id"@, dec(op_id as nat)),
                    "tool_id"@,
                    dec(tool_id as nat),
                ),
                message: "op "@ + dec(op_id as nat) + " references missing tool "@ + dec(
                    tool_id as nat,
                ),
                hint: Some("Pick a tool from the library."@),
                auto_fix: match first_tool_id {
                    Some(t) => Some(
                        crate::errors::AutoFix::AssignTool { op_id, suggested_tool_id: t },
                    ),
                    None => None,
                },
            },
        ),
        PipelineError::UnimplementedKind(kind) => Some(
            ErrorView {
                kind: crate::errors::ErrorKind::Unsupported,
                code: Some(crate::errors::ErrorCode::UnimplementedOpKind),
                params: one_param("kind"@, kind@),
                message: "operation kind "@ + kind@ + " is not implemented yet"@,
                hint: Some("This op kind is not available yet — disable it or pick another."@),
                auto_fix: None,
            },
        ),
        PipelineError::TextRender(msg) => Some(
            ErrorView {
                kind: crate::errors::ErrorKind::Misconfigured,
                code: Some(crate::errors::ErrorCode::TextRenderFailed),
                params: one_param("detail"@, msg@),
                message: "text render: "@ + msg@,
                hint: Some("Pick a different font or fix the text contents."@),
                auto_fix: None,
            },
        ),
        PipelineError::TwoSidedThrough { op_id, thickness_mm, removal_mm } => Some(
            ErrorView {
                kind: crate::errors::ErrorKind::Misconfigured,
                code: Some(crate::errors::ErrorCode::TwoSidedThrough),
                params: insert_param(
                    insert_param(one_param("op_id"@, dec(op_id as nat)), "thickness_mm"@, thickness_mm@),
                    "removal_mm"@,
                    removal_mm@,
                ),
                message: "two-sided job: operation #"@ + dec(op_id as nat) + " cuts clean through the "@
                    + thickness_mm@
                    + " mm stock from the front, so it can't be flipped and re-registered"@,
                hint: Some(
                    "Reduce the front op's depth below the stock thickness, add holding tabs, or move the through-cut to the back (last) side."@,
                ),
                auto_fix: None,
            },
        ),
    }
}

/// The text a failure displays as.
pub open spec fn pipeline_error_text(e: PipelineError) -> Seq<char> {
    match e {
        PipelineError::UnknownPostProcessor(name) => "unknown post_processor: "@ + name@,
        PipelineError::UnknownTool(op_id, tool_id) => "operation #"@ + dec(op_id as nat)
            + " references unknown tool id "@ + dec(tool_id as nat),
        PipelineError::UnimplementedKind(kind) => "operation kind "@ + kind@ + " is not implemented yet"@,
        PipelineError::TextRender(msg) => "text render failed: "@ + msg@,
        PipelineError::TwoSidedThrough { op_id, thickness_mm, removal_mm } => "two-sided job: operation #"@
            + dec(op_id as nat) + " removes "@ + removal_mm@ + " mm through "@ + thickness_mm@
            + " mm stock from the front, severing it before the flip"@,
        PipelineError::Cancelled => "pipeline cancelled"@,
    }
}

fn dec_text(n: u32) -> (s: String)
    ensures
        s@ == dec(n as nat),
{
    let mut s = String::new();
    crate::gcode::push_dec(&mut s, n);
    proof {
        assert(s@ =~= Seq::<char>::empty() + dec(n as nat));
    }
    s
}

impl PipelineError {
    /// The text the failure displays as (see [`pipeline_error_text`]).
    pub fn display_string(&self) -> (s: String)
        ensures
            s@ == pipeline_error_text(*self),
    {
        match self {
            PipelineError::UnknownPostProcessor(name) => {
                let mut s = crate::gcode::string_of("unknown post_processor: ");
                push_str(&mut s, name.as_str());
                s
            },
            PipelineError::UnknownTool(op_id, tool_id) => {
                let mut s = crate::gcode::string_of("operation #");
                crate::gcode::push_dec(&mut s, *op_id);
                push_str(&mut s, " references unknown tool id ");
                crate::gcode::push_dec(&mut s, *tool_id);
                s
            },
            PipelineError::UnimplementedKind(kind) => {
                let mut s = crate::gcode::string_of("operation kind ");
                push_str(&mut s, kind.as_str());
                push_str(&mut s, " is not implemented yet");
                s
            },
            PipelineError::TextRender(msg) => {
                let mut s = crate::gcode::string_of("text render failed: ");
                push_str(&mut s, msg.as_str());
                s
            },
            PipelineError::TwoSidedThrough { op_id, thickness_mm, removal_mm } => {
                let mut s = crate::gcode::string_of("two-sided job: operation #");
                crate::gcode::push_dec(&mut s, *op_id);
                push_str(&mut s, " removes ");
                push_str(&mut s, removal_mm.as_str());
                push_str(&mut s, " mm through ");
                push_str(&mut s, thickness_mm.as_str());
                push_str(&mut s, " mm stock from the front, severing it before the flip");
                s
            },
            PipelineError::Cancelled => crate::gcode::string_of("pipeline cancelled"),
        }
    }

    /// The structured error the failure surfaces as (see
    /// [`structured_spec`]); `first_tool_id` is the project's first library
    /// tool, when it has one.
    pub fn to_structured(&self, first_tool_id: Option<u32>) -> (r: Option<crate::errors::Error>)
        ensures
            match r {
                Some(e) => e.wf() && e.span is None && structured_spec(*self, first_tool_id) == Some(
                    error_view(e),
                ),
                None => structured_spec(*self, first_tool_id) is None,
            },
    {
        match self {
            PipelineError::Cancelled => None,
            PipelineError::UnknownPostProcessor(name) => {
                let mut m = crate::gcode::string_of("unknown post_processor: ");
                push_str(&mut m, name.as_str());
                let e = crate::errors::Error::misconfigured(m).with_code(
                    crate::errors::ErrorCode::UnknownPostProcessor,
                );
                proof {
                    assert(params_view(e.params@) =~= Seq::<(Seq<char>, Seq<char>)>::empty());
                }
                let e = e.with_param(crate::gcode::string_of("name"), name.clone());
                let e = e.with_hint(crate::gcode::string_of("Pick a known post: linuxcnc, grbl, or hpgl."));
                Some(e)
            },
            PipelineError::UnknownTool(op_id, tool_id) => {
                let mut m = crate::gcode::string_of("op ");
                crate::gcode::push_dec(&mut m, *op_id);
                push_str(&mut m, " references missing tool ");
                crate::gcode::push_dec(&mut m, *tool_id);
                let e = crate::errors::Error::misconfigured(m).with_code(
                    crate::errors::ErrorCode::MissingTool,
                );
                proof {
                    assert(params_view(e.params@) =~= Seq::<(Seq<char>, Seq<char>)>::empty());
                }
                let e = e.with_param(crate::gcode::string_of("op_id"), dec_text(*op_id));
                let e = e.with_param(crate::gcode::string_of("tool_id"), dec_text(*tool_id));
                let e = e.with_hint(crate::gcode::string_of("Pick a tool from the library."));
                let e = match first_tool_id {
                    Some(t) => e.with_auto_fix(
                        crate::errors::AutoFix::AssignTool { op_id: *op_id, suggested_tool_id: t },
                    ),
                    None => e,
                };
                Some(e)
            },
            PipelineError::UnimplementedKind(kind) => {
                let mut m = crate::gcode::string_of("operation kind ");
                push_str(&mut m, kind.as_str());
                push_str(&mut m, " is not implemented yet");
                let e = crate::errors::Error::unsupported(m).with_code(
                    crate::errors::ErrorCode::UnimplementedOpKind,
                );
                proof {
                    assert(params_view(e.params@) =~= Seq::<(Seq<char>, Seq<char>)>::empty());
                }
                let e = e.with_param(crate::gcode::string_of("kind"), kind.clone());
                let e = e.with_hint(
                    crate::gcode::string_of(
                        "This op kind is not available yet — disable it or pick another.",
                    ),
                );
                Some(e)
            },
            PipelineError::TextRender(msg) => {
                let mut m = crate::gcode::string_of("text render: ");
                push_str(&mut m, msg.as_str());
                let e = crate::errors::Error::misconfigured(m).with_code(
                    crate::errors::ErrorCode::TextRenderFailed,
                );
                proof {
                    assert(params_view(e.params@) =~= Seq::<(Seq<char>, Seq<char>)>::empty());
                }
                let e = e.with_param(crate::gcode::string_of("detail"), msg.clone());
                let e = e.with_hint(
                    crate::gcode::string_of("Pick a different font or fix the text contents."),
                );
                Some(e)
            },
            PipelineError::TwoSidedThrough { op_id, thickness_mm, removal_mm } => {
                let mut m = crate::gcode::string_of("two-sided job: operation #");
                crate::gcode::push_dec(&mut m, *op_id);
                push_str(&mut m, " cuts clean through the ");
                push_str(&mut m, thickness_mm.as_str());
                push_str(&mut m, " mm stock from the front, so it can't be flipped and re-registered");
                let e = crate::errors::Error::misconfigured(m).with_code(
                    crate::errors::ErrorCode::TwoSidedThrough,
                );
                proof {
                    assert(params_view(e.params@) =~= Seq::<(Seq<char>, Seq<char>)>::empty());
                }
                let e = e.with_param(crate::gcode::string_of("op_id"), dec_text(*op_id));
                let e = e.with_param(crate::gcode::string_of("thickness_mm"), thickness_mm.clone());
                let e = e.with_param(crate::gcode::string_of("removal_mm"), removal_mm.clone());
                let e = e.with_hint(
                    crate::gcode::string_of(
                        "Reduce the front op's depth below the stock thickness, add holding tabs, or move the through-cut to the back (last) side.",
                    ),
                );
                Some(e)
            },
        }
    }
}

// ----- Operations ----------------------------------------------------------

/// What the scheduler needs to know of an operation's kind.
#[derive(Debug, Clone, Copy, PartialEq, Eq, Structural)]
pub enum OpKind {
    Profile,
    Pocket,
    /// A drill op; `chamfer` when it chamfers the holes afterwards (a
    /// positive chamfer width).
    Drill { chamfer: bool },
    Pause,
    Homing,
    Probe,
    CycleMarker,
    GcodeInclude,
    /// Any other machining op.
    Other,
}

/// The scheduling view of an operation.
#[derive(Debug, Clone, Copy, PartialEq, Eq, Structural)]
pub struct Op {
    pub id: u32,
    pub enabled: bool,
    pub kind: OpKind,
    pub tool_id: u32,
    /// A second tool for the finishing pass, when the op has one.
    pub finish_tool_id: Option<u32>,
    /// Keep this op at its declared place when ops are grouped by tool.
    pub pin_order: bool,
}

/// Program-only ops carry no tool: pause, homing, probe, cycle marker and
/// g-code include.
pub open spec fn program_only(k: OpKind) -> bool {
    match k {
        OpKind::Pause | OpKind::Homing | OpKind::Probe | OpKind::CycleMarker
        | OpKind::GcodeInclude => true,
        _ => false,
    }
}

/// Ops whose kind runs the dual-tool path: pockets, and drills with a
/// chamfer.
pub open spec fn swap_capable(k: OpKind) -> bool {
    match k {
        OpKind::Pocket => true,
        OpKind::Drill { chamfer } => chamfer,
        _ => false,
    }
}

impl OpKind {
    pub fn is_program_only(self) -> (b: bool)
        ensures
            b == program_only(self),
    {
        match self {
            OpKind::Pause | OpKind::Homing | OpKind::Probe | OpKind::CycleMarker
            | OpKind::GcodeInclude => true,
            _ => false,
        }
    }
}

/// Whether the op's kind can emit an internal dual-tool swap.
pub fn op_can_emit_internal_swap(op: &Op) -> (b: bool)
    ensures
        b == swap_capable(op.kind),
{
    match op.kind {
        OpKind::Pocket => true,
        OpKind::Drill { chamfer } => chamfer,
        _ => false,
    }
}

/// Operator-readable label of a program-only op kind (`"op"` for any other
/// kind).
pub fn program_only_label(kind: OpKind) -> (s: &'static str)
    ensures
        s@ == match kind {
            OpKind::Pause => "pause"@,
            OpKind::Homing => "homing"@,
            OpKind::Probe => "probe"@,
            OpKind::CycleMarker => "cycle marker"@,
            OpKind::GcodeInclude => "gcode include"@,
            _ => "op"@,
        },
{
    match kind {
        OpKind::Pause => "pause",
        OpKind::Homing => "homing",
        OpKind::Probe => "probe",
        OpKind::CycleMarker => "cycle marker",
        OpKind::GcodeInclude => "gcode include",
        _ => "op",
    }
}

/// The tool in the spindle after `op`: its finish tool when the internal
/// swap to a distinct finish tool was emitted, else its tool.
pub open spec fn tool_after_op(op: Op, internal_swap_emitted: bool) -> u32 {
    match op.finish_tool_id {
        Some(f) => if internal_swap_emitted && f != op.tool_id {
            f
        } else {
            op.tool_id
        },
        None => op.tool_id,
    }
}

/// The tool in the spindle after `op` (see [`tool_after_op`]).
pub fn next_prev_tool_id(op: &Op, internal_swap_emitted: bool) -> (t: u32)
    ensures
        t == tool_after_op(*op, internal_swap_emitted),
{
    if internal_swap_emitted {
        if let Some(finish_id) = op.finish_tool_id {
            if finish_id != op.tool_id {
                return finish_id;
            }
        }
    }
    op.tool_id
}

// ----- Tool-change accounting -------------------------------------------------

/// One op of the tool-change walk over `(count, tool in the spindle)`:
/// disabled and program-only ops change nothing; a cutting op counts a
/// change when its tool is not loaded, and a dual-tool op counts the swap
/// to its distinct finish tool.
pub open spec fn tc_step(st: (nat, Option<u32>), op: Op) -> (nat, Option<u32>) {
    if !op.enabled || program_only(op.kind) {
        st
    } else {
        let after_load = if st.1 != Some(op.tool_id) {
            (st.0 + 1, Some(op.tool_id))
        } else {
            st
        };
        match op.finish_tool_id {
            Some(f) => if f != op.tool_id && swap_capable(op.kind) {
                (after_load.0 + 1, Some(f))
            } else {
                after_load
            },
            None => after_load,
        }
    }
}

pub open spec fn tc_walk(ops: Seq<Op>) -> (nat, Option<u32>)
    decreases ops.len(),
{
    if ops.len() == 0 {
        (0, None)
    } else {
        tc_step(tc_walk(ops.drop_last()), ops.last())
    }
}

/// The number of tool changes a program of `ops` makes.
pub open spec fn tool_changes(ops: Seq<Op>) -> nat {
    tc_walk(ops).0
}

proof fn lemma_tc_bound(ops: Seq<Op>)
    ensures
        tc_walk(ops).0 <= 2 * ops.len(),
    decreases ops.len(),
{
    if ops.len() > 0 {
        lemma_tc_bound(ops.drop_last());
    }
}

/// Count the tool changes of the op list (see [`tool_changes`]).
pub fn count_tool_changes(ops: &[Op]) -> (n: u32)
    requires
        ops.len() < 0x8000_0000,
    ensures
        n == tool_changes(ops@),
{
    let mut n: u32 = 0;
    let mut prev: Option<u32> = None;
    let mut i: usize = 0;
    proof {
        assert(ops@.take(0) =~= Seq::<Op>::empty());
    }
    while i < ops.len()
        invariant
            i <= ops.len() < 0x8000_0000,
            (n as nat, prev) == tc_walk(ops@.take(i as int)),
        decreases ops.len() - i,
    {
        let op = ops[i];
        proof {
            assert(ops@.take(i + 1).drop_last() =~= ops@.take(i as int));
            assert(ops@.take(i + 1).last() == op);
            lemma_tc_bound(ops@.take(i as int));
        }
        if op.enabled && !op.kind.is_program_only() {
            let loaded = match prev {
                Some(t) => t == op.tool_id,
                None => false,
            };
            if !loaded {
                n = n + 1;
                prev = Some(op.tool_id);
            }
            if let Some(finish_id) = op.finish_tool_id {
                if finish_id != op.tool_id && op_can_emit_internal_swap(&op) {
                    n = n + 1;
                    prev = Some(finish_id);
                }
            }
        }
        i = i + 1;
    }
    proof {
        assert(ops@.take(ops.len() as int) =~= ops@);
    }
    n
}

// ----- Spindle warm-up ------------------------------------------------------

/// The warm-up pause of `tool` in a tool library given as `(id, pause)`
/// pairs: the first entry with that id, or 0 when there is none.
pub open spec fn pause_of(pauses: Seq<(u32, u32)>, tool: u32) -> nat
    decreases pauses.len(),
{
    if pauses.len() == 0 {
        0
    } else if pauses[0].0 == tool {
        pauses[0].1 as nat
    } else {
        pause_of(pauses.drop_first(), tool)
    }
}

/// One op of the warm-up walk: `(seconds so far, tool loaded)`. Every load
/// of a tool adds its pause; a distinct finish tool is loaded after the
/// op's own.
pub open spec fn wu_step(st: (nat, Option<u32>), op: Op, pauses: Seq<(u32, u32)>) -> (nat, Option<u32>) {
    if !op.enabled || program_only(op.kind) {
        st
    } else {
        let after_load = if st.1 != Some(op.tool_id) {
            (st.0 + pause_of(pauses, op.tool_id), Some(op.tool_id))
        } else {
            st
        };
        match op.finish_tool_id {
            Some(f) => if f != op.tool_id {
                (after_load.0 + pause_of(pauses, f), Some(f))
            } else {
                after_load
            },
            None => after_load,
        }
    }
}

pub open spec fn wu_walk(ops: Seq<Op>, pauses: Seq<(u32, u32)>) -> (nat, Option<u32>)
    decreases ops.len(),
{
    if ops.len() == 0 {
        (0, None)
    } else {
        wu_step(wu_walk(ops.drop_last(), pauses), ops.last(), pauses)
    }
}

/// The spindle warm-up time of a program, in seconds.
pub open spec fn warmup_seconds(ops: Seq<Op>, pauses: Seq<(u32, u32)>) -> nat {
    wu_walk(ops, pauses).0
}

proof fn lemma_pause_of_bound(pauses: Seq<(u32, u32)>, tool: u32)
    ensures
        pause_of(pauses, tool) <= u32::MAX,
    decreases pauses.len(),
{
    if pauses.len() > 0 && pauses[0].0 != tool {
        lemma_pause_of_bound(pauses.drop_first(), tool);
    }
}

proof fn lemma_wu_bound(ops: Seq<Op>, pauses: Seq<(u32, u32)>)
    ensures
        wu_walk(ops, pauses).0 <= 2 * ops.len() * 0xFFFF_FFFF,
    decreases ops.len(),
{
    if ops.len() > 0 {
        lemma_wu_bound(ops.drop_last(), pauses);
        let op = ops.last();
        lemma_pause_of_bound(pauses, op.tool_id);
        match op.finish_tool_id {
            Some(f) => lemma_pause_of_bound(pauses, f),
            None => {},
        }
        assert(2 * ops.len() * 0xFFFF_FFFF == 2 * (ops.len() - 1) * 0xFFFF_FFFF + 2 * 0xFFFF_FFFF)
            by (nonlinear_arith);
    }
}

fn pause_for(tool_pauses: &[(u32, u32)], tool: u32) -> (p: u32)
    ensures
        p == pause_of(tool_pauses@, tool),
{
    let mut k: usize = 0;
    proof {
        assert(tool_pauses@.skip(0) =~= tool_pauses@);
    }
    while k < tool_pauses.len()
        invariant
            k <= tool_pauses.len(),
            pause_of(tool_pauses@, tool) == pause_of(tool_pauses@.skip(k as int), tool),
        decreases tool_pauses.len() - k,
    {
        proof {
            assert(tool_pauses@.skip(k as int).drop_first() =~= tool_pauses@.skip(k + 1));
        }
        if tool_pauses[k].0 == tool {
            return tool_pauses[k].1;
        }
        k = k + 1;
    }
    0
}

/// The spindle warm-up time of a program of `ops`, in seconds (see
/// [`warmup_seconds`]): the pause of every tool each time it is loaded,
/// `tool_pauses` giving each library tool's `(id, pause)`.
pub fn spindle_warmup_seconds(ops: &[Op], tool_pauses: &[(u32, u32)]) -> (s: u128)
    ensures
        s == warmup_seconds(ops@, tool_pauses@),
{
    let mut total: u128 = 0;
    let mut prev: Option<u32> = None;
    let mut i: usize = 0;
    proof {
        assert(ops@.take(0) =~= Seq::<Op>::empty());
    }
    while i < ops.len()
        invariant
            i <= ops.len(),
            (total as nat, prev) == wu_walk(ops@.take(i as int), tool_pauses@),
        decreases ops.len() - i,
    {
        let op = ops[i];
        proof {
            assert(ops@.take(i + 1).drop_last() =~= ops@.take(i as int));
            assert(ops@.take(i + 1).last() == op);
            lemma_wu_bound(ops@.take(i as int), tool_pauses@);
            assert(2 * i * 0xFFFF_FFFF <= 2 * 0xFFFF_FFFF_FFFF_FFFF * 0xFFFF_FFFF) by (nonlinear_arith)
                requires i <= 0xFFFF_FFFF_FFFF_FFFF;
        }
        if op.enabled && !op.kind.is_program_only() {
            let loaded = match prev {
                Some(t) => t == op.tool_id,
                None => false,
            };
            if !loaded {
                total = total + pause_for(tool_pauses, op.tool_id) as u128;
                prev = Some(op.tool_id);
            }
            if let Some(finish_id) = op.finish_tool_id {
                if finish_id != op.tool_id {
                    total = total + pause_for(tool_pauses, finish_id) as u128;
                    prev = Some(finish_id);
                }
            }
        }
        i = i + 1;
    }
    proof {
        assert(ops@.take(ops.len() as int) =~= ops@);
    }
    total
}

/// Law: warm-up accrues per tool change. When every tool the program
/// loads pauses `p` seconds, and no op names a distinct finish tool that
/// its kind cannot swap to, the warm-up is `p` times the number of tool
/// changes.
pub proof fn lemma_warmup_per_change(ops: Seq<Op>, pauses: Seq<(u32, u32)>, p: nat)
    requires
        forall|i: int|
            0 <= i < ops.len() && (#[trigger] ops[i]).enabled && !program_only(ops[i].kind) ==> {
                &&& pause_of(pauses, ops[i].tool_id) == p
                &&& match ops[i].finish_tool_id {
                    Some(f) => f != ops[i].tool_id ==> swap_capable(ops[i].kind) && pause_of(
                        pauses,
                        f,
                    ) == p,
                    None => true,
                }
            },
    ensures
        warmup_seconds(ops, pauses) == p * tool_changes(ops),
        wu_walk(ops, pauses).1 == tc_walk(ops).1,
    decreases ops.len(),
{
    if ops.len() > 0 {
        let d = ops.drop_last();
        assert forall|i: int|
            0 <= i < d.len() && (#[trigger] d[i]).enabled && !program_only(d[i].kind) implies {
                &&& pause_of(pauses, d[i].tool_id) == p
                &&& match d[i].finish_tool_id {
                    Some(f) => f != d[i].tool_id ==> swap_capable(d[i].kind) && pause_of(
                        pauses,
                        f,
                    ) == p,
                    None => true,
                }
            } by {
            assert(d[i] == ops[i]);
        }
        lemma_warmup_per_change(d, pauses, p);
        let op = ops.last();
        assert(op == ops[ops.len() - 1]);
        let w = wu_walk(d, pauses);
        let t = tc_walk(d);
        let n = t.0;
        assert(w.0 == p * n);
        assert(p * (n + 1) == p * n + p) by (nonlinear_arith);
        assert(p * (n + 2) == p * n + p + p) by (nonlinear_arith);
        if op.enabled && !program_only(op.kind) {
            let wl = if w.1 != Some(op.tool_id) {
                (w.0 + pause_of(pauses, op.tool_id), Some(op.tool_id))
            } else {
                w
            };
            let tl = if t.1 != Some(op.tool_id) {
                (t.0 + 1, Some(op.tool_id))
            } else {
                t
            };
            assert(wl.1 == tl.1);
            assert(wl.0 == p * tl.0);
            match op.finish_tool_id {
                Some(f) => {
                    if f != op.tool_id {
                        assert(swap_capable(op.kind));
                        assert(p * (tl.0 + 1) == p * tl.0 + p) by (nonlinear_arith);
                    }
                },
                None => {},
            }
        }
    } else {
        assert(p * 0 == 0) by (nonlinear_arith);
    }
}

/// The ops that take part in tool changes: enabled and not program-only.
pub open spec fn cutting_ops(ops: Seq<Op>) -> Seq<Op>
    decreases ops.len(),
{
    if ops.len() == 0 {
        Seq::empty()
    } else if ops.last().enabled && !program_only(ops.last().kind) {
        cutting_ops(ops.drop_last()).push(ops.last())
    } else {
        cutting_ops(ops.drop_last())
    }
}

/// Law: disabled and program-only ops neither cause nor break a tool
/// change — the count is that of the cutting ops alone.
pub proof fn lemma_tool_changes_ignore_non_cutting(ops: Seq<Op>)
    ensures
        tool_changes(ops) == tool_changes(cutting_ops(ops)),
    decreases ops.len(),
{
    lemma_tc_walk_cutting(ops);
}

proof fn lemma_tc_walk_cutting(ops: Seq<Op>)
    ensures
        tc_walk(ops) == tc_walk(cutting_ops(ops)),
    decreases ops.len(),
{
    if ops.len() > 0 {
        lemma_tc_walk_cutting(ops.drop_last());
        let c = cutting_ops(ops.drop_last());
        if ops.last().enabled && !program_only(ops.last().kind) {
            assert(c.push(ops.last()).drop_last() =~= c);
        }
    }
}

/// Law: each cutting op makes at most two changes (a load and a swap to
/// its finish tool), and the first cutting op always loads its tool.
pub proof fn lemma_tool_changes_bounds(ops: Seq<Op>)
    ensures
        tool_changes(ops) <= 2 * cutting_ops(ops).len(),
        cutting_ops(ops).len() > 0 ==> tool_changes(ops) >= 1,
{
    lemma_tc_walk_cutting(ops);
    lemma_tc_bound(cutting_ops(ops));
    if cutting_ops(ops).len() > 0 {
        lemma_cutting_ops_cut(ops);
        lemma_tc_positive(cutting_ops(ops));
    }
}

proof fn lemma_tc_positive(ops: Seq<Op>)
    requires
        ops.len() > 0,
        forall|i: int| 0 <= i < ops.len() ==> (#[trigger] ops[i]).enabled && !program_only(
            ops[i].kind,
        ),
    ensures
        tc_walk(ops).0 >= 1,
    decreases ops.len(),
{
    if ops.len() > 1 {
        lemma_tc_positive(ops.drop_last());
    } else {
        assert(ops.drop_last().len() == 0);
        assert(tc_walk(ops.drop_last()) == (0nat, None::<u32>));
        assert(ops.last() == ops[0]);
    }
}

proof fn lemma_cutting_ops_cut(ops: Seq<Op>)
    ensures
        forall|i: int| 0 <= i < cutting_ops(ops).len() ==> (#[trigger] cutting_ops(ops)[i]).enabled
            && !program_only(cutting_ops(ops)[i].kind),
    decreases ops.len(),
{
    if ops.len() > 0 {
        lemma_cutting_ops_cut(ops.drop_last());
    }
}

// ----- Grouping ops by tool ------------------------------------------------------

/// An op that keeps its declared slot when ops are grouped: pinned or
/// program-only.
pub open spec fn is_barrier(o: Op) -> bool {
    o.pin_order || program_only(o.kind)
}

/// The distinct tools of `run`, in first-seen order.
pub open spec fn first_seen_tools(run: Seq<Op>) -> Seq<u32>
    decreases run.len(),
{
    if run.len() == 0 {
        Seq::empty()
    } else {
        let t = first_seen_tools(run.drop_last());
        if t.contains(run.last().tool_id) {
            t
        } else {
            t.push(run.last().tool_id)
        }
    }
}

/// The ops of `run` that use tool `t`, in order.
pub open spec fn with_tool(run: Seq<Op>, t: u32) -> Seq<Op>
    decreases run.len(),
{
    if run.len() == 0 {
        Seq::empty()
    } else if run.last().tool_id == t {
        with_tool(run.drop_last(), t).push(run.last())
    } else {
        with_tool(run.drop_last(), t)
    }
}

/// The ops of `run` grouped by `tools`: all ops of the first tool, then all
/// of the second, … each group in its original order.
pub open spec fn group_by_tools(run: Seq<Op>, tools: Seq<u32>) -> Seq<Op>
    decreases tools.len(),
{
    if tools.len() == 0 {
        Seq::empty()
    } else {
        group_by_tools(run, tools.drop_last()) + with_tool(run, tools.last())
    }
}

/// A run of non-barrier ops, stably grouped by first-seen tool.
pub open spec fn grouped_run(run: Seq<Op>) -> Seq<Op> {
    group_by_tools(run, first_seen_tools(run))
}

/// The walk of the grouping reorder: the ops placed so far, and the
/// pending run of non-barrier ops since the last barrier.
pub open spec fn order_walk(ops: Seq<Op>) -> (Seq<Op>, Seq<Op>)
    decreases ops.len(),
{
    if ops.len() == 0 {
        (Seq::empty(), Seq::empty())
    } else {
        let (out, run) = order_walk(ops.drop_last());
        if is_barrier(ops.last()) {
            (out + grouped_run(run) + seq![ops.last()], Seq::empty())
        } else {
            (out, run.push(ops.last()))
        }
    }
}

/// The op order of a program: unchanged, or — when grouping by tool — each
/// maximal run of non-barrier ops between barriers grouped by first-seen
/// tool, barriers in their declared slots.
pub open spec fn ordered_ops(ops: Seq<Op>, group: bool) -> Seq<Op> {
    if !group {
        ops
    } else {
        order_walk(ops).0 + grouped_run(order_walk(ops).1)
    }
}

fn contains_u32(v: &Vec<u32>, x: u32) -> (b: bool)
    ensures
        b == v@.contains(x),
{
    let mut i: usize = 0;
    while i < v.len()
        invariant
            i <= v.len(),
            forall|j: int| 0 <= j < i ==> v@[j] != x,
        decreases v.len() - i,
    {
        if v[i] == x {
            return true;
        }
        i = i + 1;
    }
    false
}

/// Append `run` grouped by first-seen tool to `out`.
fn flush_grouped(run: &Vec<Op>, out: &mut Vec<Op>)
    ensures
        final(out)@ == old(out)@ + grouped_run(run@),
{
    let mut tools: Vec<u32> = Vec::new();
    let mut i: usize = 0;
    proof {
        assert(run@.take(0) =~= Seq::<Op>::empty());
    }
    while i < run.len()
        invariant
            i <= run.len(),
            tools@ == first_seen_tools(run@.take(i as int)),
        decreases run.len() - i,
    {
        proof {
            assert(run@.take(i + 1).drop_last() =~= run@.take(i as int));
            assert(run@.take(i + 1).last() == run@[i as int]);
        }
        let t = run[i].tool_id;
        if !contains_u32(&tools, t) {
            tools.push(t);
        }
        i = i + 1;
    }
    proof {
        assert(run@.take(run.len() as int) =~= run@);
    }
    let ghost o0 = out@;
    let mut k: usize = 0;
    proof {
        assert(tools@.take(0) =~= Seq::<u32>::empty());
        assert(o0 + group_by_tools(run@, tools@.take(0)) =~= o0);
    }
    while k < tools.len()
        invariant
            k <= tools.len(),
            out@ == o0 + group_by_tools(run@, tools@.take(k as int)),
        decreases tools.len() - k,
    {
        let t = tools[k];
        let ghost before = out@;
        let mut j: usize = 0;
        proof {
            assert(run@.take(0) =~= Seq::<Op>::empty());
            assert(before + with_tool(run@.take(0), t) =~= before);
        }
        while j < run.len()
            invariant
                j <= run.len(),
                out@ == before + with_tool(run@.take(j as int), t),
            decreases run.len() - j,
        {
            proof {
                assert(run@.take(j + 1).drop_last() =~= run@.take(j as int));
                assert(run@.take(j + 1).last() == run@[j as int]);
            }
            if run[j].tool_id == t {
                out.push(run[j]);
            }
            j = j + 1;
        }
        proof {
            assert(run@.take(run.len() as int) =~= run@);
            assert(tools@.take(k + 1).drop_last() =~= tools@.take(k as int));
            assert(tools@.take(k + 1).last() == t);
        }
        k = k + 1;
    }
    proof {
        assert(tools@.take(tools.len() as int) =~= tools@);
    }
}

/// Reorder ops to group same-tool work when `group` is set (see
/// [`ordered_ops`]): barriers — pinned and program-only ops — keep their
/// slots, and each run between them is stably grouped by first-seen tool.
pub fn order_ops_by_tool(ops: &[Op], group: bool) -> (r: Vec<Op>)
    ensures
        r@ == ordered_ops(ops@, group),
{
    if !group {
        let mut v: Vec<Op> = Vec::new();
        let mut i: usize = 0;
        while i < ops.len()
            invariant
                i <= ops.len(),
                v@ == ops@.take(i as int),
            decreases ops.len() - i,
        {
            v.push(ops[i]);
            i = i + 1;
            proof {
                assert(v@ =~= ops@.take(i as int));
            }
        }
        proof {
            assert(ops@.take(ops.len() as int) =~= ops@);
        }
        return v;
    }
    let mut out: Vec<Op> = Vec::new();
    let mut run: Vec<Op> = Vec::new();
    let mut i: usize = 0;
    proof {
        assert(ops@.take(0) =~= Seq::<Op>::empty());
    }
    while i < ops.len()
        invariant
            i <= ops.len(),
            (out@, run@) == order_walk(ops@.take(i as int)),
        decreases ops.len() - i,
    {
        let op = ops[i];
        proof {
            assert(ops@.take(i + 1).drop_last() =~= ops@.take(i as int));
            assert(ops@.take(i + 1).last() == op);
        }
        if op.pin_order || op.kind.is_program_only() {
            flush_grouped(&run, &mut out);
            out.push(op);
            run = Vec::new();
        } else {
            run.push(op);
        }
        i = i + 1;
    }
    proof {
        assert(ops@.take(ops.len() as int) =~= ops@);
    }
    flush_grouped(&run, &mut out);
    out
}

/// How often `x` occurs in `s`.
pub open spec fn count_op(s: Seq<Op>, x: Op) -> nat
    decreases s.len(),
{
    if s.len() == 0 {
        0
    } else {
        count_op(s.drop_last(), x) + if s.last() == x {
            1nat
        } else {
            0nat
        }
    }
}

proof fn lemma_count_concat(a: Seq<Op>, b: Seq<Op>, x: Op)
    ensures
        count_op(a + b, x) == count_op(a, x) + count_op(b, x),
    decreases b.len(),
{
    if b.len() > 0 {
        lemma_count_concat(a, b.drop_last(), x);
        assert((a + b).drop_last() =~= a + b.drop_last());
    } else {
        assert(a + b =~= a);
    }
}

proof fn lemma_count_with_tool(run: Seq<Op>, t: u32, x: Op)
    ensures
        count_op(with_tool(run, t), x) == (if x.tool_id == t {
            count_op(run, x)
        } else {
            0
        }),
    decreases run.len(),
{
    if run.len() > 0 {
        lemma_count_with_tool(run.drop_last(), t, x);
        let w = with_tool(run.drop_last(), t);
        if run.last().tool_id == t {
            assert(w.push(run.last()).drop_last() =~= w);
        }
    }
}

proof fn lemma_count_group(run: Seq<Op>, tools: Seq<u32>, x: Op)
    requires
        tools.no_duplicates(),
    ensures
        count_op(group_by_tools(run, tools), x) == (if tools.contains(x.tool_id) {
            count_op(run, x)
        } else {
            0
        }),
    decreases tools.len(),
{
    if tools.len() > 0 {
        let d = tools.drop_last();
        assert(d.no_duplicates());
        lemma_count_group(run, d, x);
        lemma_count_concat(group_by_tools(run, d), with_tool(run, tools.last()), x);
        lemma_count_with_tool(run, tools.last(), x);
        if d.contains(x.tool_id) {
            let i = choose|i: int| 0 <= i < d.len() && d[i] == x.tool_id;
            assert(tools[i] == d[i]);
            assert(tools.last() != x.tool_id);
            assert(tools.contains(x.tool_id));
        }
        if tools.contains(x.tool_id) && !d.contains(x.tool_id) {
            let i = choose|i: int| 0 <= i < tools.len() && tools[i] == x.tool_id;
            if i < tools.len() - 1 {
                assert(d[i] == tools[i]);
            }
        }
        if tools.last() == x.tool_id {
            assert(tools.contains(x.tool_id));
        }
    }
}

proof fn lemma_first_seen(run: Seq<Op>)
    ensures
        first_seen_tools(run).no_duplicates(),
        forall|i: int| 0 <= i < run.len() ==> first_seen_tools(run).contains(#[trigger] run[i].tool_id),
    decreases run.len(),
{
    if run.len() > 0 {
        let d = run.drop_last();
        lemma_first_seen(d);
        let t = first_seen_tools(d);
        assert forall|i: int| 0 <= i < run.len() implies first_seen_tools(run).contains(
            #[trigger] run[i].tool_id,
        ) by {
            if i < run.len() - 1 {
                assert(run[i] == d[i]);
                let k = choose|k: int| 0 <= k < t.len() && t[k] == d[i].tool_id;
                if !t.contains(run.last().tool_id) {
                    assert(t.push(run.last().tool_id)[k] == t[k]);
                }
            } else {
                if !t.contains(run.last().tool_id) {
                    assert(t.push(run.last().tool_id)[t.len() as int] == run.last().tool_id);
                }
            }
        }
    }
}

proof fn lemma_count_present(run: Seq<Op>, x: Op)
    ensures
        count_op(run, x) > 0 ==> exists|i: int| 0 <= i < run.len() && run[i] == x,
    decreases run.len(),
{
    if run.len() > 0 {
        lemma_count_present(run.drop_last(), x);
        if count_op(run.drop_last(), x) > 0 {
            let i = choose|i: int| 0 <= i < run.len() - 1 && run.drop_last()[i] == x;
            assert(run[i] == x);
        }
    }
}

/// Grouping a run only reorders it.
proof fn lemma_grouped_count(run: Seq<Op>, x: Op)
    ensures
        count_op(grouped_run(run), x) == count_op(run, x),
{
    lemma_first_seen(run);
    lemma_count_group(run, first_seen_tools(run), x);
    lemma_count_present(run, x);
    if count_op(run, x) > 0 {
        let i = choose|i: int| 0 <= i < run.len() && run[i] == x;
        assert(first_seen_tools(run).contains(run[i].tool_id));
    }
}

/// The ops of `run` whose tool is among `tools`.
spec fn in_tools(run: Seq<Op>, tools: Seq<u32>) -> nat
    decreases run.len(),
{
    if run.len() == 0 {
        0
    } else {
        in_tools(run.drop_last(), tools) + if tools.contains(run.last().tool_id) {
            1nat
        } else {
            0nat
        }
    }
}

proof fn lemma_in_tools_push(run: Seq<Op>, d: Seq<u32>, t: u32)
    requires
        !d.contains(t),
    ensures
        in_tools(run, d.push(t)) == in_tools(run, d) + with_tool(run, t).len(),
    decreases run.len(),
{
    if run.len() > 0 {
        lemma_in_tools_push(run.drop_last(), d, t);
        let v = run.last().tool_id;
        if d.contains(v) {
            let i = choose|i: int| 0 <= i < d.len() && d[i] == v;
            assert(d.push(t)[i] == v);
        }
        if v == t {
            assert(d.push(t)[d.len() as int] == t);
        }
        if d.push(t).contains(v) && !d.contains(v) {
            let i = choose|i: int| 0 <= i < d.len() + 1 && d.push(t)[i] == v;
            if i < d.len() {
                assert(d[i] == v);
            }
        }
    }
}

proof fn lemma_len_group(run: Seq<Op>, tools: Seq<u32>)
    requires
        tools.no_duplicates(),
    ensures
        group_by_tools(run, tools).len() == in_tools(run, tools),
    decreases tools.len(),
{
    if tools.len() > 0 {
        let d = tools.drop_last();
        assert(d.no_duplicates());
        lemma_len_group(run, d);
        if d.contains(tools.last()) {
            let i = choose|i: int| 0 <= i < d.len() && d[i] == tools.last();
            assert(tools[i] == tools[tools.len() - 1]);
        }
        lemma_in_tools_push(run, d, tools.last());
        assert(d.push(tools.last()) =~= tools);
    } else {
        lemma_in_tools_empty(run, tools);
    }
}

proof fn lemma_in_tools_empty(run: Seq<Op>, tools: Seq<u32>)
    requires
        tools.len() == 0,
    ensures
        in_tools(run, tools) == 0,
    decreases run.len(),
{
    if run.len() > 0 {
        lemma_in_tools_empty(run.drop_last(), tools);
    }
}

proof fn lemma_in_tools_all(run: Seq<Op>, tools: Seq<u32>)
    requires
        forall|i: int| 0 <= i < run.len() ==> tools.contains(#[trigger] run[i].tool_id),
    ensures
        in_tools(run, tools) == run.len(),
    decreases run.len(),
{
    if run.len() > 0 {
        let d = run.drop_last();
        assert forall|i: int| 0 <= i < d.len() implies tools.contains(#[trigger] d[i].tool_id) by {
            assert(d[i] == run[i]);
        }
        lemma_in_tools_all(d, tools);
        assert(tools.contains(run[run.len() - 1].tool_id));
    }
}

/// Grouping a run keeps its length.
proof fn lemma_grouped_len(run: Seq<Op>)
    ensures
        grouped_run(run).len() == run.len(),
{
    lemma_first_seen(run);
    lemma_len_group(run, first_seen_tools(run));
    lemma_in_tools_all(run, first_seen_tools(run));
}

proof fn lemma_count_single(o: Op, x: Op)
    ensures
        count_op(seq![o], x) == (if o == x { 1nat } else { 0nat }),
{
    let s = seq![o];
    assert(s.len() == 1);
    assert(s.last() == o);
    assert(s.drop_last() =~= Seq::<Op>::empty());
    assert(count_op(Seq::<Op>::empty(), x) == 0);
    assert(count_op(s, x) == count_op(s.drop_last(), x) + if o == x { 1nat } else { 0nat });
}

#[verifier::spinoff_prover]
#[verifier::rlimit(40)]
proof fn lemma_order_walk(ops: Seq<Op>, x: Op)
    ensures
        count_op(order_walk(ops).0, x) + count_op(order_walk(ops).1, x) == count_op(ops, x),
        order_walk(ops).0.len() + order_walk(ops).1.len() == ops.len(),
        forall|k: int|
            0 <= k < order_walk(ops).0.len() && is_barrier(#[trigger] ops[k]) ==> order_walk(
                ops,
            ).0[k] == ops[k],
        forall|j: int|
            0 <= j < order_walk(ops).1.len() ==> #[trigger] order_walk(ops).1[j] == ops[order_walk(
                ops,
            ).0.len() + j] && !is_barrier(order_walk(ops).1[j]),
    decreases ops.len(),
{
    if ops.len() > 0 {
        let d = ops.drop_last();
        lemma_order_walk(d, x);
        let (out, run) = order_walk(d);
        let o = ops.last();
        if is_barrier(o) {
            lemma_grouped_count(run, x);
            lemma_grouped_len(run);
            lemma_count_concat(out, grouped_run(run), x);
            lemma_count_concat(out + grouped_run(run), seq![o], x);
            lemma_count_single(o, x);
            let out2 = out + grouped_run(run) + seq![o];
            assert forall|k: int| 0 <= k < out2.len() && is_barrier(#[trigger] ops[k]) implies out2[k]
                == ops[k] by {
                if k < out.len() {
                    assert(ops[k] == d[k]);
                } else if k < out.len() + run.len() {
                    let j = k - out.len();
                    assert(run[j] == d[out.len() + j]);
                    assert(d[k] == ops[k]);
                } else {
                    assert(k == ops.len() - 1);
                }
            }
        } else {
            assert forall|k: int| 0 <= k < out.len() && is_barrier(#[trigger] ops[k]) implies out[k]
                == ops[k] by {
                assert(ops[k] == d[k]);
            }
            let run2 = run.push(o);
            assert forall|j: int| 0 <= j < run2.len() implies #[trigger] run2[j] == ops[out.len()
                + j] && !is_barrier(run2[j]) by {
                if j < run.len() {
                    assert(run2[j] == run[j]);
                    assert(d[out.len() + j] == ops[out.len() + j]);
                }
            }
            assert(run2.drop_last() =~= run);
        }
    }
}

/// Law: grouping ops by tool only reorders them — every op occurs in the
/// result exactly as often as in the input.
pub proof fn lemma_ordered_ops_permutes(ops: Seq<Op>, group: bool, x: Op)
    ensures
        count_op(ordered_ops(ops, group), x) == count_op(ops, x),
        ordered_ops(ops, group).len() == ops.len(),
{
    if group {
        lemma_order_walk(ops, x);
        let (out, run) = order_walk(ops);
        lemma_grouped_count(run, x);
        lemma_grouped_len(run);
        lemma_count_concat(out, grouped_run(run), x);
    }
}

/// Law: a barrier (a pinned or program-only op) keeps its declared slot
/// when ops are grouped by tool.
pub proof fn lemma_barriers_keep_slot(ops: Seq<Op>, group: bool, k: int)
    requires
        0 <= k < ops.len(),
        is_barrier(ops[k]),
    ensures
        ordered_ops(ops, group)[k] == ops[k],
{
    if group {
        let x = ops[k];
        lemma_order_walk(ops, x);
        let (out, run) = order_walk(ops);
        if k >= out.len() {
            let j = k - out.len();
            assert(run[j] == ops[out.len() + j]);
        }
    }
}


proof fn lemma_with_tool_add(a: Seq<Op>, b: Seq<Op>, t: u32)
    ensures
        with_tool(a + b, t) == with_tool(a, t) + with_tool(b, t),
    decreases b.len(),
{
    if b.len() == 0 {
        assert(a + b =~= a);
        assert(with_tool(a, t) + Seq::<Op>::empty() =~= with_tool(a, t));
    } else {
        assert((a + b).drop_last() =~= a + b.drop_last());
        assert((a + b).last() == b.last());
        lemma_with_tool_add(a, b.drop_last(), t);
        if b.last().tool_id == t {
            assert(with_tool(a, t) + with_tool(b.drop_last(), t).push(b.last()) =~= (with_tool(a, t)
                + with_tool(b.drop_last(), t)).push(b.last()));
        }
    }
}

proof fn lemma_with_tool_all(run: Seq<Op>, t: u32)
    ensures
        forall|i: int| 0 <= i < with_tool(run, t).len() ==> (#[trigger] with_tool(run, t)[i]).tool_id == t,
    decreases run.len(),
{
    if run.len() > 0 {
        lemma_with_tool_all(run.drop_last(), t);
    }
}

proof fn lemma_with_tool_twice(run: Seq<Op>, u: u32, t: u32)
    ensures
        with_tool(with_tool(run, u), t) == (if u == t {
            with_tool(run, t)
        } else {
            Seq::<Op>::empty()
        }),
    decreases run.len(),
{
    if run.len() > 0 {
        lemma_with_tool_twice(run.drop_last(), u, t);
        if run.last().tool_id == u {
            assert(with_tool(run, u).drop_last() =~= with_tool(run.drop_last(), u));
        }
    }
}

proof fn lemma_with_tool_none(run: Seq<Op>, t: u32)
    requires
        forall|i: int| 0 <= i < run.len() ==> (#[trigger] run[i]).tool_id != t,
    ensures
        with_tool(run, t) == Seq::<Op>::empty(),
    decreases run.len(),
{
    if run.len() > 0 {
        assert(run.last() == run[run.len() - 1]);
        assert forall|i: int| 0 <= i < run.drop_last().len() implies (#[trigger] run.drop_last()[i]).tool_id
            != t by {
            assert(run.drop_last()[i] == run[i]);
        }
        lemma_with_tool_none(run.drop_last(), t);
    }
}

proof fn lemma_group_tools(run: Seq<Op>, ts: Seq<u32>, t: u32)
    requires
        ts.no_duplicates(),
    ensures
        with_tool(group_by_tools(run, ts), t) == (if ts.contains(t) {
            with_tool(run, t)
        } else {
            Seq::<Op>::empty()
        }),
        forall|i: int|
            0 <= i < group_by_tools(run, ts).len() ==> ts.contains(
                (#[trigger] group_by_tools(run, ts)[i]).tool_id,
            ),
    decreases ts.len(),
{
    if ts.len() > 0 {
        let d = ts.drop_last();
        let l = ts.last();
        assert(d.no_duplicates());
        lemma_group_tools(run, d, t);
        let g = group_by_tools(run, d);
        lemma_with_tool_add(g, with_tool(run, l), t);
        lemma_with_tool_twice(run, l, t);
        lemma_with_tool_all(run, l);
        assert(ts =~= d.push(l));
        if ts.contains(t) {
            let k = choose|k: int| 0 <= k < ts.len() && ts[k] == t;
            if k < d.len() {
                assert(d[k] == t);
            }
        }
        if d.contains(t) {
            let k = choose|k: int| 0 <= k < d.len() && d[k] == t;
            assert(ts[k] == t);
        }
        if l == t {
            assert(ts[ts.len() - 1] == t);
        }
        assert(ts.contains(t) == (d.contains(t) || l == t));
        if l == t {
            assert(!d.contains(t));
            assert(with_tool(run, t) =~= Seq::<Op>::empty() + with_tool(run, t));
        } else if d.contains(t) {
            assert(with_tool(run, t) + Seq::<Op>::empty() =~= with_tool(run, t));
        } else {
            assert(Seq::<Op>::empty() + Seq::<Op>::empty() =~= Seq::<Op>::empty());
        }
        let full = g + with_tool(run, l);
        assert forall|i: int| 0 <= i < full.len() implies ts.contains((#[trigger] full[i]).tool_id) by {
            if i < g.len() {
                assert(full[i] == g[i]);
                assert(d.contains(g[i].tool_id));
                let k = choose|k: int| 0 <= k < d.len() && d[k] == g[i].tool_id;
                assert(ts[k] == d[k]);
            } else {
                assert(full[i] == with_tool(run, l)[i - g.len()]);
                assert(ts[ts.len() - 1] == l);
            }
        }
    } else {
        assert(with_tool(Seq::<Op>::empty(), t) == Seq::<Op>::empty());
    }
}

/// Law: grouping a run by tool is stable — the ops of any one tool come out
/// in the order they went in, none lost and none added.
pub proof fn lemma_grouping_is_stable(run: Seq<Op>, t: u32)
    ensures
        with_tool(grouped_run(run), t) == with_tool(run, t),
{
    lemma_first_seen(run);
    let ts = first_seen_tools(run);
    lemma_group_tools(run, ts, t);
    if !ts.contains(t) {
        assert forall|i: int| 0 <= i < run.len() implies (#[trigger] run[i]).tool_id != t by {
            assert(ts.contains(run[i].tool_id));
        }
        lemma_with_tool_none(run, t);
    }
}

proof fn lemma_group_contiguous(run: Seq<Op>, ts: Seq<u32>)
    requires
        ts.no_duplicates(),
    ensures
        ({
            let g = group_by_tools(run, ts);
            forall|i: int, j: int, k: int|
                0 <= i < j < k < g.len() && (#[trigger] g[i]).tool_id == (#[trigger] g[k]).tool_id
                    ==> (#[trigger] g[j]).tool_id == g[i].tool_id
        }),
    decreases ts.len(),
{
    if ts.len() > 0 {
        let d = ts.drop_last();
        let l = ts.last();
        assert(d.no_duplicates());
        lemma_group_contiguous(run, d);
        lemma_group_tools(run, d, l);
        lemma_with_tool_all(run, l);
        let g0 = group_by_tools(run, d);
        let w = with_tool(run, l);
        let g = g0 + w;
        assert(!d.contains(l));
        assert forall|i: int, j: int, k: int|
            0 <= i < j < k < g.len() && (#[trigger] g[i]).tool_id == (#[trigger] g[k]).tool_id implies (
            #[trigger] g[j]).tool_id == g[i].tool_id by {
            if k < g0.len() {
                assert(g[i] == g0[i] && g[j] == g0[j] && g[k] == g0[k]);
            } else if i >= g0.len() {
                assert(g[i] == w[i - g0.len()] && g[j] == w[j - g0.len()] && g[k] == w[k - g0.len()]);
            } else {
                assert(g[i] == g0[i]);
                assert(g[k] == w[k - g0.len()]);
                assert(d.contains(g0[i].tool_id));
                assert(false);
            }
        }
    }
}

/// Law: grouping a run by tool makes each tool's ops contiguous: between
/// two ops on the same tool there is no op on another tool.
pub proof fn lemma_grouping_is_contiguous(run: Seq<Op>)
    ensures
        ({
            let g = grouped_run(run);
            forall|i: int, j: int, k: int|
                0 <= i < j < k < g.len() && (#[trigger] g[i]).tool_id == (#[trigger] g[k]).tool_id
                    ==> (#[trigger] g[j]).tool_id == g[i].tool_id
        }),
{
    lemma_first_seen(run);
    lemma_group_contiguous(run, first_seen_tools(run));
}

} // verus!
