//! The tool-change envelope: the ordered steps that wrap every change of
//! tool (lift clear, stop coolant and spindle, change, re-establish the new
//! tool's Z, spin back up), the operator prompt shown before the pause, and
//! how the new tool's Z is re-established after the change.
//!
//! The plan is computed here from the machine's configuration and the new
//! tool; the caller carries it out against a post, supplying the lengths,
//! positions and dwell times that each step names.

use vstd::prelude::*;

use crate::chars::push_str;
use crate::gcode::{dec, push_dec, string_of, CoolantState, SpindleDirection};

verus! {

/// How the new tool's Z is re-established after a tool change.
#[derive(Debug, Clone, Copy, PartialEq, Eq, Structural)]
pub enum PostChangeZ {
    /// The tool's static Z shift (the legacy default).
    StaticShift,
    /// The operator touches off by hand during the pause.
    ManualTouchoff,
    /// A probe cycle against a touch plate.
    Probe,
    /// A probe cycle against a fixed tool sensor, differenced against the
    /// reference tool's baseline (`None`: the program's first tool).
    FixedSensor { reference_tool_id: Option<u32> },
}

/// Whether this change loads the fixed-sensor reference tool.
pub open spec fn is_sensor_reference(s: PostChangeZ, new_tool_id: u32, is_first_tool: bool) -> bool {
    match s {
        PostChangeZ::FixedSensor { reference_tool_id } => match reference_tool_id {
            Some(r) => r == new_tool_id,
            None => is_first_tool,
        },
        _ => false,
    }
}

/// Whether the change loads the fixed-sensor reference tool: the
/// configured reference, or the first tool when none is configured.
pub fn fixed_sensor_reference(s: PostChangeZ, new_tool_id: u32, is_first_tool: bool) -> (b: bool)
    ensures
        b == is_sensor_reference(s, new_tool_id, is_first_tool),
{
    match s {
        PostChangeZ::FixedSensor { reference_tool_id } => match reference_tool_id {
            Some(r) => r == new_tool_id,
            None => is_first_tool,
        },
        _ => false,
    }
}

/// Whether the change falls back to the static Z shift: the static
/// strategy, any non-mill machine, and the first tool unless it is the
/// fixed-sensor reference (which still probes its baseline).
pub fn uses_static_shift(s: PostChangeZ, is_mill: bool, new_tool_id: u32, is_first_tool: bool) -> (b: bool)
    ensures
        b == (s == PostChangeZ::StaticShift || !is_mill || (is_first_tool
            && !is_sensor_reference(s, new_tool_id, is_first_tool))),
{
    let static_strategy = match s {
        PostChangeZ::StaticShift => true,
        _ => false,
    };
    static_strategy || !is_mill || (is_first_tool && !fixed_sensor_reference(s, new_tool_id, is_first_tool))
}

pub open spec fn prompt_spec(s: PostChangeZ, new_tool_id: u32, is_first_tool: bool) -> Option<Seq<char>> {
    if is_first_tool {
        None
    } else {
        match s {
            PostChangeZ::ManualTouchoff => Some(
                "touch off: jog tool "@ + dec(new_tool_id as nat)
                    + " to the work surface and zero Z before resuming"@,
            ),
            PostChangeZ::FixedSensor { reference_tool_id: Some(r) } => if r == new_tool_id {
                Some(
                    "reference tool "@ + dec(new_tool_id as nat)
                        + ": touch off on the workpiece to set Z0 before resuming"@,
                )
            } else {
                None
            },
            _ => None,
        }
    }
}

/// The operator prompt that must precede the tool-change pause: a manual
/// touch-off instruction, or the reference tool's workpiece touch-off.
/// Never for the first tool, which the operator loads before the program.
pub fn post_change_z_prompt(s: PostChangeZ, new_tool_id: u32, is_first_tool: bool) -> (r: Option<String>)
    ensures
        match r {
            Some(t) => prompt_spec(s, new_tool_id, is_first_tool) == Some(t@),
            None => prompt_spec(s, new_tool_id, is_first_tool) is None,
        },
{
    if is_first_tool {
        return None;
    }
    match s {
        PostChangeZ::ManualTouchoff => {
            let mut t = string_of("touch off: jog tool ");
            push_dec(&mut t, new_tool_id);
            push_str(&mut t, " to the work surface and zero Z before resuming");
            Some(t)
        },
        PostChangeZ::FixedSensor { reference_tool_id: Some(r) } => {
            if r == new_tool_id {
                let mut t = string_of("reference tool ");
                push_dec(&mut t, new_tool_id);
                push_str(&mut t, ": touch off on the workpiece to set Z0 before resuming");
                Some(t)
            } else {
                None
            }
        },
        _ => None,
    }
}

// ----- The envelope ----------------------------------------------------------

/// How the machine changes tools.
#[derive(Debug, Clone, Copy, PartialEq, Eq, Structural)]
pub enum ToolChangeStrategy {
    /// An automatic changer: `T<n> M6`.
    Atc,
    /// The controller parks and prompts on `M6`.
    ManualM6Prompt,
    /// A program pause (`M0`/`M1`) while the operator swaps the bit.
    ManualM0Pause,
    /// No swap signal at all: the operator or sender owns the change.
    Ignore,
}

/// The machine configuration the envelope depends on.
#[derive(Debug, Clone, Copy, PartialEq, Eq, Structural)]
pub struct ToolChangeConfig {
    pub strategy: ToolChangeStrategy,
    pub post_change_z: PostChangeZ,
    /// A spindle machine (not a laser, drag knife or plotter).
    pub is_mill: bool,
    /// A tool-change station position is configured.
    pub has_change_station: bool,
    /// The controller's tool table supplies the length offset (`G43 H<n>`).
    pub use_tool_length_offsets: bool,
    /// Pause with the optional stop `M1` instead of `M0`.
    pub optional_stop: bool,
}

/// What the envelope needs of the new tool.
#[derive(Debug, Clone)]
pub struct EnvelopeTool {
    pub name: String,
    pub spindle_direction: SpindleDirection,
    /// The tool's library spindle speed.
    pub speed: u32,
    /// Warm-up pause after spin-up, in seconds.
    pub pause: u32,
    /// The tool carries a static Z shift.
    pub has_z_shift: bool,
}

/// One step of the envelope. `C` is the comment text: `String` in a plan,
/// its characters in the specification.
#[derive(Debug, Clone, PartialEq, Eq)]
pub enum ChangeStep<C> {
    /// Rapid to the program-wide safe Z.
    LiftToSafeZ,
    /// Rapid (machine coordinates) to the tool-change station.
    RapidToChangeStation,
    /// `M9`.
    CoolantOff,
    /// `M5`.
    SpindleOff,
    /// The machine's spindle-stop dwell, when it is positive.
    StopDwell,
    /// A comment line.
    Comment(C),
    /// A program pause: `M1` when `optional`, else `M0`.
    Pause { optional: bool },
    /// The post's tool change for the new tool.
    ToolChange,
    /// `G43 H<n>` for the new tool.
    ToolLengthOffset,
    /// The tool's static Z shift.
    StaticZShift,
    /// Probe the touch plate and pin work Z to its top.
    ProbePlate,
    /// Probe the fixed sensor: record the baseline for the reference tool,
    /// else apply the probed length.
    FixedSensorProbe { reference: bool },
    /// Forget feed, speed and spindle direction.
    ResetState,
    /// Spin up in `direction` at `rpm` (clamped to the machine's range by
    /// the caller).
    SpindleOn { direction: SpindleDirection, rpm: u32 },
    /// The machine's spindle-start dwell, when it is positive.
    StartDwell,
    /// The tool's warm-up pause.
    ToolPause { seconds: u32 },
}

pub open spec fn step_view(s: ChangeStep<String>) -> ChangeStep<Seq<char>> {
    match s {
        ChangeStep::LiftToSafeZ => ChangeStep::LiftToSafeZ,
        ChangeStep::RapidToChangeStation => ChangeStep::RapidToChangeStation,
        ChangeStep::CoolantOff => ChangeStep::CoolantOff,
        ChangeStep::SpindleOff => ChangeStep::SpindleOff,
        ChangeStep::StopDwell => ChangeStep::StopDwell,
        ChangeStep::Comment(c) => ChangeStep::Comment(c@),
        ChangeStep::Pause { optional } => ChangeStep::Pause { optional },
        ChangeStep::ToolChange => ChangeStep::ToolChange,
        ChangeStep::ToolLengthOffset => ChangeStep::ToolLengthOffset,
        ChangeStep::StaticZShift => ChangeStep::StaticZShift,
        ChangeStep::ProbePlate => ChangeStep::ProbePlate,
        ChangeStep::FixedSensorProbe { reference } => ChangeStep::FixedSensorProbe { reference },
        ChangeStep::ResetState => ChangeStep::ResetState,
        ChangeStep::SpindleOn { direction, rpm } => ChangeStep::SpindleOn { direction, rpm },
        ChangeStep::StartDwell => ChangeStep::StartDwell,
        ChangeStep::ToolPause { seconds } => ChangeStep::ToolPause { seconds },
    }
}

pub open spec fn steps_view(v: Seq<ChangeStep<String>>) -> Seq<ChangeStep<Seq<char>>> {
    v.map_values(|s: ChangeStep<String>| step_view(s))
}

pub open spec fn coolant_live(c: CoolantState) -> bool {
    c == CoolantState::Mist || c == CoolantState::Flood
}

/// The single step `s`.
pub open spec fn just(s: ChangeStep<Seq<char>>) -> Seq<ChangeStep<Seq<char>>> {
    seq![s]
}

/// No step at all.
pub open spec fn no_steps() -> Seq<ChangeStep<Seq<char>>> {
    Seq::empty()
}

/// Lift clear; then, unless this is the first tool: rapid to the change
/// station (when configured) and, on a mill, coolant off (when it is on)
/// and spindle off with its dwell.
pub open spec fn lead_in_spec(m: ToolChangeConfig, first: bool, coolant: CoolantState) -> Seq<
    ChangeStep<Seq<char>>,
> {
    just(ChangeStep::LiftToSafeZ) + (if !first && m.has_change_station {
        just(ChangeStep::RapidToChangeStation)
    } else {
        no_steps()
    }) + (if !first && m.is_mill && coolant_live(coolant) {
        just(ChangeStep::CoolantOff)
    } else {
        no_steps()
    }) + (if !first && m.is_mill {
        seq![ChangeStep::SpindleOff, ChangeStep::StopDwell]
    } else {
        no_steps()
    })
}

pub open spec fn park_text() -> Seq<char> {
    "manual tool change: the controller will park and prompt for the swap"@
}

pub open spec fn swap_text(id: u32, tool: Option<EnvelopeTool>) -> Seq<char> {
    match tool {
        Some(t) => "pause: swap to tool "@ + dec(id as nat) + " ("@ + t.name@ + ")"@,
        None => "pause: swap to tool "@ + dec(id as nat),
    }
}

pub open spec fn probe_plate_text(id: u32) -> Seq<char> {
    "post-change Z: probe touch plate (tool "@ + dec(id as nat) + ")"@
}

pub open spec fn sensor_text(id: u32, reference: bool) -> Seq<char> {
    if reference {
        "post-change Z: fixed sensor baseline (reference tool "@ + dec(id as nat) + ")"@
    } else {
        "post-change Z: fixed sensor (tool "@ + dec(id as nat) + ")"@
    }
}

/// The touch-off prompt, as a comment, when there is one.
pub open spec fn prompt_steps(s: PostChangeZ, id: u32, first: bool) -> Seq<ChangeStep<Seq<char>>> {
    match prompt_spec(s, id, first) {
        Some(t) => just(ChangeStep::Comment(t)),
        None => no_steps(),
    }
}

pub open spec fn static_fallback(m: ToolChangeConfig, id: u32, first: bool) -> bool {
    m.post_change_z == PostChangeZ::StaticShift || !m.is_mill || (first && !is_sensor_reference(
        m.post_change_z,
        id,
        first,
    ))
}

/// Re-establishing the new tool's Z after the change.
pub open spec fn post_change_z_steps(
    m: ToolChangeConfig,
    tool: Option<EnvelopeTool>,
    id: u32,
    first: bool,
) -> Seq<ChangeStep<Seq<char>>> {
    if static_fallback(m, id, first) {
        match tool {
            Some(t) => if t.has_z_shift {
                just(ChangeStep::StaticZShift)
            } else {
                no_steps()
            },
            None => no_steps(),
        }
    } else {
        match m.post_change_z {
            PostChangeZ::Probe => seq![
                ChangeStep::Comment(probe_plate_text(id)),
                ChangeStep::ProbePlate,
            ],
            PostChangeZ::FixedSensor { .. } => {
                let r = is_sensor_reference(m.post_change_z, id, first);
                seq![
                    ChangeStep::Comment(sensor_text(id, r)),
                    ChangeStep::FixedSensorProbe { reference: r },
                ]
            },
            _ => no_steps(),
        }
    }
}

/// Spinning up at the new tool's speed (or `target` when given), then the
/// machine's start dwell and the tool's warm-up pause. Only on a mill with
/// a known tool.
pub open spec fn spin_up_steps(m: ToolChangeConfig, tool: Option<EnvelopeTool>, target: Option<
    u32,
>) -> Seq<ChangeStep<Seq<char>>> {
    match tool {
        Some(t) => if m.is_mill {
            seq![
                ChangeStep::SpindleOn {
                    direction: t.spindle_direction,
                    rpm: match target {
                        Some(r) => r,
                        None => t.speed,
                    },
                },
                ChangeStep::StartDwell,
            ] + (if t.pause > 0 {
                just(ChangeStep::ToolPause { seconds: t.pause })
            } else {
                no_steps()
            })
        } else {
            no_steps()
        },
        None => no_steps(),
    }
}

/// The change itself, by strategy.
pub open spec fn change_body_spec(
    m: ToolChangeConfig,
    tool: Option<EnvelopeTool>,
    id: u32,
    first: bool,
    target: Option<u32>,
) -> Seq<ChangeStep<Seq<char>>> {
    match m.strategy {
        ToolChangeStrategy::Atc | ToolChangeStrategy::ManualM6Prompt => (if m.strategy
            == ToolChangeStrategy::ManualM6Prompt {
            just(ChangeStep::Comment(park_text()))
        } else {
            no_steps()
        }) + prompt_steps(m.post_change_z, id, first) + just(ChangeStep::ToolChange) + (
        if m.use_tool_length_offsets {
            just(ChangeStep::ToolLengthOffset)
        } else {
            post_change_z_steps(m, tool, id, first)
        }) + spin_up_steps(m, tool, target),
        ToolChangeStrategy::ManualM0Pause => just(ChangeStep::Comment(swap_text(id, tool)))
            + prompt_steps(m.post_change_z, id, first) + (if !first {
            just(ChangeStep::Pause { optional: m.optional_stop })
        } else {
            no_steps()
        }) + post_change_z_steps(m, tool, id, first) + (if m.is_mill && tool is Some {
            just(ChangeStep::ResetState) + spin_up_steps(m, tool, target)
        } else {
            no_steps()
        }),
        ToolChangeStrategy::Ignore => no_steps(),
    }
}

/// The whole envelope around a change to tool `id`.
pub open spec fn envelope_spec(
    m: ToolChangeConfig,
    tool: Option<EnvelopeTool>,
    id: u32,
    first: bool,
    target: Option<u32>,
    coolant: CoolantState,
) -> Seq<ChangeStep<Seq<char>>> {
    lead_in_spec(m, first, coolant) + change_body_spec(m, tool, id, first, target)
}

proof fn lemma_view_push(v: Seq<ChangeStep<String>>, s: ChangeStep<String>)
    ensures
        steps_view(v.push(s)) == steps_view(v).push(step_view(s)),
{
    assert(steps_view(v.push(s)) =~= steps_view(v).push(step_view(s)));
}

proof fn lemma_view_add(a: Seq<ChangeStep<String>>, b: Seq<ChangeStep<String>>)
    ensures
        steps_view(a + b) == steps_view(a) + steps_view(b),
{
    assert(steps_view(a + b) =~= steps_view(a) + steps_view(b));
}

fn push_step(v: &mut Vec<ChangeStep<String>>, s: ChangeStep<String>)
    ensures
        steps_view(final(v)@) == steps_view(old(v)@) + just(step_view(s)),
{
    let ghost v0 = v@;
    v.push(s);
    proof {
        lemma_view_push(v0, s);
        assert(steps_view(v0).push(step_view(s)) =~= steps_view(v0) + just(step_view(s)));
    }
}

fn append_steps(v: &mut Vec<ChangeStep<String>>, w: Vec<ChangeStep<String>>)
    ensures
        steps_view(final(v)@) == steps_view(old(v)@) + steps_view(w@),
{
    let ghost v0 = v@;
    let mut w = w;
    v.append(&mut w);
    proof {
        lemma_view_add(v0, w@);
    }
}

fn lead_in(m: ToolChangeConfig, first: bool, coolant: CoolantState) -> (v: Vec<ChangeStep<String>>)
    ensures
        steps_view(v@) == lead_in_spec(m, first, coolant),
{
    let mut v: Vec<ChangeStep<String>> = Vec::new();
    proof {
        assert(steps_view(v@) =~= no_steps());
    }
    push_step(&mut v, ChangeStep::LiftToSafeZ);
    let ghost a = steps_view(v@);
    if !first && m.has_change_station {
        push_step(&mut v, ChangeStep::RapidToChangeStation);
    } else {
        proof {
            assert(a + no_steps() =~= a);
        }
    }
    let ghost b = steps_view(v@);
    let live = match coolant {
        CoolantState::Mist | CoolantState::Flood => true,
        _ => false,
    };
    if !first && m.is_mill && live {
        push_step(&mut v, ChangeStep::CoolantOff);
    } else {
        proof {
            assert(b + no_steps() =~= b);
        }
    }
    let ghost c = steps_view(v@);
    if !first && m.is_mill {
        push_step(&mut v, ChangeStep::SpindleOff);
        push_step(&mut v, ChangeStep::StopDwell);
        proof {
            assert(c + just(ChangeStep::SpindleOff) + just(ChangeStep::StopDwell) =~= c + seq![
                ChangeStep::SpindleOff,
                ChangeStep::StopDwell,
            ]);
        }
    } else {
        proof {
            assert(c + no_steps() =~= c);
        }
    }
    v
}

fn comment_step(text: String) -> (s: ChangeStep<String>)
    ensures
        step_view(s) == ChangeStep::Comment(text@),
{
    ChangeStep::Comment(text)
}

fn swap_comment(id: u32, tool: &Option<EnvelopeTool>) -> (t: String)
    ensures
        t@ == swap_text(id, *tool),
{
    let mut t = string_of("pause: swap to tool ");
    push_dec(&mut t, id);
    match tool {
        Some(tl) => {
            push_str(&mut t, " (");
            push_str(&mut t, tl.name.as_str());
            push_str(&mut t, ")");
        },
        None => {},
    }
    t
}

fn tool_comment(prefix: &str, id: u32) -> (t: String)
    ensures
        t@ == prefix@ + dec(id as nat) + ")"@,
{
    let mut t = string_of(prefix);
    push_dec(&mut t, id);
    push_str(&mut t, ")");
    t
}

fn prompt_plan(s: PostChangeZ, id: u32, first: bool) -> (v: Vec<ChangeStep<String>>)
    ensures
        steps_view(v@) == prompt_steps(s, id, first),
{
    let mut v: Vec<ChangeStep<String>> = Vec::new();
    proof {
        assert(steps_view(v@) =~= no_steps());
    }
    match post_change_z_prompt(s, id, first) {
        Some(t) => {
            push_step(&mut v, comment_step(t));
            proof {
                assert(no_steps() + just(ChangeStep::Comment(t@)) =~= just(ChangeStep::Comment(t@)));
            }
        },
        None => {},
    }
    v
}

/// The steps that re-establish the new tool's Z after the change (see
/// [`post_change_z_steps`]).
pub fn post_change_z_plan(
    m: ToolChangeConfig,
    tool: &Option<EnvelopeTool>,
    id: u32,
    first: bool,
) -> (v: Vec<ChangeStep<String>>)
    ensures
        steps_view(v@) == post_change_z_steps(m, *tool, id, first),
{
    let mut v: Vec<ChangeStep<String>> = Vec::new();
    proof {
        assert(steps_view(v@) =~= no_steps());
    }
    if uses_static_shift(m.post_change_z, m.is_mill, id, first) {
        match tool {
            Some(t) => {
                if t.has_z_shift {
                    push_step(&mut v, ChangeStep::StaticZShift);
                    proof {
                        assert(no_steps() + just(ChangeStep::StaticZShift) =~= just(
                            ChangeStep::StaticZShift,
                        ));
                    }
                }
            },
            None => {},
        }
        return v;
    }
    match m.post_change_z {
        PostChangeZ::Probe => {
            let c = tool_comment("post-change Z: probe touch plate (tool ", id);
            push_step(&mut v, comment_step(c));
            push_step(&mut v, ChangeStep::ProbePlate);
            proof {
                assert(no_steps() + just(ChangeStep::Comment(c@)) + just(ChangeStep::ProbePlate) =~= seq![
                    ChangeStep::Comment(probe_plate_text(id)),
                    ChangeStep::ProbePlate,
                ]);
            }
        },
        PostChangeZ::FixedSensor { .. } => {
            let r = fixed_sensor_reference(m.post_change_z, id, first);
            let c = if r {
                tool_comment("post-change Z: fixed sensor baseline (reference tool ", id)
            } else {
                tool_comment("post-change Z: fixed sensor (tool ", id)
            };
            push_step(&mut v, comment_step(c));
            push_step(&mut v, ChangeStep::FixedSensorProbe { reference: r });
            proof {
                assert(no_steps() + just(ChangeStep::Comment(c@)) + just(
                    ChangeStep::FixedSensorProbe { reference: r },
                ) =~= seq![
                    ChangeStep::Comment(sensor_text(id, r)),
                    ChangeStep::FixedSensorProbe { reference: r },
                ]);
            }
        },
        _ => {},
    }
    v
}

fn spin_up(m: ToolChangeConfig, tool: &Option<EnvelopeTool>, target: Option<u32>) -> (v: Vec<
    ChangeStep<String>,
>)
    ensures
        steps_view(v@) == spin_up_steps(m, *tool, target),
{
    let mut v: Vec<ChangeStep<String>> = Vec::new();
    proof {
        assert(steps_view(v@) =~= no_steps());
    }
    match tool {
        Some(t) => {
            if m.is_mill {
                let rpm = match target {
                    Some(r) => r,
                    None => t.speed,
                };
                push_step(&mut v, ChangeStep::SpindleOn { direction: t.spindle_direction, rpm });
                push_step(&mut v, ChangeStep::StartDwell);
                let ghost a = steps_view(v@);
                proof {
                    assert(a =~= seq![
                        ChangeStep::SpindleOn { direction: t.spindle_direction, rpm },
                        ChangeStep::StartDwell,
                    ]);
                }
                if t.pause > 0 {
                    push_step(&mut v, ChangeStep::ToolPause { seconds: t.pause });
                } else {
                    proof {
                        assert(a + no_steps() =~= a);
                    }
                }
            }
        },
        None => {},
    }
    v
}

fn m6_body(
    m: ToolChangeConfig,
    tool: &Option<EnvelopeTool>,
    id: u32,
    first: bool,
    target: Option<u32>,
) -> (v: Vec<ChangeStep<String>>)
    requires
        m.strategy == ToolChangeStrategy::Atc || m.strategy == ToolChangeStrategy::ManualM6Prompt,
    ensures
        steps_view(v@) == change_body_spec(m, *tool, id, first, target),
{
    let mut v: Vec<ChangeStep<String>> = Vec::new();
    proof {
        assert(steps_view(v@) =~= no_steps());
    }
    let ghost park = if m.strategy == ToolChangeStrategy::ManualM6Prompt {
        just(ChangeStep::Comment(park_text()))
    } else {
        no_steps()
    };
    let is_prompt = match m.strategy {
        ToolChangeStrategy::ManualM6Prompt => true,
        _ => false,
    };
    if is_prompt {
        push_step(
            &mut v,
            comment_step(
                string_of("manual tool change: the controller will park and prompt for the swap"),
            ),
        );
        proof {
            assert(no_steps() + park =~= park);
        }
    }
    append_steps(&mut v, prompt_plan(m.post_change_z, id, first));
    push_step(&mut v, ChangeStep::ToolChange);
    let ghost a = steps_view(v@);
    proof {
        assert(a == park + prompt_steps(m.post_change_z, id, first) + just(ChangeStep::ToolChange));
    }
    let ghost z = if m.use_tool_length_offsets {
        just(ChangeStep::ToolLengthOffset)
    } else {
        post_change_z_steps(m, *tool, id, first)
    };
    if m.use_tool_length_offsets {
        push_step(&mut v, ChangeStep::ToolLengthOffset);
    } else {
        append_steps(&mut v, post_change_z_plan(m, tool, id, first));
    }
    append_steps(&mut v, spin_up(m, tool, target));
    proof {
        assert(steps_view(v@) == a + z + spin_up_steps(m, *tool, target));
    }
    v
}

fn m0_body(
    m: ToolChangeConfig,
    tool: &Option<EnvelopeTool>,
    id: u32,
    first: bool,
    target: Option<u32>,
) -> (v: Vec<ChangeStep<String>>)
    requires
        m.strategy == ToolChangeStrategy::ManualM0Pause,
    ensures
        steps_view(v@) == change_body_spec(m, *tool, id, first, target),
{
    let mut v: Vec<ChangeStep<String>> = Vec::new();
    proof {
        assert(steps_view(v@) =~= no_steps());
    }
    let sc = swap_comment(id, tool);
    push_step(&mut v, comment_step(sc));
    append_steps(&mut v, prompt_plan(m.post_change_z, id, first));
    let ghost b = steps_view(v@);
    proof {
        assert(b =~= just(ChangeStep::Comment(swap_text(id, *tool))) + prompt_steps(
            m.post_change_z,
            id,
            first,
        ));
    }
    let ghost pause = if !first {
        just(ChangeStep::Pause { optional: m.optional_stop })
    } else {
        no_steps()
    };
    if !first {
        push_step(&mut v, ChangeStep::Pause { optional: m.optional_stop });
    } else {
        proof {
            assert(b + no_steps() =~= b);
        }
    }
    append_steps(&mut v, post_change_z_plan(m, tool, id, first));
    let ghost c = steps_view(v@);
    proof {
        assert(c == b + pause + post_change_z_steps(m, *tool, id, first));
    }
    let ghost tail = if m.is_mill && tool is Some {
        just(ChangeStep::ResetState) + spin_up_steps(m, *tool, target)
    } else {
        no_steps()
    };
    if m.is_mill && tool.is_some() {
        push_step(&mut v, ChangeStep::ResetState);
        append_steps(&mut v, spin_up(m, tool, target));
        proof {
            assert(steps_view(v@) =~= c + tail);
        }
    } else {
        proof {
            assert(c + no_steps() =~= c);
        }
    }
    v
}

/// The steps of the envelope around a change to tool `new_tool_id` (see
/// [`envelope_spec`]). `coolant` is the coolant state the post last
/// commanded; `target_speed` overrides the tool's library speed for the
/// spin-up when the first cut after the change runs at another speed.
pub fn toolchange_envelope(
    m: ToolChangeConfig,
    new_tool: &Option<EnvelopeTool>,
    new_tool_id: u32,
    is_first_tool: bool,
    target_speed: Option<u32>,
    coolant: CoolantState,
) -> (v: Vec<ChangeStep<String>>)
    ensures
        steps_view(v@) == envelope_spec(
            m,
            *new_tool,
            new_tool_id,
            is_first_tool,
            target_speed,
            coolant,
        ),
{
    let mut v = lead_in(m, is_first_tool, coolant);
    let body = match m.strategy {
        ToolChangeStrategy::Atc | ToolChangeStrategy::ManualM6Prompt => m6_body(
            m,
            new_tool,
            new_tool_id,
            is_first_tool,
            target_speed,
        ),
        ToolChangeStrategy::ManualM0Pause => m0_body(
            m,
            new_tool,
            new_tool_id,
            is_first_tool,
            target_speed,
        ),
        ToolChangeStrategy::Ignore => {
            let e: Vec<ChangeStep<String>> = Vec::new();
            proof {
                assert(steps_view(e@) =~= no_steps());
            }
            e
        },
    };
    append_steps(&mut v, body);
    v
}


// ----- At an op boundary -----------------------------------------------------

impl ToolChangeStrategy {
    /// Whether the strategy signals the change with `M6`.
    pub open spec fn signals_m6(self) -> bool {
        self == ToolChangeStrategy::Atc || self == ToolChangeStrategy::ManualM6Prompt
    }

    /// Whether the strategy signals the change with `M6` (the automatic
    /// changer and the controller's park-and-prompt).
    pub fn emits_m6(self) -> (b: bool)
        ensures
            b == self.signals_m6(),
    {
        match self {
            ToolChangeStrategy::Atc | ToolChangeStrategy::ManualM6Prompt => true,
            _ => false,
        }
    }
}

pub open spec fn boundary_comment_text(tool_id: u32, tool_name: Seq<char>, op_id: u32, op_name: Seq<char>) -> Seq<char> {
    "toolchange: T"@ + dec(tool_id as nat) + " ("@ + tool_name + ") for op "@ + dec(op_id as nat)
        + " ("@ + op_name + ")"@
}

/// At the boundary before an op on tool `tool_id` (`tool`: its library
/// entry, when known), after ops on `prev_tool_id`: the tool in use
/// afterwards, and the steps to emit. Nothing is emitted when the tool does
/// not change or is unknown; otherwise an `M6` machine first gets a comment
/// naming the tool and the op, then the envelope (the spin-up at the tool's
/// library speed).
pub open spec fn boundary_spec(
    m: ToolChangeConfig,
    prev_tool_id: Option<u32>,
    op_id: u32,
    op_name: Seq<char>,
    tool_id: u32,
    tool: Option<EnvelopeTool>,
    coolant: CoolantState,
) -> (Option<u32>, Seq<ChangeStep<Seq<char>>>) {
    if prev_tool_id == Some(tool_id) {
        (prev_tool_id, no_steps())
    } else {
        match tool {
            Some(t) => (
                Some(tool_id),
                (if m.strategy.signals_m6() {
                    just(ChangeStep::Comment(boundary_comment_text(tool_id, t.name@, op_id, op_name)))
                } else {
                    no_steps()
                }) + envelope_spec(m, tool, tool_id, prev_tool_id is None, None, coolant),
            ),
            None => (Some(tool_id), no_steps()),
        }
    }
}

/// The tool-change decision at an op boundary (see [`boundary_spec`]).
pub fn boundary_toolchange(
    m: ToolChangeConfig,
    prev_tool_id: Option<u32>,
    op_id: u32,
    op_name: &str,
    tool_id: u32,
    tool: &Option<EnvelopeTool>,
    coolant: CoolantState,
) -> (r: (Option<u32>, Vec<ChangeStep<String>>))
    ensures
        r.0 == boundary_spec(m, prev_tool_id, op_id, op_name@, tool_id, *tool, coolant).0,
        steps_view(r.1@) == boundary_spec(m, prev_tool_id, op_id, op_name@, tool_id, *tool, coolant).1,
{
    let mut v: Vec<ChangeStep<String>> = Vec::new();
    proof {
        assert(steps_view(v@) =~= no_steps());
    }
    if prev_tool_id == Some(tool_id) {
        return (prev_tool_id, v);
    }
    match tool {
        Some(t) => {
            if m.strategy.emits_m6() {
                let mut c = string_of("toolchange: T");
                push_dec(&mut c, tool_id);
                push_str(&mut c, " (");
                push_str(&mut c, t.name.as_str());
                push_str(&mut c, ") for op ");
                push_dec(&mut c, op_id);
                push_str(&mut c, " (");
                push_str(&mut c, op_name);
                push_str(&mut c, ")");
                push_step(&mut v, comment_step(c));
                proof {
                    assert(no_steps() + just(ChangeStep::Comment(c@)) =~= just(ChangeStep::Comment(c@)));
                }
            }
            let first = prev_tool_id.is_none();
            append_steps(&mut v, toolchange_envelope(m, tool, tool_id, first, None, coolant));
            (Some(tool_id), v)
        },
        None => (Some(tool_id), v),
    }
}

// ----- Laws of the envelope --------------------------------------------------

/// No step of `s` satisfies `p`.
pub open spec fn none_of(s: Seq<ChangeStep<Seq<char>>>, p: spec_fn(ChangeStep<Seq<char>>) -> bool) -> bool {
    forall|j: int| 0 <= j < s.len() ==> !p(#[trigger] s[j])
}

proof fn lemma_none_of_add(
    a: Seq<ChangeStep<Seq<char>>>,
    b: Seq<ChangeStep<Seq<char>>>,
    p: spec_fn(ChangeStep<Seq<char>>) -> bool,
)
    requires
        none_of(a, p),
        none_of(b, p),
    ensures
        none_of(a + b, p),
{
    assert forall|j: int| 0 <= j < (a + b).len() implies !p(#[trigger] (a + b)[j]) by {
        if j < a.len() {
            assert((a + b)[j] == a[j]);
        } else {
            assert((a + b)[j] == b[j - a.len()]);
        }
    }
}

/// A step that swaps the tool or spins the spindle up.
pub open spec fn swaps_or_spins(s: ChangeStep<Seq<char>>) -> bool {
    s is ToolChange || s is Pause || s is SpindleOn
}

/// A step of the lead-in.
pub open spec fn lead_step(s: ChangeStep<Seq<char>>) -> bool {
    s is LiftToSafeZ || s is RapidToChangeStation || s is CoolantOff || s is SpindleOff
        || s is StopDwell
}

proof fn lemma_lead_in_shape(m: ToolChangeConfig, first: bool, coolant: CoolantState)
    ensures
        ({
            let l = lead_in_spec(m, first, coolant);
            &&& l.len() >= 1
            &&& l[0] == ChangeStep::<Seq<char>>::LiftToSafeZ
            &&& forall|j: int| 0 <= j < l.len() ==> lead_step(#[trigger] l[j])
            &&& (!first && m.is_mill) ==> l.len() >= 3 && l[l.len() - 2]
                == ChangeStep::<Seq<char>>::SpindleOff
            &&& (!first && m.is_mill && coolant_live(coolant)) ==> l.len() >= 4 && l[l.len() - 3]
                == ChangeStep::<Seq<char>>::CoolantOff
            &&& first ==> l == just(ChangeStep::LiftToSafeZ)
            &&& !m.is_mill ==> forall|j: int|
                0 <= j < l.len() ==> (#[trigger] l[j] is LiftToSafeZ || l[j] is RapidToChangeStation)
        }),
{
    let l = lead_in_spec(m, first, coolant);
    let a = just(ChangeStep::<Seq<char>>::LiftToSafeZ);
    let b = if !first && m.has_change_station {
        just(ChangeStep::RapidToChangeStation)
    } else {
        no_steps()
    };
    let c = if !first && m.is_mill && coolant_live(coolant) {
        just(ChangeStep::CoolantOff)
    } else {
        no_steps()
    };
    let d = if !first && m.is_mill {
        seq![ChangeStep::SpindleOff, ChangeStep::StopDwell]
    } else {
        no_steps()
    };
    assert(l == a + b + c + d);
    assert forall|j: int| 0 <= j < l.len() implies lead_step(#[trigger] l[j]) && (!m.is_mill ==> (
    l[j] is LiftToSafeZ || l[j] is RapidToChangeStation)) by {
        let ab = a + b;
        let abc = ab + c;
        if j < ab.len() {
            if j < a.len() {
                assert(ab[j] == a[j]);
            } else {
                assert(ab[j] == b[j - a.len()]);
            }
            assert(abc[j] == ab[j]);
            assert(l[j] == abc[j]);
        } else if j < abc.len() {
            assert(abc[j] == c[j - ab.len()]);
            assert(l[j] == abc[j]);
        } else {
            assert(l[j] == d[j - abc.len()]);
        }
    }
    if first {
        assert(l =~= a);
    }
    if !first && m.is_mill {
        assert(l[l.len() - 2] == d[0]);
        if coolant_live(coolant) {
            assert(l[l.len() - 3] == (a + b + c)[(a + b + c).len() - 1]);
        }
    }
}

proof fn lemma_change_body_tail(
    m: ToolChangeConfig,
    tool: Option<EnvelopeTool>,
    id: u32,
    first: bool,
    target: Option<u32>,
)
    ensures
        ({
            let b = change_body_spec(m, tool, id, first, target);
            forall|j: int|
                0 <= j < b.len() && #[trigger] b[j] is SpindleOn ==> m.is_mill && tool is Some
                    && b[j] == ChangeStep::<Seq<char>>::SpindleOn {
                    direction: tool->0.spindle_direction,
                    rpm: match target {
                        Some(r) => r,
                        None => tool->0.speed,
                    },
                } && forall|i: int| 0 <= i < b.len() && (#[trigger] b[i] is ToolChange || b[i] is Pause) ==> i < j
        }),
{
    let b = change_body_spec(m, tool, id, first, target);
    let su = spin_up_steps(m, tool, target);
    let ps = prompt_steps(m.post_change_z, id, first);
    let pz = post_change_z_steps(m, tool, id, first);
    let spun = |s: ChangeStep<Seq<char>>| s is SpindleOn;
    let swap = |s: ChangeStep<Seq<char>>| s is ToolChange || s is Pause;
    // The segments before the spin-up hold no spin-up; the spin-up holds no
    // swap; the spin-up's only `SpindleOn` is its first step.
    assert(none_of(ps, spun) && none_of(ps, swap));
    assert(none_of(pz, spun) && none_of(pz, swap));
    assert(none_of(su, swap));
    assert forall|j: int| 0 <= j < su.len() && (#[trigger] su[j]) is SpindleOn implies j == 0 && m.is_mill
        && tool is Some && su[j] == ChangeStep::<Seq<char>>::SpindleOn {
        direction: tool->0.spindle_direction,
        rpm: match target {
            Some(r) => r,
            None => tool->0.speed,
        },
    } by {
        match tool {
            Some(t) => {
                if m.is_mill {
                    let two = seq![
                        ChangeStep::<Seq<char>>::SpindleOn {
                            direction: t.spindle_direction,
                            rpm: match target {
                                Some(r) => r,
                                None => t.speed,
                            },
                        },
                        ChangeStep::StartDwell,
                    ];
                    let rest = if t.pause > 0 {
                        just(ChangeStep::ToolPause { seconds: t.pause })
                    } else {
                        no_steps()
                    };
                    if j >= 2 {
                        assert(su[j] == rest[j - 2]);
                    } else {
                        assert(su[j] == two[j]);
                    }
                }
            },
            None => {},
        }
    }
    match m.strategy {
        ToolChangeStrategy::Atc | ToolChangeStrategy::ManualM6Prompt => {
            let park = if m.strategy == ToolChangeStrategy::ManualM6Prompt {
                just(ChangeStep::Comment(park_text()))
            } else {
                no_steps()
            };
            let z = if m.use_tool_length_offsets {
                just(ChangeStep::ToolLengthOffset)
            } else {
                pz
            };
            assert(none_of(park, spun));
            assert(none_of(z, spun) && none_of(z, swap));
            let head = park + ps + just(ChangeStep::ToolChange) + z;
            lemma_none_of_add(park, ps, spun);
            lemma_none_of_add(park + ps, just(ChangeStep::ToolChange), spun);
            lemma_none_of_add(park + ps + just(ChangeStep::ToolChange), z, spun);
            assert(b == head + su);
            assert forall|j: int|
                0 <= j < b.len() && #[trigger] b[j] is SpindleOn implies m.is_mill && tool is Some
                    && b[j] == ChangeStep::<Seq<char>>::SpindleOn {
                    direction: tool->0.spindle_direction,
                    rpm: match target {
                        Some(r) => r,
                        None => tool->0.speed,
                    },
                } && forall|i: int| 0 <= i < b.len() && (#[trigger] b[i] is ToolChange || b[i] is Pause) ==> i < j by {
                if j < head.len() {
                    assert(b[j] == head[j]);
                    assert(!spun(head[j]));
                } else {
                    assert(b[j] == su[j - head.len()]);
                    assert forall|i: int| 0 <= i < b.len() && (#[trigger] b[i] is ToolChange || b[i] is Pause) implies i < j by {
                        if i >= head.len() {
                            assert(b[i] == su[i - head.len()]);
                            assert(!swap(su[i - head.len()]));
                        }
                    }
                }
            }
        },
        ToolChangeStrategy::ManualM0Pause => {
            let cm = just(ChangeStep::Comment(swap_text(id, tool)));
            let pause = if !first {
                just(ChangeStep::Pause { optional: m.optional_stop })
            } else {
                no_steps()
            };
            let tail = if m.is_mill && tool is Some {
                just(ChangeStep::ResetState) + su
            } else {
                no_steps()
            };
            assert(none_of(cm, spun));
            assert(none_of(pause, spun));
            let head = cm + ps + pause + pz;
            lemma_none_of_add(cm, ps, spun);
            lemma_none_of_add(cm + ps, pause, spun);
            lemma_none_of_add(cm + ps + pause, pz, spun);
            assert(b == head + tail);
            assert forall|j: int|
                0 <= j < b.len() && #[trigger] b[j] is SpindleOn implies m.is_mill && tool is Some
                    && b[j] == ChangeStep::<Seq<char>>::SpindleOn {
                    direction: tool->0.spindle_direction,
                    rpm: match target {
                        Some(r) => r,
                        None => tool->0.speed,
                    },
                } && forall|i: int| 0 <= i < b.len() && (#[trigger] b[i] is ToolChange || b[i] is Pause) ==> i < j by {
                if j < head.len() {
                    assert(b[j] == head[j]);
                    assert(!spun(head[j]));
                } else {
                    assert(b[j] == tail[j - head.len()]);
                    assert(m.is_mill && tool is Some);
                    assert(tail[j - head.len()] == su[j - head.len() - 1]);
                    assert forall|i: int| 0 <= i < b.len() && (#[trigger] b[i] is ToolChange || b[i] is Pause) implies i < j by {
                        if i >= head.len() {
                            assert(b[i] == tail[i - head.len()]);
                            if i > head.len() {
                                assert(tail[i - head.len()] == su[i - head.len() - 1]);
                                assert(!swap(su[i - head.len() - 1]));
                            }
                        }
                    }
                }
            }
        },
        ToolChangeStrategy::Ignore => {},
    }
}

/// Law: every envelope starts by lifting the cutter to the safe Z.
pub proof fn lemma_envelope_lifts_first(
    m: ToolChangeConfig,
    tool: Option<EnvelopeTool>,
    id: u32,
    first: bool,
    target: Option<u32>,
    coolant: CoolantState,
)
    ensures
        envelope_spec(m, tool, id, first, target, coolant).len() > 0,
        envelope_spec(m, tool, id, first, target, coolant)[0] == ChangeStep::<Seq<char>>::LiftToSafeZ,
{
    lemma_lead_in_shape(m, first, coolant);
    let l = lead_in_spec(m, first, coolant);
    assert(envelope_spec(m, tool, id, first, target, coolant)[0] == l[0]);
}

/// Law: on a mill, past the first tool, the spindle is stopped (with the
/// coolant off before it, when the coolant is on) before any swap or
/// spin-up: the `M5` stands at index `k`, and every tool change, pause and
/// spin-up comes after it.
pub proof fn lemma_envelope_stops_before_change(
    m: ToolChangeConfig,
    tool: Option<EnvelopeTool>,
    id: u32,
    first: bool,
    target: Option<u32>,
    coolant: CoolantState,
)
    requires
        !first,
        m.is_mill,
    ensures
        ({
            let e = envelope_spec(m, tool, id, first, target, coolant);
            let k = lead_in_spec(m, first, coolant).len() - 2;
            &&& 0 <= k < e.len()
            &&& e[k] == ChangeStep::<Seq<char>>::SpindleOff
            &&& coolant_live(coolant) ==> k >= 1 && e[k - 1] == ChangeStep::<Seq<char>>::CoolantOff
            &&& forall|j: int| 0 <= j < e.len() && swaps_or_spins(#[trigger] e[j]) ==> k < j
        }),
{
    lemma_lead_in_shape(m, first, coolant);
    let l = lead_in_spec(m, first, coolant);
    let b = change_body_spec(m, tool, id, first, target);
    let e = envelope_spec(m, tool, id, first, target, coolant);
    let k = l.len() - 2;
    assert(e[k] == l[k]);
    if coolant_live(coolant) {
        assert(e[k - 1] == l[k - 1]);
    }
    assert forall|j: int| 0 <= j < e.len() && swaps_or_spins(#[trigger] e[j]) implies k < j by {
        if j < l.len() {
            assert(e[j] == l[j]);
            assert(lead_step(l[j]));
        }
    }
}

/// Law: the spindle is only ever spun up on a mill with a known new tool,
/// in that tool's direction and at the requested speed (the tool's own
/// speed when none is requested), and only after the swap.
pub proof fn lemma_envelope_spins_up_new_tool(
    m: ToolChangeConfig,
    tool: Option<EnvelopeTool>,
    id: u32,
    first: bool,
    target: Option<u32>,
    coolant: CoolantState,
)
    ensures
        ({
            let e = envelope_spec(m, tool, id, first, target, coolant);
            forall|j: int|
                0 <= j < e.len() && #[trigger] e[j] is SpindleOn ==> m.is_mill && tool is Some
                    && e[j] == ChangeStep::<Seq<char>>::SpindleOn {
                    direction: tool->0.spindle_direction,
                    rpm: match target {
                        Some(r) => r,
                        None => tool->0.speed,
                    },
                } && forall|i: int| 0 <= i < e.len() && (#[trigger] e[i] is ToolChange || e[i] is Pause) ==> i < j
        }),
{
    lemma_lead_in_shape(m, first, coolant);
    lemma_change_body_tail(m, tool, id, first, target);
    let l = lead_in_spec(m, first, coolant);
    let b = change_body_spec(m, tool, id, first, target);
    let e = envelope_spec(m, tool, id, first, target, coolant);
    assert forall|j: int|
        0 <= j < e.len() && #[trigger] e[j] is SpindleOn implies m.is_mill && tool is Some
            && e[j] == ChangeStep::<Seq<char>>::SpindleOn {
            direction: tool->0.spindle_direction,
            rpm: match target {
                Some(r) => r,
                None => tool->0.speed,
            },
        } && forall|i: int| 0 <= i < e.len() && (#[trigger] e[i] is ToolChange || e[i] is Pause) ==> i < j by {
        if j < l.len() {
            assert(e[j] == l[j]);
            assert(lead_step(l[j]));
        } else {
            assert(e[j] == b[j - l.len()]);
            assert forall|i: int| 0 <= i < e.len() && (#[trigger] e[i] is ToolChange || e[i] is Pause) implies i < j by {
                if i < l.len() {
                    assert(e[i] == l[i]);
                    assert(lead_step(l[i]));
                } else {
                    assert(e[i] == b[i - l.len()]);
                    assert(b[i - l.len()] is ToolChange || b[i - l.len()] is Pause);
                }
            }
        }
    }
}


/// A step that drives the spindle or the coolant.
pub open spec fn spindle_step(s: ChangeStep<Seq<char>>) -> bool {
    s is CoolantOff || s is SpindleOff || s is StopDwell || s is SpindleOn || s is StartDwell
        || s is ResetState || s is ToolPause
}

/// A step that re-establishes the tool's Z by shift or probe.
pub open spec fn z_step(s: ChangeStep<Seq<char>>) -> bool {
    s is StaticZShift || s is ProbePlate || s is FixedSensorProbe
}

proof fn lemma_segments_no_spindle(
    m: ToolChangeConfig,
    tool: Option<EnvelopeTool>,
    id: u32,
    first: bool,
)
    ensures
        none_of(prompt_steps(m.post_change_z, id, first), |s: ChangeStep<Seq<char>>| spindle_step(s)),
        none_of(post_change_z_steps(m, tool, id, first), |s: ChangeStep<Seq<char>>| spindle_step(s)),
        none_of(prompt_steps(m.post_change_z, id, first), |s: ChangeStep<Seq<char>>| z_step(s)),
        none_of(prompt_steps(m.post_change_z, id, first), |s: ChangeStep<Seq<char>>| s is Pause || s is ToolChange),
        none_of(post_change_z_steps(m, tool, id, first), |s: ChangeStep<Seq<char>>| s is Pause || s is ToolChange),
{
}

/// Law: a machine without a spindle (laser, drag knife, plotter) gets no
/// spindle or coolant step from the envelope.
pub proof fn lemma_envelope_no_spindle_off_mill(
    m: ToolChangeConfig,
    tool: Option<EnvelopeTool>,
    id: u32,
    first: bool,
    target: Option<u32>,
    coolant: CoolantState,
)
    requires
        !m.is_mill,
    ensures
        forall|j: int|
            0 <= j < envelope_spec(m, tool, id, first, target, coolant).len() ==> !spindle_step(
                #[trigger] envelope_spec(m, tool, id, first, target, coolant)[j],
            ),
{
    let p = |s: ChangeStep<Seq<char>>| spindle_step(s);
    lemma_lead_in_shape(m, first, coolant);
    lemma_segments_no_spindle(m, tool, id, first);
    let l = lead_in_spec(m, first, coolant);
    assert(none_of(l, p)) by {
        assert forall|j: int| 0 <= j < l.len() implies !p(#[trigger] l[j]) by {
            assert(l[j] is LiftToSafeZ || l[j] is RapidToChangeStation);
        }
    }
    let b = change_body_spec(m, tool, id, first, target);
    let ps = prompt_steps(m.post_change_z, id, first);
    let pz = post_change_z_steps(m, tool, id, first);
    assert(spin_up_steps(m, tool, target) == no_steps());
    match m.strategy {
        ToolChangeStrategy::Atc | ToolChangeStrategy::ManualM6Prompt => {
            let park = if m.strategy == ToolChangeStrategy::ManualM6Prompt {
                just(ChangeStep::Comment(park_text()))
            } else {
                no_steps()
            };
            let z = if m.use_tool_length_offsets {
                just(ChangeStep::ToolLengthOffset)
            } else {
                pz
            };
            assert(none_of(park, p));
            assert(none_of(z, p));
            lemma_none_of_add(park, ps, p);
            lemma_none_of_add(park + ps, just(ChangeStep::ToolChange), p);
            lemma_none_of_add(park + ps + just(ChangeStep::ToolChange), z, p);
            lemma_none_of_add(park + ps + just(ChangeStep::ToolChange) + z, no_steps(), p);
            assert(b == park + ps + just(ChangeStep::ToolChange) + z + no_steps());
        },
        ToolChangeStrategy::ManualM0Pause => {
            let cm = just(ChangeStep::Comment(swap_text(id, tool)));
            let pause = if !first {
                just(ChangeStep::Pause { optional: m.optional_stop })
            } else {
                no_steps()
            };
            assert(none_of(cm, p));
            assert(none_of(pause, p));
            lemma_none_of_add(cm, ps, p);
            lemma_none_of_add(cm + ps, pause, p);
            lemma_none_of_add(cm + ps + pause, pz, p);
            lemma_none_of_add(cm + ps + pause + pz, no_steps(), p);
            assert(b == cm + ps + pause + pz + no_steps());
        },
        ToolChangeStrategy::Ignore => {
            assert(none_of(b, p));
        },
    }
    lemma_none_of_add(l, b, p);
}

/// Law: with the `Ignore` strategy the envelope carries no swap signal: no
/// tool change and no pause.
pub proof fn lemma_envelope_ignore_has_no_swap(
    m: ToolChangeConfig,
    tool: Option<EnvelopeTool>,
    id: u32,
    first: bool,
    target: Option<u32>,
    coolant: CoolantState,
)
    requires
        m.strategy == ToolChangeStrategy::Ignore,
    ensures
        forall|j: int|
            0 <= j < envelope_spec(m, tool, id, first, target, coolant).len() ==> !(
            #[trigger] envelope_spec(m, tool, id, first, target, coolant)[j] is ToolChange
                || envelope_spec(m, tool, id, first, target, coolant)[j] is Pause),
{
    lemma_lead_in_shape(m, first, coolant);
    let l = lead_in_spec(m, first, coolant);
    let e = envelope_spec(m, tool, id, first, target, coolant);
    assert(e =~= l);
    assert forall|j: int| 0 <= j < e.len() implies !(#[trigger] e[j] is ToolChange || e[j] is Pause) by {
        assert(lead_step(l[j]));
    }
}

/// Law: the first tool, which the operator loads before the program
/// starts, gets no pause, no trip to the change station, and no coolant or
/// spindle stop.
pub proof fn lemma_envelope_first_tool_has_no_pause(
    m: ToolChangeConfig,
    tool: Option<EnvelopeTool>,
    id: u32,
    target: Option<u32>,
    coolant: CoolantState,
)
    ensures
        forall|j: int|
            0 <= j < envelope_spec(m, tool, id, true, target, coolant).len() ==> !(
            #[trigger] envelope_spec(m, tool, id, true, target, coolant)[j] is Pause
                || envelope_spec(m, tool, id, true, target, coolant)[j] is RapidToChangeStation
                || envelope_spec(m, tool, id, true, target, coolant)[j] is SpindleOff
                || envelope_spec(m, tool, id, true, target, coolant)[j] is CoolantOff),
{
    let p = |s: ChangeStep<Seq<char>>|
        s is Pause || s is RapidToChangeStation || s is SpindleOff || s is CoolantOff;
    lemma_lead_in_shape(m, true, coolant);
    let l = lead_in_spec(m, true, coolant);
    assert(none_of(l, p));
    let ps = prompt_steps(m.post_change_z, id, true);
    let pz = post_change_z_steps(m, tool, id, true);
    let su = spin_up_steps(m, tool, target);
    assert(ps == no_steps());
    assert(none_of(pz, p));
    assert(none_of(su, p)) by {
        assert forall|j: int| 0 <= j < su.len() implies !p(#[trigger] su[j]) by {
            match tool {
                Some(t) => {
                    if m.is_mill {
                        let two = seq![
                            ChangeStep::<Seq<char>>::SpindleOn {
                                direction: t.spindle_direction,
                                rpm: match target {
                                    Some(r) => r,
                                    None => t.speed,
                                },
                            },
                            ChangeStep::StartDwell,
                        ];
                        let rest = if t.pause > 0 {
                            just(ChangeStep::ToolPause { seconds: t.pause })
                        } else {
                            no_steps()
                        };
                        if j >= 2 {
                            assert(su[j] == rest[j - 2]);
                        } else {
                            assert(su[j] == two[j]);
                        }
                    }
                },
                None => {},
            }
        }
    }
    let b = change_body_spec(m, tool, id, true, target);
    match m.strategy {
        ToolChangeStrategy::Atc | ToolChangeStrategy::ManualM6Prompt => {
            let park = if m.strategy == ToolChangeStrategy::ManualM6Prompt {
                just(ChangeStep::Comment(park_text()))
            } else {
                no_steps()
            };
            let z = if m.use_tool_length_offsets {
                just(ChangeStep::ToolLengthOffset)
            } else {
                pz
            };
            assert(none_of(park, p));
            assert(none_of(z, p));
            lemma_none_of_add(park, ps, p);
            lemma_none_of_add(park + ps, just(ChangeStep::ToolChange), p);
            lemma_none_of_add(park + ps + just(ChangeStep::ToolChange), z, p);
            lemma_none_of_add(park + ps + just(ChangeStep::ToolChange) + z, su, p);
        },
        ToolChangeStrategy::ManualM0Pause => {
            let cm = just(ChangeStep::Comment(swap_text(id, tool)));
            let tail = if m.is_mill && tool is Some {
                just(ChangeStep::ResetState) + su
            } else {
                no_steps()
            };
            assert(none_of(cm, p));
            lemma_none_of_add(just(ChangeStep::ResetState), su, p);
            assert(none_of(tail, p));
            lemma_none_of_add(cm, ps, p);
            lemma_none_of_add(cm + ps, no_steps(), p);
            lemma_none_of_add(cm + ps + no_steps(), pz, p);
            lemma_none_of_add(cm + ps + no_steps() + pz, tail, p);
        },
        ToolChangeStrategy::Ignore => {},
    }
    assert(none_of(b, p));
    lemma_none_of_add(l, b, p);
}

/// Law: an envelope's program pause is an optional stop (`M1`) exactly when
/// the machine opts in, else a full stop (`M0`): every pause step of an
/// envelope has `optional == m.optional_stop`; and a hand swap by program
/// pause stops the program for every tool but the first.
pub proof fn lemma_envelope_pause_follows_machine(
    m: ToolChangeConfig,
    tool: Option<EnvelopeTool>,
    id: u32,
    first: bool,
    target: Option<u32>,
    coolant: CoolantState,
)
    ensures
        ({
            let e = envelope_spec(m, tool, id, first, target, coolant);
            &&& forall|j: int|
                0 <= j < e.len() && #[trigger] e[j] is Pause ==> e[j]
                    == ChangeStep::<Seq<char>>::Pause { optional: m.optional_stop }
            &&& m.strategy == ToolChangeStrategy::ManualM0Pause && !first ==> exists|j: int|
                0 <= j < e.len() && #[trigger] e[j]
                    == ChangeStep::<Seq<char>>::Pause { optional: m.optional_stop }
        }),
{
    let stop = ChangeStep::<Seq<char>>::Pause { optional: m.optional_stop };
    let p = |s: ChangeStep<Seq<char>>| s is Pause && s != stop;
    lemma_lead_in_shape(m, first, coolant);
    let l = lead_in_spec(m, first, coolant);
    assert(none_of(l, p)) by {
        assert forall|j: int| 0 <= j < l.len() implies !p(#[trigger] l[j]) by {
            assert(lead_step(l[j]));
        }
    }
    let ps = prompt_steps(m.post_change_z, id, first);
    let pz = post_change_z_steps(m, tool, id, first);
    let su = spin_up_steps(m, tool, target);
    assert(none_of(ps, p)) by {
        assert forall|j: int| 0 <= j < ps.len() implies !p(#[trigger] ps[j]) by {
            assert(ps[j] is Comment);
        }
    }
    assert(none_of(pz, p));
    assert(none_of(su, p)) by {
        assert forall|j: int| 0 <= j < su.len() implies !p(#[trigger] su[j]) by {
            match tool {
                Some(t) => {
                    if m.is_mill {
                        let two = seq![
                            ChangeStep::<Seq<char>>::SpindleOn {
                                direction: t.spindle_direction,
                                rpm: match target {
                                    Some(r) => r,
                                    None => t.speed,
                                },
                            },
                            ChangeStep::StartDwell,
                        ];
                        let rest = if t.pause > 0 {
                            just(ChangeStep::ToolPause { seconds: t.pause })
                        } else {
                            no_steps()
                        };
                        if j >= 2 {
                            assert(su[j] == rest[j - 2]);
                        } else {
                            assert(su[j] == two[j]);
                        }
                    }
                },
                None => {},
            }
        }
    }
    let b = change_body_spec(m, tool, id, first, target);
    let e = envelope_spec(m, tool, id, first, target, coolant);
    match m.strategy {
        ToolChangeStrategy::Atc | ToolChangeStrategy::ManualM6Prompt => {
            let park = if m.strategy == ToolChangeStrategy::ManualM6Prompt {
                just(ChangeStep::Comment(park_text()))
            } else {
                no_steps()
            };
            let z = if m.use_tool_length_offsets {
                just(ChangeStep::ToolLengthOffset)
            } else {
                pz
            };
            assert(none_of(park, p));
            assert(none_of(z, p));
            lemma_none_of_add(park, ps, p);
            lemma_none_of_add(park + ps, just(ChangeStep::ToolChange), p);
            lemma_none_of_add(park + ps + just(ChangeStep::ToolChange), z, p);
            lemma_none_of_add(park + ps + just(ChangeStep::ToolChange) + z, su, p);
        },
        ToolChangeStrategy::ManualM0Pause => {
            let cm = just(ChangeStep::Comment(swap_text(id, tool)));
            let pause = if !first {
                just(stop)
            } else {
                no_steps()
            };
            let tail = if m.is_mill && tool is Some {
                just(ChangeStep::ResetState) + su
            } else {
                no_steps()
            };
            assert(none_of(cm, p));
            assert(none_of(pause, p));
            lemma_none_of_add(just(ChangeStep::ResetState), su, p);
            assert(none_of(tail, p));
            lemma_none_of_add(cm, ps, p);
            lemma_none_of_add(cm + ps, pause, p);
            lemma_none_of_add(cm + ps + pause, pz, p);
            lemma_none_of_add(cm + ps + pause + pz, tail, p);
            assert(b == cm + ps + pause + pz + tail);
            if !first {
                let k: int = (l.len() + cm.len() + ps.len()) as int;
                assert(e == l + b);
                assert(b[(cm.len() + ps.len()) as int] == stop);
                assert(e[k] == stop);
            }
        },
        ToolChangeStrategy::Ignore => {},
    }
    assert(none_of(b, p));
    lemma_none_of_add(l, b, p);
    assert forall|j: int| 0 <= j < e.len() && #[trigger] e[j] is Pause implies e[j] == stop by {
        assert(!p(e[j]));
    }
}

/// Law: when the controller's tool table supplies the length offset on an
/// `M6` machine, the envelope applies `G43 H<n>` right after the change and
/// no static shift or probe cycle.
pub proof fn lemma_envelope_tool_table_supersedes_z(
    m: ToolChangeConfig,
    tool: Option<EnvelopeTool>,
    id: u32,
    first: bool,
    target: Option<u32>,
    coolant: CoolantState,
)
    requires
        m.use_tool_length_offsets,
        m.strategy == ToolChangeStrategy::Atc || m.strategy == ToolChangeStrategy::ManualM6Prompt,
    ensures
        ({
            let e = envelope_spec(m, tool, id, first, target, coolant);
            &&& forall|j: int| 0 <= j < e.len() ==> !z_step(#[trigger] e[j])
            &&& exists|j: int|
                0 <= j < e.len() - 1 && #[trigger] e[j] is ToolChange && e[j + 1]
                    == ChangeStep::<Seq<char>>::ToolLengthOffset
        }),
{
    let p = |s: ChangeStep<Seq<char>>| z_step(s);
    lemma_lead_in_shape(m, first, coolant);
    lemma_segments_no_spindle(m, tool, id, first);
    let l = lead_in_spec(m, first, coolant);
    assert(none_of(l, p)) by {
        assert forall|j: int| 0 <= j < l.len() implies !p(#[trigger] l[j]) by {
            assert(lead_step(l[j]));
        }
    }
    let ps = prompt_steps(m.post_change_z, id, first);
    let su = spin_up_steps(m, tool, target);
    assert(none_of(su, p)) by {
        assert forall|j: int| 0 <= j < su.len() implies !p(#[trigger] su[j]) by {
            match tool {
                Some(t) => {
                    if m.is_mill {
                        let two = seq![
                            ChangeStep::<Seq<char>>::SpindleOn {
                                direction: t.spindle_direction,
                                rpm: match target {
                                    Some(r) => r,
                                    None => t.speed,
                                },
                            },
                            ChangeStep::StartDwell,
                        ];
                        let rest = if t.pause > 0 {
                            just(ChangeStep::ToolPause { seconds: t.pause })
                        } else {
                            no_steps()
                        };
                        if j >= 2 {
                            assert(su[j] == rest[j - 2]);
                        } else {
                            assert(su[j] == two[j]);
                        }
                    }
                },
                None => {},
            }
        }
    }
    let park = if m.strategy == ToolChangeStrategy::ManualM6Prompt {
        just(ChangeStep::Comment(park_text()))
    } else {
        no_steps()
    };
    assert(none_of(park, p));
    let tlo = just(ChangeStep::<Seq<char>>::ToolLengthOffset);
    let tc = just(ChangeStep::<Seq<char>>::ToolChange);
    lemma_none_of_add(park, ps, p);
    lemma_none_of_add(park + ps, tc, p);
    lemma_none_of_add(park + ps + tc, tlo, p);
    lemma_none_of_add(park + ps + tc + tlo, su, p);
    let b = park + ps + tc + tlo + su;
    lemma_none_of_add(l, b, p);
    let e = envelope_spec(m, tool, id, first, target, coolant);
    assert(e == l + b);
    let j: int = (l.len() + park.len() + ps.len()) as int;
    assert(e[j] == b[j - l.len()]);
    assert(b[j - l.len()] == (park + ps + tc)[j - l.len()]);
    assert(e[j + 1] == b[j + 1 - l.len()]);
    assert(b[j + 1 - l.len()] == (park + ps + tc + tlo)[j + 1 - l.len()]);
    assert(e[j] is ToolChange);
}

/// Law: on a mill, a change to a known tool by any strategy but `Ignore`
/// spins the spindle back up before the envelope ends.
pub proof fn lemma_envelope_spins_up(
    m: ToolChangeConfig,
    tool: Option<EnvelopeTool>,
    id: u32,
    first: bool,
    target: Option<u32>,
    coolant: CoolantState,
)
    requires
        m.is_mill,
        tool is Some,
        m.strategy != ToolChangeStrategy::Ignore,
    ensures
        exists|j: int|
            0 <= j < envelope_spec(m, tool, id, first, target, coolant).len()
                && #[trigger] envelope_spec(m, tool, id, first, target, coolant)[j] is SpindleOn,
{
    let e = envelope_spec(m, tool, id, first, target, coolant);
    let su = spin_up_steps(m, tool, target);
    let t = tool->0;
    let rest = if t.pause > 0 {
        just(ChangeStep::ToolPause { seconds: t.pause })
    } else {
        no_steps()
    };
    assert(su[0] is SpindleOn);
    // The spin-up closes the envelope.
    let k = e.len() - su.len();
    assert(e == e.take(k) + su) by {
        let l = lead_in_spec(m, first, coolant);
        let ps = prompt_steps(m.post_change_z, id, first);
        let pz = post_change_z_steps(m, tool, id, first);
        match m.strategy {
            ToolChangeStrategy::ManualM0Pause => {
                let cm = just(ChangeStep::Comment(swap_text(id, tool)));
                let pause = if !first {
                    just(ChangeStep::Pause { optional: m.optional_stop })
                } else {
                    no_steps()
                };
                let head = l + (cm + ps + pause + pz + just(ChangeStep::ResetState));
                assert(e =~= head + su);
                assert(head =~= e.take(k));
            },
            _ => {
                let park = if m.strategy == ToolChangeStrategy::ManualM6Prompt {
                    just(ChangeStep::Comment(park_text()))
                } else {
                    no_steps()
                };
                let z = if m.use_tool_length_offsets {
                    just(ChangeStep::ToolLengthOffset)
                } else {
                    pz
                };
                let head = l + (park + ps + just(ChangeStep::ToolChange) + z);
                assert(e =~= head + su);
                assert(head =~= e.take(k));
            },
        }
    }
    assert(e[k] == su[0]);
}

} // verus!
