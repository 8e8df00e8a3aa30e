//! The per-op emit sequence: what the program writes around each enabled op,
//! in order. The caller performs each action on its post and emits the body
//! itself (fresh or from its cache); the decisions are taken here.

use vstd::prelude::*;

use crate::gcode::CoolantState;
use crate::pipeline::program_only::{group_marker, group_marker_spec, live_group, opt_str_view};
use crate::pipeline::toolchange::{
    boundary_spec, boundary_toolchange, no_steps, step_view, steps_view, ChangeStep, EnvelopeTool,
    ToolChangeConfig,
};
use crate::pipeline::{next_prev_tool_id, program_only, tool_after_op, Op};

verus! {

/// What the per-op loop carries from one op to the next: the tool last
/// loaded and the live group.
#[derive(Debug, Clone)]
pub struct PerOpState {
    pub prev_tool_id: Option<u32>,
    pub prev_group: Option<String>,
}

/// What the boundary before an op needs besides the op itself.
#[derive(Debug, Clone)]
pub struct OpContext {
    /// The op's group, as declared.
    pub group: Option<String>,
    /// The op's name.
    pub name: String,
    /// The library entry of the op's tool, when there is one.
    pub tool: Option<EnvelopeTool>,
    pub machine: ToolChangeConfig,
    /// The post's coolant state at the boundary.
    pub coolant: CoolantState,
}

/// One action of the per-op sequence. `C` is text: `String` in a plan, its
/// characters in the specification.
#[derive(Debug, Clone, PartialEq, Eq)]
pub enum PerOpAction<C> {
    /// Write this group-boundary line verbatim.
    Marker(C),
    /// Snapshot the post's modal state (read by a g-code include).
    CaptureState,
    /// Forget the post's feed, speed and spindle direction.
    ResetState,
    /// One step of the tool-change envelope.
    Step(ChangeStep<C>),
    /// Mark the op boundary in the output.
    Checkpoint,
    /// Emit the program-only op with the snapshot taken above.
    ProgramOnly,
    /// Emit the op's body (from the cache or fresh).
    Body,
}

pub open spec fn action_view(a: PerOpAction<String>) -> PerOpAction<Seq<char>> {
    match a {
        PerOpAction::Marker(l) => PerOpAction::Marker(l@),
        PerOpAction::CaptureState => PerOpAction::CaptureState,
        PerOpAction::ResetState => PerOpAction::ResetState,
        PerOpAction::Step(s) => PerOpAction::Step(step_view(s)),
        PerOpAction::Checkpoint => PerOpAction::Checkpoint,
        PerOpAction::ProgramOnly => PerOpAction::ProgramOnly,
        PerOpAction::Body => PerOpAction::Body,
    }
}

pub open spec fn actions_view(v: Seq<PerOpAction<String>>) -> Seq<PerOpAction<Seq<char>>> {
    v.map_values(|a: PerOpAction<String>| action_view(a))
}

/// The state as values: the tool last loaded and the live group.
pub open spec fn state_view(st: PerOpState) -> (Option<u32>, Option<Seq<char>>) {
    (st.prev_tool_id, opt_str_view(st.prev_group))
}

pub open spec fn steps_as_actions(s: Seq<ChangeStep<Seq<char>>>) -> Seq<PerOpAction<Seq<char>>> {
    s.map_values(|c: ChangeStep<Seq<char>>| PerOpAction::Step(c))
}

/// The boundary before an enabled op, after ops that left `st`: a group
/// marker when the live group changes, a snapshot of the modal state, its
/// reset; for a cutting op that will emit, the tool-change decision and its
/// steps; a checkpoint; then the program-only op or the op's body. The
/// state carried on holds the new live group and the tool after the
/// boundary.
pub open spec fn per_op_spec(
    st: (Option<u32>, Option<Seq<char>>),
    op: Op,
    group: Option<Seq<char>>,
    name: Seq<char>,
    tool: Option<EnvelopeTool>,
    m: ToolChangeConfig,
    coolant: CoolantState,
    will_emit: bool,
) -> ((Option<u32>, Option<Seq<char>>), Seq<PerOpAction<Seq<char>>>) {
    let marker = match group_marker_spec(st.1, group) {
        Some(l) => seq![PerOpAction::Marker(l)],
        None => Seq::empty(),
    };
    let change = if !program_only(op.kind) && will_emit {
        boundary_spec(m, st.0, op.id, name, op.tool_id, tool, coolant)
    } else {
        (st.0, no_steps())
    };
    let last = if program_only(op.kind) {
        PerOpAction::ProgramOnly
    } else {
        PerOpAction::Body
    };
    (
        (change.0, live_group(group)),
        marker + seq![PerOpAction::CaptureState, PerOpAction::ResetState] + steps_as_actions(
            change.1,
        ) + seq![PerOpAction::Checkpoint, last],
    )
}

fn push_action(v: &mut Vec<PerOpAction<String>>, a: PerOpAction<String>)
    ensures
        actions_view(final(v)@) == actions_view(old(v)@).push(action_view(a)),
{
    let ghost v0 = v@;
    v.push(a);
    proof {
        assert(actions_view(v@) =~= actions_view(v0).push(action_view(a)));
    }
}

/// The actions before an op's body (see [`per_op_spec`]), and the state
/// carried on.
pub fn per_op_step(st: &PerOpState, op: &Op, ctx: &OpContext, will_emit: bool) -> (r: (
    PerOpState,
    Vec<PerOpAction<String>>,
))
    ensures
        (state_view(r.0), actions_view(r.1@)) == per_op_spec(
            state_view(*st),
            *op,
            opt_str_view(ctx.group),
            ctx.name@,
            ctx.tool,
            ctx.machine,
            ctx.coolant,
            will_emit,
        ),
{
    let mut acts: Vec<PerOpAction<String>> = Vec::new();
    proof {
        assert(actions_view(acts@) =~= Seq::<PerOpAction<Seq<char>>>::empty());
    }
    let (live, marker) = group_marker(&st.prev_group, &ctx.group);
    match marker {
        Some(l) => {
            push_action(&mut acts, PerOpAction::Marker(l));
        },
        None => {},
    }
    let ghost head = actions_view(acts@);
    push_action(&mut acts, PerOpAction::CaptureState);
    push_action(&mut acts, PerOpAction::ResetState);
    proof {
        assert(actions_view(acts@) =~= head + seq![PerOpAction::CaptureState, PerOpAction::ResetState]);
    }
    let cutting = !op.kind.is_program_only();
    let mut prev_tool = st.prev_tool_id;
    if cutting && will_emit {
        let (t, steps) = boundary_toolchange(
            ctx.machine,
            st.prev_tool_id,
            op.id,
            ctx.name.as_str(),
            op.tool_id,
            &ctx.tool,
            ctx.coolant,
        );
        prev_tool = t;
        let ghost a0 = actions_view(acts@);
        let ghost sv = steps_view(steps@);
        let mut rest = steps;
        let n = rest.len();
        let mut k: usize = 0;
        while k < n
            invariant
                k <= n,
                n == sv.len(),
                rest@.len() + k == n,
                steps_view(rest@) == sv.subrange(k as int, n as int),
                actions_view(acts@) == a0 + steps_as_actions(sv.subrange(0, k as int)),
            decreases n - k,
        {
            proof {
                assert(steps_view(rest@)[0] == step_view(rest@[0]));
                assert(sv.subrange(k as int, n as int)[0] == sv[k as int]);
            }
            let ghost r0 = rest@;
            let s = rest.remove(0);
            let ghost before = actions_view(acts@);
            push_action(&mut acts, PerOpAction::Step(s));
            proof {
                assert(step_view(s) == sv[k as int]);
                assert forall|j: int| 0 <= j < rest@.len() implies #[trigger] steps_view(rest@)[j]
                    == sv.subrange(k + 1, n as int)[j] by {
                    assert(rest@[j] == r0[j + 1]);
                    assert(steps_view(r0)[j + 1] == sv.subrange(k as int, n as int)[j + 1]);
                }
                assert(steps_view(rest@) =~= sv.subrange(k + 1, n as int));
                assert(steps_as_actions(sv.subrange(0, k + 1)) =~= steps_as_actions(
                    sv.subrange(0, k as int),
                ).push(PerOpAction::Step(sv[k as int])));
                assert(a0 + steps_as_actions(sv.subrange(0, k as int)).push(
                    PerOpAction::Step(sv[k as int]),
                ) =~= (a0 + steps_as_actions(sv.subrange(0, k as int))).push(
                    PerOpAction::Step(sv[k as int]),
                ));
            }
            k = k + 1;
        }
        proof {
            assert(sv.subrange(0, n as int) =~= sv);
        }
    } else {
        proof {
            assert(steps_as_actions(no_steps()) =~= Seq::<PerOpAction<Seq<char>>>::empty());
            assert(actions_view(acts@) + steps_as_actions(no_steps()) =~= actions_view(acts@));
        }
    }
    let ghost mid = actions_view(acts@);
    push_action(&mut acts, PerOpAction::Checkpoint);
    if cutting {
        push_action(&mut acts, PerOpAction::Body);
    } else {
        push_action(&mut acts, PerOpAction::ProgramOnly);
    }
    proof {
        assert(actions_view(acts@) =~= mid + seq![
            PerOpAction::Checkpoint,
            if cutting {
                PerOpAction::Body
            } else {
                PerOpAction::ProgramOnly
            },
        ]);
    }
    (PerOpState { prev_tool_id: prev_tool, prev_group: live }, acts)
}

/// After an op's body: a cutting op leaves its tool in the spindle (its
/// finish tool when the internal swap to it was emitted); a program-only op
/// changes nothing.
pub fn per_op_done(st: PerOpState, op: &Op, internal_swap_emitted: bool) -> (r: PerOpState)
    ensures
        r.prev_group == st.prev_group,
        r.prev_tool_id == (if program_only(op.kind) {
            st.prev_tool_id
        } else {
            Some(tool_after_op(*op, internal_swap_emitted))
        }),
{
    if op.kind.is_program_only() {
        st
    } else {
        PerOpState {
            prev_tool_id: Some(next_prev_tool_id(op, internal_swap_emitted)),
            prev_group: st.prev_group,
        }
    }
}

} // verus!
