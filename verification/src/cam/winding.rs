//! Cut direction: which closed offsets must be reversed so the cutter climbs
//! or cuts conventionally, on either spindle hand.

use vstd::prelude::*;

use crate::gcode::{SpindleDirection, ToolOffset};

verus! {

/// The side of the material the cutter sits on for an offset.
#[derive(Debug, Clone, Copy, PartialEq, Eq, Structural)]
pub enum CutContext {
    /// Outside the part (external profile, or around a pocket island).
    Outer,
    /// Inside the part or pocket.
    Inner,
    /// Winding does not matter (centerline cuts, profile on the line).
    Skip,
}

/// Requested cut direction.
#[derive(Debug, Clone, Copy, PartialEq, Eq, Structural)]
pub enum CutDirection {
    Conventional,
    Climb,
}

/// The orientation of a closed offset, by the sign of its signed area.
#[derive(Debug, Clone, Copy, PartialEq, Eq, Structural)]
pub enum AreaSign {
    /// Area too close to zero to orient.
    Degenerate,
    /// Counter-clockwise (positive area).
    Ccw,
    /// Clockwise (negative area).
    Cw,
}

/// Whether the offset should run counter-clockwise: on a right-hand (`M3`)
/// spindle, conventional cutting runs inner offsets CCW and outer ones CW,
/// climb the opposite; a left-hand (`M4`) spindle flips both.
pub open spec fn want_ccw(context: CutContext, direction: CutDirection, spindle: SpindleDirection) -> bool {
    let rh = match (context, direction) {
        (CutContext::Inner, CutDirection::Conventional) => true,
        (CutContext::Inner, CutDirection::Climb) => false,
        (CutContext::Outer, CutDirection::Conventional) => false,
        (CutContext::Outer, CutDirection::Climb) => true,
        (CutContext::Skip, _) => false,
    };
    match spindle {
        SpindleDirection::Cw => rh,
        SpindleDirection::Ccw => !rh,
    }
}

/// Whether an offset must be reversed: it is closed, its context is not
/// `Skip`, it is not degenerate, and its orientation differs from
/// [`want_ccw`].
pub open spec fn needs_reverse(
    closed: bool,
    area: AreaSign,
    context: CutContext,
    direction: CutDirection,
    spindle: SpindleDirection,
) -> bool {
    &&& closed
    &&& context != CutContext::Skip
    &&& area != AreaSign::Degenerate
    &&& (area == AreaSign::Ccw) != want_ccw(context, direction, spindle)
}

/// Decide whether a closed offset of the given orientation must be
/// reversed to cut in `direction` on `spindle` (see [`needs_reverse`]).
pub fn enforce_winding(
    closed: bool,
    area: AreaSign,
    context: CutContext,
    direction: CutDirection,
    spindle: SpindleDirection,
) -> (reverse: bool)
    ensures
        reverse == needs_reverse(closed, area, context, direction, spindle),
{
    if !closed {
        return false;
    }
    let want_rh = match (context, direction) {
        (CutContext::Inner, CutDirection::Conventional) => true,
        (CutContext::Inner, CutDirection::Climb) => false,
        (CutContext::Outer, CutDirection::Conventional) => false,
        (CutContext::Outer, CutDirection::Climb) => true,
        (CutContext::Skip, _) => {
            return false;
        },
    };
    let is_ccw = match area {
        AreaSign::Degenerate => {
            return false;
        },
        AreaSign::Ccw => true,
        AreaSign::Cw => false,
    };
    let want = match spindle {
        SpindleDirection::Cw => want_rh,
        SpindleDirection::Ccw => !want_rh,
    };
    is_ccw != want
}

/// The kind of contour op whose offsets are oriented.
#[derive(Debug, Clone, Copy, PartialEq, Eq, Structural)]
pub enum ContourKind {
    /// A profile cut on the given side of the line.
    Profile(ToolOffset),
    Pocket,
    /// Any op without a winding choice (engrave, drill, v-carve, …).
    Centerline,
}

/// One offset of an op, as the winding pass sees it.
#[derive(Debug, Clone, Copy, PartialEq, Eq, Structural)]
pub struct OffsetShape {
    pub closed: bool,
    pub area: AreaSign,
    /// The wall-defining pass (cascade level 0).
    pub finishing: bool,
}

/// The cutter's side for an offset: a profile by its tool offset, a pocket
/// by the offset's orientation (CCW runs inside the pocket, anything else
/// around an island).
pub open spec fn context_of(kind: ContourKind, area: AreaSign) -> CutContext {
    match kind {
        ContourKind::Profile(ToolOffset::Outside) => CutContext::Outer,
        ContourKind::Profile(ToolOffset::Inside) => CutContext::Inner,
        ContourKind::Profile(_) => CutContext::Skip,
        ContourKind::Pocket => if area == AreaSign::Ccw {
            CutContext::Inner
        } else {
            CutContext::Outer
        },
        ContourKind::Centerline => CutContext::Skip,
    }
}

/// Which offsets of an op to reverse: the finishing pass takes `finish`,
/// the others `main`, each in its context (see [`context_of`]).
pub fn apply_cut_direction(
    offsets: &[OffsetShape],
    kind: ContourKind,
    main: CutDirection,
    finish: CutDirection,
    spindle: SpindleDirection,
) -> (r: Vec<bool>)
    ensures
        r@.len() == offsets@.len(),
        forall|i: int|
            0 <= i < offsets@.len() ==> #[trigger] r@[i] == needs_reverse(
                offsets@[i].closed,
                offsets@[i].area,
                context_of(kind, offsets@[i].area),
                if offsets@[i].finishing {
                    finish
                } else {
                    main
                },
                spindle,
            ),
{
    let mut r: Vec<bool> = Vec::new();
    let mut i: usize = 0;
    while i < offsets.len()
        invariant
            i <= offsets.len(),
            r@.len() == i,
            forall|k: int|
                0 <= k < i ==> #[trigger] r@[k] == needs_reverse(
                    offsets@[k].closed,
                    offsets@[k].area,
                    context_of(kind, offsets@[k].area),
                    if offsets@[k].finishing {
                        finish
                    } else {
                        main
                    },
                    spindle,
                ),
        decreases offsets.len() - i,
    {
        let o = offsets[i];
        let ctx = match kind {
            ContourKind::Profile(ToolOffset::Outside) => CutContext::Outer,
            ContourKind::Profile(ToolOffset::Inside) => CutContext::Inner,
            ContourKind::Profile(_) => CutContext::Skip,
            ContourKind::Pocket => match o.area {
                AreaSign::Ccw => CutContext::Inner,
                _ => CutContext::Outer,
            },
            ContourKind::Centerline => CutContext::Skip,
        };
        let dir = if o.finishing {
            finish
        } else {
            main
        };
        r.push(enforce_winding(o.closed, o.area, ctx, dir, spindle));
        i = i + 1;
    }
    r
}

/// Law: switching between climb and conventional reverses exactly the
/// offsets that have a winding to enforce.
pub proof fn lemma_directions_are_opposite(
    closed: bool,
    area: AreaSign,
    context: CutContext,
    spindle: SpindleDirection,
)
    ensures
        needs_reverse(closed, area, context, CutDirection::Climb, spindle) != needs_reverse(
            closed,
            area,
            context,
            CutDirection::Conventional,
            spindle,
        ) <==> (closed && context != CutContext::Skip && area != AreaSign::Degenerate),
{
}

/// Law: the two spindle hands want opposite windings for the same request,
/// so a left-hand spindle reverses exactly the orientable offsets a
/// right-hand one keeps.
pub proof fn lemma_spindle_hands_are_opposite(
    closed: bool,
    area: AreaSign,
    context: CutContext,
    direction: CutDirection,
)
    ensures
        needs_reverse(closed, area, context, direction, SpindleDirection::Cw) != needs_reverse(
            closed,
            area,
            context,
            direction,
            SpindleDirection::Ccw,
        ) <==> (closed && context != CutContext::Skip && area != AreaSign::Degenerate),
{
}

} // verus!
