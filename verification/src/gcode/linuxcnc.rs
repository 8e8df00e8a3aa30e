//! `LinuxCNC` post-processor: the modal state machine and the text of every
//! block it emits for integer and textual arguments.
//!
//! Coordinate words (rapids, feeds, arcs, canned cycles, offsets) are
//! rendered by the caller from its floating-point positions and emitted
//! verbatim through [`Post::raw`]; everything else — feed and spindle
//! dedupe, coolant and laser modal tracking, templates, tool changes, the
//! op-cache capture/restore — is decided here.

use vstd::prelude::*;

use crate::gcode::sink::{
    buffered_start, calls_lines, lemma_run_emitted, lemma_stream_equals_buffered,
    lemma_synced_extend, lines_view, program_text, run_calls, sink_step, sink_view, stream_start,
    GcodeSink, SinkCall, StreamWriteFailed,
};
use crate::gcode::{
    dec, push_dec, string_of, template_lines, template_lines_spec, wcs_word_spec,
    CapturedModalState, CoolantState, PostProfile, SpindleDirection, ToolOffset, UnitSystem, Wcs,
};

verus! {

/// Modal state of a `LinuxCNC`-style post: what was last commanded, so
/// repeated commands are not re-emitted.
#[derive(Debug)]
pub struct PostState {
    /// `G90` (true) or `G91` (false) last commanded.
    pub absolute: bool,
    pub last_rate: Option<u32>,
    pub last_speed: Option<u32>,
    pub last_coolant: CoolantState,
    pub last_spindle_dir: Option<SpindleDirection>,
    /// Whether the spindle or beam is believed to be on.
    pub spindle_lit: bool,
    /// Fire the laser with `M4` (GRBL dynamic power) instead of `M3`.
    pub laser_dynamic: bool,
    pub wcs: Wcs,
    pub profile: Option<PostProfile>,
}

/// The `LinuxCNC` post.
pub struct Post {
    pub(crate) state: PostState,
    sink: GcodeSink,
}

// ----- Block texts --------------------------------------------------------

/// The lines of a template when one is configured, else the single
/// built-in line.
pub open spec fn template_or(t: Option<String>, builtin: Seq<char>) -> Seq<Seq<char>> {
    match t {
        Some(s) => template_lines_spec(s@),
        None => seq![builtin],
    }
}

pub open spec fn start_template(p: Option<PostProfile>) -> Option<String> {
    match p {
        Some(p) => p.program_start,
        None => None,
    }
}

pub open spec fn end_template(p: Option<PostProfile>) -> Option<String> {
    match p {
        Some(p) => p.program_end,
        None => None,
    }
}

pub open spec fn tool_template(p: Option<PostProfile>) -> Option<String> {
    match p {
        Some(p) => p.tool_change,
        None => None,
    }
}

pub open spec fn mist_template(p: Option<PostProfile>) -> Option<String> {
    match p {
        Some(p) => p.coolant_mist_on,
        None => None,
    }
}

pub open spec fn flood_template(p: Option<PostProfile>) -> Option<String> {
    match p {
        Some(p) => p.coolant_flood_on,
        None => None,
    }
}

/// The coolant-off template: flood-off when configured, else mist-off.
pub open spec fn coolant_off_template(p: Option<PostProfile>) -> Option<String> {
    match p {
        Some(p) => match p.coolant_flood_off {
            Some(t) => Some(t),
            None => p.coolant_mist_off,
        },
        None => None,
    }
}

pub open spec fn unit_line(u: UnitSystem) -> Seq<char> {
    match u {
        UnitSystem::Mm => "G21"@,
        UnitSystem::Inch => "G20"@,
    }
}

pub open spec fn comp_line(o: ToolOffset) -> Seq<char> {
    match o {
        ToolOffset::NoOffset => "G40"@,
        ToolOffset::Inside => "G42"@,
        ToolOffset::Outside => "G41"@,
        ToolOffset::On => "G40"@,
    }
}

pub open spec fn feed_line(rate: nat) -> Seq<char> {
    "F"@ + dec(rate)
}

pub open spec fn tool_line(n: nat) -> Seq<char> {
    "T"@ + dec(n) + " M6"@
}

/// `M3 S<speed>` / `M4 S<speed>`.
pub open spec fn spindle_line(dir: SpindleDirection, speed: nat) -> Seq<char> {
    match dir {
        SpindleDirection::Cw => "M3 S"@ + dec(speed),
        SpindleDirection::Ccw => "M4 S"@ + dec(speed),
    }
}

pub open spec fn dwell_line(p: nat) -> Seq<char> {
    "G4 P"@ + dec(p)
}

/// The laser fire line: `M4` in dynamic-power mode, else `M3`.
pub open spec fn laser_line(dynamic: bool, power: nat) -> Seq<char> {
    if dynamic {
        "M4 S"@ + dec(power)
    } else {
        "M3 S"@ + dec(power)
    }
}

pub open spec fn tlo_line(h: nat) -> Seq<char> {
    "G43 H"@ + dec(h)
}

/// What a spindle command emits: the spindle line, plus a dwell when
/// `pause > 0`.
pub open spec fn spindle_block(dir: SpindleDirection, speed: nat, pause: nat) -> Seq<Seq<char>> {
    if pause > 0 {
        seq![spindle_line(dir, speed), dwell_line(pause)]
    } else {
        seq![spindle_line(dir, speed)]
    }
}

/// A spindle command re-emits when the speed or the direction changed.
pub open spec fn spindle_needs_emit(st: PostState, dir: SpindleDirection, speed: u32) -> bool {
    st.last_speed != Some(speed) || st.last_spindle_dir != Some(dir)
}

/// `spindle_off` emits unless the spindle is known off and no profile
/// (whose raw templates the tracker cannot see) is active.
pub open spec fn spindle_off_emits(st: PostState) -> bool {
    st.spindle_lit || st.profile is Some
}

/// The modal state a post carries across an op boundary.
pub open spec fn captured(st: PostState) -> CapturedModalState {
    CapturedModalState {
        last_rate: st.last_rate,
        last_speed: st.last_speed,
        last_coolant: st.last_coolant,
        last_spindle_dir: st.last_spindle_dir,
        spindle_lit: st.spindle_lit,
    }
}

/// `st` with the op-boundary modal state replaced by `c`.
pub open spec fn restored(st: PostState, c: CapturedModalState) -> PostState {
    PostState {
        last_rate: c.last_rate,
        last_speed: c.last_speed,
        last_coolant: c.last_coolant,
        last_spindle_dir: c.last_spindle_dir,
        spindle_lit: c.spindle_lit,
        ..st
    }
}

/// The state a fresh post starts in.
pub open spec fn initial_state(st: PostState) -> bool {
    &&& st.absolute == false
    &&& st.last_rate is None
    &&& st.last_speed is None
    &&& st.last_coolant == CoolantState::Unknown
    &&& st.last_spindle_dir is None
    &&& !st.spindle_lit
    &&& !st.laser_dynamic
    &&& st.wcs == Wcs::G54
    &&& st.profile is None
}

/// `new` extends `old` by `block`, with the sink's mode, bookkeeping and
/// streaming synchrony carried over.
pub open spec fn emits(old: Post, new: Post, block: Seq<Seq<char>>) -> bool {
    &&& new.wf()
    &&& new.lines() == old.lines() + block
    &&& new.out().is_streaming() == old.out().is_streaming()
    &&& new.out().op_start() == old.out().op_start()
    &&& new.out().cap() == old.out().cap()
    &&& new.out().failed() == old.out().failed()
    &&& new.out().handed() == old.out().handed()
    &&& old.out().synced() ==> new.out().synced()
}

/// Emitting `x` and then `y` emits `x + y`.
pub proof fn lemma_emits_trans(a: Post, b: Post, c: Post, x: Seq<Seq<char>>, y: Seq<Seq<char>>)
    requires
        emits(a, b, x),
        emits(b, c, y),
    ensures
        emits(a, c, x + y),
{
    assert(a.lines() + x + y =~= a.lines() + (x + y));
}

/// Every emitting call of a post whose sink is in sync is an `Extend` of
/// the sink by the call's block: over any sequence of calls, the sink laws
/// of `crate::gcode::sink` (streamed text equals the buffered program, the
/// per-op tee, deferred write failures) apply to the blocks emitted. Each
/// method's block and next modal state depend on the modal state and its
/// arguments alone, so a streaming and a buffered post fed the same calls
/// emit the same blocks.
pub proof fn lemma_emits_extends_sink(old: Post, new: Post, block: Seq<Seq<char>>)
    requires
        emits(old, new, block),
        old.out().synced(),
    ensures
        sink_view(new.out()) == sink_step(sink_view(old.out()), SinkCall::Extend(block)),
{
    lemma_synced_extend(old.out(), new.out(), block);
}

/// The modal state with the tracked feed, speed and spindle direction
/// forgotten; everything else is kept.
pub open spec fn forget_modal(s: PostState) -> PostState {
    PostState { last_rate: None, last_speed: None, last_spindle_dir: None, ..s }
}

/// Law: once the modal state is forgotten (at an op boundary or after a
/// pause), the next feed and the next spindle command re-emit whatever
/// their values, while coolant, the lit spindle, the distance mode, the
/// laser mode, the work offset and the profile are kept.
pub proof fn lemma_forget_modal_reemits(s: PostState, dir: SpindleDirection, speed: u32, rate: u32)
    ensures
        spindle_needs_emit(forget_modal(s), dir, speed),
        forget_modal(s).last_rate != Some(rate),
        forget_modal(s).last_coolant == s.last_coolant,
        forget_modal(s).spindle_lit == s.spindle_lit,
        forget_modal(s).absolute == s.absolute,
        forget_modal(s).laser_dynamic == s.laser_dynamic,
        forget_modal(s).wcs == s.wcs,
        forget_modal(s).profile == s.profile,
{
}

impl Post {
    pub closed spec fn wf(&self) -> bool {
        self.sink.wf()
    }

    /// Every line emitted so far.
    pub closed spec fn lines(&self) -> Seq<Seq<char>> {
        self.sink.emitted()
    }

    /// The modal state.
    pub closed spec fn st(&self) -> PostState {
        self.state
    }

    /// The output sink.
    pub closed spec fn out(&self) -> GcodeSink {
        self.sink
    }

    /// Room for `n` more lines.
    pub open spec fn room(&self, n: int) -> bool {
        self.lines().len() + n < usize::MAX
    }

    fn fresh_state() -> (st: PostState)
        ensures
            initial_state(st),
    {
        PostState {
            absolute: false,
            last_rate: None,
            last_speed: None,
            last_coolant: CoolantState::Unknown,
            last_spindle_dir: None,
            spindle_lit: false,
            laser_dynamic: false,
            wcs: Wcs::G54,
            profile: None,
        }
    }

    /// A buffered post in its initial state.
    pub fn new() -> (p: Self)
        ensures
            p.wf(),
            initial_state(p.st()),
            p.lines() == Seq::<Seq<char>>::empty(),
            !p.out().is_streaming(),
            p.out().synced(),
            sink_view(p.out()) == buffered_start(),
    {
        Post { state: Self::fresh_state(), sink: GcodeSink::new() }
    }

    /// A post whose output is rendered line by line into a streaming sink
    /// (see [`GcodeSink::streaming`]); the text it hands out is exactly the
    /// text a buffered post finishes with.
    pub fn streaming() -> (p: Self)
        ensures
            p.wf(),
            initial_state(p.st()),
            p.lines() == Seq::<Seq<char>>::empty(),
            p.out().is_streaming(),
            p.out().cap() == crate::gcode::sink::DEFAULT_STREAM_TEE_CAP_LINES,
            p.out().op_start() == 0,
            !p.out().failed(),
            p.out().handed() == Seq::<char>::empty(),
            p.out().synced(),
            sink_view(p.out()) == stream_start(crate::gcode::sink::DEFAULT_STREAM_TEE_CAP_LINES as nat),
    {
        Post { state: Self::fresh_state(), sink: GcodeSink::streaming() }
    }

    /// A streaming post whose per-op tee retains at most `tail_cap` lines.
    pub fn streaming_with_cap(tail_cap: usize) -> (p: Self)
        ensures
            p.wf(),
            initial_state(p.st()),
            p.lines() == Seq::<Seq<char>>::empty(),
            p.out().is_streaming(),
            p.out().cap() == tail_cap,
            p.out().op_start() == 0,
            !p.out().failed(),
            p.out().handed() == Seq::<char>::empty(),
            p.out().synced(),
            sink_view(p.out()) == stream_start(tail_cap as nat),
    {
        Post { state: Self::fresh_state(), sink: GcodeSink::streaming_with_cap(tail_cap) }
    }

    fn write(&mut self, line: String)
        requires
            old(self).wf(),
            old(self).room(1),
        ensures
            emits(*old(self), *final(self), seq![line@]),
            final(self).st() == old(self).st(),
    {
        let ghost l = line@;
        self.sink.push(line);
        proof {
            assert(old(self).lines().push(l) =~= old(self).lines() + seq![l]);
        }
    }

    fn write_block(&mut self, lines: Vec<String>)
        requires
            old(self).wf(),
            old(self).room(lines@.len() as int),
        ensures
            emits(*old(self), *final(self), lines_view(lines@)),
            final(self).st() == old(self).st(),
    {
        self.sink.extend_from_slice(lines.as_slice());
    }

    /// Emit a template's lines when one is given, else the built-in line.
    fn write_template_or(&mut self, t: Option<String>, builtin: String)
        requires
            old(self).wf(),
            old(self).room(template_or(t, builtin@).len() as int),
        ensures
            emits(*old(self), *final(self), template_or(t, builtin@)),
            final(self).st() == old(self).st(),
    {
        match t {
            Some(s) => {
                let ls = template_lines(&s);
                self.write_block(ls);
            },
            None => {
                self.write(builtin);
            },
        }
    }

    /// An empty separator line.
    pub fn separation(&mut self)
        requires
            old(self).wf(),
            old(self).room(1),
        ensures
            emits(*old(self), *final(self), seq![Seq::<char>::empty()]),
            final(self).st() == old(self).st(),
    {
        self.write(String::new());
    }

    /// Emit `cmd` verbatim as one line.
    pub fn raw(&mut self, cmd: &str)
        requires
            old(self).wf(),
            old(self).room(1),
        ensures
            emits(*old(self), *final(self), seq![cmd@]),
            final(self).st() == old(self).st(),
    {
        self.write(string_of(cmd));
    }

    /// `(text)`.
    pub fn comment(&mut self, text: &str)
        requires
            old(self).wf(),
            old(self).room(1),
        ensures
            emits(*old(self), *final(self), seq![seq!['('] + text@ + seq![')']]),
            final(self).st() == old(self).st(),
    {
        let mut s = String::new();
        crate::chars::push_char(&mut s, '(');
        crate::chars::push_str(&mut s, text);
        crate::chars::push_char(&mut s, ')');
        proof {
            assert(s@ =~= seq!['('] + text@ + seq![')']);
        }
        self.write(s);
    }

    /// `G21` (mm) or `G20` (inch).
    pub fn unit(&mut self, unit: UnitSystem)
        requires
            old(self).wf(),
            old(self).room(1),
        ensures
            emits(*old(self), *final(self), seq![unit_line(unit)]),
            final(self).st() == old(self).st(),
    {
        let s = match unit {
            UnitSystem::Mm => string_of("G21"),
            UnitSystem::Inch => string_of("G20"),
        };
        self.write(s);
    }

    /// `G90` (absolute) or `G91` (incremental).
    pub fn absolute(&mut self, active: bool)
        requires
            old(self).wf(),
            old(self).room(1),
        ensures
            emits(
                *old(self),
                *final(self),
                seq![if active { "G90"@ } else { "G91"@ }],
            ),
            final(self).st() == (PostState { absolute: active, ..old(self).st() }),
    {
        self.state.absolute = active;
        if active {
            self.write(string_of("G90"));
        } else {
            self.write(string_of("G91"));
        }
    }

    /// Feed rate `rate` (mm/min) rendered by the caller: in the program's
    /// units and the profile's feed format (`text`; `None` when the
    /// profile drops the feed word). Emitted only when the rate changed
    /// and is not zero, exactly as [`Post::feedrate`] decides.
    pub fn feedrate_rendered(&mut self, rate: u32, text: Option<&str>)
        requires
            old(self).wf(),
            old(self).room(1),
        ensures
            rate == 0 || old(self).st().last_rate == Some(rate) ==> {
                &&& emits(*old(self), *final(self), Seq::empty())
                &&& final(self).st() == old(self).st()
            },
            rate != 0 && old(self).st().last_rate != Some(rate) ==> {
                &&& emits(
                    *old(self),
                    *final(self),
                    match text {
                        Some(t) => seq![t@],
                        None => Seq::<Seq<char>>::empty(),
                    },
                )
                &&& final(self).st() == (PostState { last_rate: Some(rate), ..old(self).st() })
            },
    {
        let same = match self.state.last_rate {
            Some(r) => r == rate,
            None => false,
        };
        if rate == 0 || same {
            proof {
                assert(self.lines() + Seq::<Seq<char>>::empty() =~= self.lines());
            }
            return ;
        }
        match text {
            Some(t) => self.write(string_of(t)),
            None => {
                proof {
                    assert(self.lines() + Seq::<Seq<char>>::empty() =~= self.lines());
                }
            },
        }
        self.state.last_rate = Some(rate);
    }

    /// `F<rate>` on a change of feed rate. A zero rate is never emitted
    /// (controllers halt on `F0`): the modal feed stays as it was.
    pub fn feedrate(&mut self, rate: u32)
        requires
            old(self).wf(),
            old(self).room(1),
        ensures
            rate == 0 || old(self).st().last_rate == Some(rate) ==> {
                &&& emits(*old(self), *final(self), Seq::empty())
                &&& final(self).st() == old(self).st()
            },
            rate != 0 && old(self).st().last_rate != Some(rate) ==> {
                &&& emits(*old(self), *final(self), seq![feed_line(rate as nat)])
                &&& final(self).st() == (PostState { last_rate: Some(rate), ..old(self).st() })
            },
    {
        if rate == 0 {
            proof {
                assert(self.lines() + Seq::<Seq<char>>::empty() =~= self.lines());
            }
            return ;
        }
        let same = match self.state.last_rate {
            Some(r) => r == rate,
            None => false,
        };
        if same {
            proof {
                assert(self.lines() + Seq::<Seq<char>>::empty() =~= self.lines());
            }
            return ;
        }
        let mut s = string_of("F");
        push_dec(&mut s, rate);
        self.write(s);
        self.state.last_rate = Some(rate);
    }

    /// The program header: the profile's start template, else
    /// `(generated by ivaCAM)`.
    pub fn program_start(&mut self)
        requires
            old(self).wf(),
            old(self).room(
                template_or(
                    start_template(old(self).st().profile),
                    "(generated by ivaCAM)"@,
                ).len() as int,
            ),
        ensures
            emits(
                *old(self),
                *final(self),
                template_or(start_template(old(self).st().profile), "(generated by ivaCAM)"@),
            ),
            final(self).st() == old(self).st(),
    {
        let builtin = string_of("(generated by ivaCAM)");
        let t = match &self.state.profile {
            Some(p) => p.program_start.clone(),
            None => None,
        };
        self.write_template_or(t, builtin);
    }

    /// The program trailer: the profile's end template, else `M30`.
    pub fn program_end(&mut self)
        requires
            old(self).wf(),
            old(self).room(template_or(end_template(old(self).st().profile), "M30"@).len() as int),
        ensures
            emits(
                *old(self),
                *final(self),
                template_or(end_template(old(self).st().profile), "M30"@),
            ),
            final(self).st() == old(self).st(),
    {
        let builtin = string_of("M30");
        let t = match &self.state.profile {
            Some(p) => p.program_end.clone(),
            None => None,
        };
        self.write_template_or(t, builtin);
    }

    /// Tool change: the profile's tool-change template, else `T<n> M6`.
    pub fn tool(&mut self, n: u32)
        requires
            old(self).wf(),
            old(self).room(
                template_or(tool_template(old(self).st().profile), tool_line(n as nat)).len() as int,
            ),
        ensures
            emits(
                *old(self),
                *final(self),
                template_or(tool_template(old(self).st().profile), tool_line(n as nat)),
            ),
            final(self).st() == old(self).st(),
    {
        let mut builtin = string_of("T");
        push_dec(&mut builtin, n);
        crate::chars::push_str(&mut builtin, " M6");
        let t = match &self.state.profile {
            Some(p) => p.tool_change.clone(),
            None => None,
        };
        self.write_template_or(t, builtin);
    }

    /// Cutter compensation: `G40` for none/on, `G42` inside, `G41` outside.
    pub fn tool_offsets(&mut self, offset: ToolOffset)
        requires
            old(self).wf(),
            old(self).room(1),
        ensures
            emits(*old(self), *final(self), seq![comp_line(offset)]),
            final(self).st() == old(self).st(),
    {
        let s = match offset {
            ToolOffset::NoOffset => string_of("G40"),
            ToolOffset::Inside => string_of("G42"),
            ToolOffset::Outside => string_of("G41"),
            ToolOffset::On => string_of("G40"),
        };
        self.write(s);
    }

    /// Mist coolant on, only on a change of coolant state: the profile's
    /// template, else `M7`.
    pub fn coolant_mist(&mut self)
        requires
            old(self).wf(),
            old(self).room(template_or(mist_template(old(self).st().profile), "M7"@).len() as int),
        ensures
            old(self).st().last_coolant == CoolantState::Mist ==> {
                &&& emits(*old(self), *final(self), Seq::empty())
                &&& final(self).st() == old(self).st()
            },
            old(self).st().last_coolant != CoolantState::Mist ==> {
                &&& emits(
                    *old(self),
                    *final(self),
                    template_or(mist_template(old(self).st().profile), "M7"@),
                )
                &&& final(self).st() == (PostState {
                    last_coolant: CoolantState::Mist,
                    ..old(self).st()
                })
            },
    {
        if self.state.last_coolant == CoolantState::Mist {
            proof {
                assert(self.lines() + Seq::<Seq<char>>::empty() =~= self.lines());
            }
            return ;
        }
        let t = match &self.state.profile {
            Some(p) => p.coolant_mist_on.clone(),
            None => None,
        };
        self.write_template_or(t, string_of("M7"));
        self.state.last_coolant = CoolantState::Mist;
    }

    /// Flood coolant on, only on a change of coolant state: the profile's
    /// template, else `M8`.
    pub fn coolant_flood(&mut self)
        requires
            old(self).wf(),
            old(self).room(template_or(flood_template(old(self).st().profile), "M8"@).len() as int),
        ensures
            old(self).st().last_coolant == CoolantState::Flood ==> {
                &&& emits(*old(self), *final(self), Seq::empty())
                &&& final(self).st() == old(self).st()
            },
            old(self).st().last_coolant != CoolantState::Flood ==> {
                &&& emits(
                    *old(self),
                    *final(self),
                    template_or(flood_template(old(self).st().profile), "M8"@),
                )
                &&& final(self).st() == (PostState {
                    last_coolant: CoolantState::Flood,
                    ..old(self).st()
                })
            },
    {
        if self.state.last_coolant == CoolantState::Flood {
            proof {
                assert(self.lines() + Seq::<Seq<char>>::empty() =~= self.lines());
            }
            return ;
        }
        let t = match &self.state.profile {
            Some(p) => p.coolant_flood_on.clone(),
            None => None,
        };
        self.write_template_or(t, string_of("M8"));
        self.state.last_coolant = CoolantState::Flood;
    }

    /// Coolant off unless already off (an `Unknown` state still emits, so
    /// a defensive shutdown always goes out): the profile's flood-off
    /// template, else its mist-off template, else `M9`.
    pub fn coolant_off(&mut self)
        requires
            old(self).wf(),
            old(self).room(
                template_or(coolant_off_template(old(self).st().profile), "M9"@).len() as int,
            ),
        ensures
            old(self).st().last_coolant == CoolantState::Off ==> {
                &&& emits(*old(self), *final(self), Seq::empty())
                &&& final(self).st() == old(self).st()
            },
            old(self).st().last_coolant != CoolantState::Off ==> {
                &&& emits(
                    *old(self),
                    *final(self),
                    template_or(coolant_off_template(old(self).st().profile), "M9"@),
                )
                &&& final(self).st() == (PostState {
                    last_coolant: CoolantState::Off,
                    ..old(self).st()
                })
            },
    {
        if self.state.last_coolant == CoolantState::Off {
            proof {
                assert(self.lines() + Seq::<Seq<char>>::empty() =~= self.lines());
            }
            return ;
        }
        let t = match &self.state.profile {
            Some(p) => match &p.coolant_flood_off {
                Some(f) => Some(f.clone()),
                None => p.coolant_mist_off.clone(),
            },
            None => None,
        };
        self.write_template_or(t, string_of("M9"));
        self.state.last_coolant = CoolantState::Off;
    }

    /// `M5`, unless the spindle is known to be off and no profile is
    /// active. Clears the tracked speed and direction so the next spindle
    /// command re-asserts them.
    pub fn spindle_off(&mut self)
        requires
            old(self).wf(),
            old(self).room(1),
        ensures
            !spindle_off_emits(old(self).st()) ==> {
                &&& emits(*old(self), *final(self), Seq::empty())
                &&& final(self).st() == old(self).st()
            },
            spindle_off_emits(old(self).st()) ==> {
                &&& emits(*old(self), *final(self), seq!["M5"@])
                &&& final(self).st() == (PostState {
                    spindle_lit: false,
                    last_speed: None,
                    last_spindle_dir: None,
                    ..old(self).st()
                })
            },
    {
        if !self.state.spindle_lit && self.state.profile.is_none() {
            proof {
                assert(self.lines() + Seq::<Seq<char>>::empty() =~= self.lines());
            }
            return ;
        }
        self.write(string_of("M5"));
        self.state.spindle_lit = false;
        self.state.last_speed = None;
        self.state.last_spindle_dir = None;
    }

    fn spindle_on(&mut self, dir: SpindleDirection, speed: u32, pause: u32)
        requires
            old(self).wf(),
            old(self).room(2),
        ensures
            !spindle_needs_emit(old(self).st(), dir, speed) ==> {
                &&& emits(*old(self), *final(self), Seq::empty())
                &&& final(self).st() == (PostState { spindle_lit: true, ..old(self).st() })
            },
            spindle_needs_emit(old(self).st(), dir, speed) ==> {
                &&& emits(*old(self), *final(self), spindle_block(dir, speed as nat, pause as nat))
                &&& final(self).st() == (PostState {
                    spindle_lit: true,
                    last_speed: Some(speed),
                    last_spindle_dir: Some(dir),
                    ..old(self).st()
                })
            },
    {
        self.state.spindle_lit = true;
        let same_speed = match self.state.last_speed {
            Some(s) => s == speed,
            None => false,
        };
        let same_dir = match self.state.last_spindle_dir {
            Some(d) => d == dir,
            None => false,
        };
        if same_speed && same_dir {
            proof {
                assert(self.lines() + Seq::<Seq<char>>::empty() =~= self.lines());
            }
            return ;
        }
        let mut s = match dir {
            SpindleDirection::Cw => string_of("M3 S"),
            SpindleDirection::Ccw => string_of("M4 S"),
        };
        push_dec(&mut s, speed);
        let ghost mid = *self;
        self.write(s);
        self.state.last_speed = Some(speed);
        self.state.last_spindle_dir = Some(dir);
        if pause > 0 {
            let mut d = string_of("G4 P");
            push_dec(&mut d, pause);
            self.write(d);
            proof {
                assert(old(self).lines() + seq![spindle_line(dir, speed as nat)] + seq![
                    dwell_line(pause as nat),
                ] =~= old(self).lines() + spindle_block(dir, speed as nat, pause as nat));
            }
        } else {
            proof {
                assert(seq![spindle_line(dir, speed as nat)] =~= spindle_block(
                    dir,
                    speed as nat,
                    pause as nat,
                ));
            }
        }
    }

    /// Spindle clockwise: `M3 S<speed>` (then `G4 P<pause>` when
    /// `pause > 0`) when the speed or the direction changed.
    pub fn spindle_cw(&mut self, speed: u32, pause: u32)
        requires
            old(self).wf(),
            old(self).room(2),
        ensures
            !spindle_needs_emit(old(self).st(), SpindleDirection::Cw, speed) ==> {
                &&& emits(*old(self), *final(self), Seq::empty())
                &&& final(self).st() == (PostState { spindle_lit: true, ..old(self).st() })
            },
            spindle_needs_emit(old(self).st(), SpindleDirection::Cw, speed) ==> {
                &&& emits(
                    *old(self),
                    *final(self),
                    spindle_block(SpindleDirection::Cw, speed as nat, pause as nat),
                )
                &&& final(self).st() == (PostState {
                    spindle_lit: true,
                    last_speed: Some(speed),
                    last_spindle_dir: Some(SpindleDirection::Cw),
                    ..old(self).st()
                })
            },
    {
        self.spindle_on(SpindleDirection::Cw, speed, pause);
    }

    /// Spindle counter-clockwise: `M4 S<speed>` (then `G4 P<pause>` when
    /// `pause > 0`) when the speed or the direction changed.
    pub fn spindle_ccw(&mut self, speed: u32, pause: u32)
        requires
            old(self).wf(),
            old(self).room(2),
        ensures
            !spindle_needs_emit(old(self).st(), SpindleDirection::Ccw, speed) ==> {
                &&& emits(*old(self), *final(self), Seq::empty())
                &&& final(self).st() == (PostState { spindle_lit: true, ..old(self).st() })
            },
            spindle_needs_emit(old(self).st(), SpindleDirection::Ccw, speed) ==> {
                &&& emits(
                    *old(self),
                    *final(self),
                    spindle_block(SpindleDirection::Ccw, speed as nat, pause as nat),
                )
                &&& final(self).st() == (PostState {
                    spindle_lit: true,
                    last_speed: Some(speed),
                    last_spindle_dir: Some(SpindleDirection::Ccw),
                    ..old(self).st()
                })
            },
    {
        self.spindle_on(SpindleDirection::Ccw, speed, pause);
    }

    fn laser_fire(&mut self, power: u32)
        requires
            old(self).wf(),
            old(self).room(1),
        ensures
            old(self).st().last_speed == Some(power) ==> {
                &&& emits(*old(self), *final(self), Seq::empty())
                &&& final(self).st() == (PostState { spindle_lit: true, ..old(self).st() })
            },
            old(self).st().last_speed != Some(power) ==> {
                &&& emits(
                    *old(self),
                    *final(self),
                    seq![laser_line(old(self).st().laser_dynamic, power as nat)],
                )
                &&& final(self).st() == (PostState {
                    spindle_lit: true,
                    last_speed: Some(power),
                    ..old(self).st()
                })
            },
    {
        self.state.spindle_lit = true;
        let same = match self.state.last_speed {
            Some(s) => s == power,
            None => false,
        };
        if same {
            proof {
                assert(self.lines() + Seq::<Seq<char>>::empty() =~= self.lines());
            }
            return ;
        }
        let mut s = if self.state.laser_dynamic {
            string_of("M4 S")
        } else {
            string_of("M3 S")
        };
        push_dec(&mut s, power);
        self.write(s);
        self.state.last_speed = Some(power);
    }

    /// Fire the laser at `power` (`M3 S<power>`, or `M4` in dynamic-power
    /// mode) unless it already runs at that power.
    pub fn laser_on(&mut self, power: u32)
        requires
            old(self).wf(),
            old(self).room(1),
        ensures
            old(self).st().last_speed == Some(power) ==> {
                &&& emits(*old(self), *final(self), Seq::empty())
                &&& final(self).st() == (PostState { spindle_lit: true, ..old(self).st() })
            },
            old(self).st().last_speed != Some(power) ==> {
                &&& emits(
                    *old(self),
                    *final(self),
                    seq![laser_line(old(self).st().laser_dynamic, power as nat)],
                )
                &&& final(self).st() == (PostState {
                    spindle_lit: true,
                    last_speed: Some(power),
                    ..old(self).st()
                })
            },
    {
        self.laser_fire(power);
    }

    /// Arm the laser at zero power before a rapid (`M3 S0` / `M4 S0`)
    /// unless it is already armed at zero.
    pub fn laser_arm(&mut self)
        requires
            old(self).wf(),
            old(self).room(1),
        ensures
            old(self).st().last_speed == Some(0u32) ==> {
                &&& emits(*old(self), *final(self), Seq::empty())
                &&& final(self).st() == (PostState { spindle_lit: true, ..old(self).st() })
            },
            old(self).st().last_speed != Some(0u32) ==> {
                &&& emits(
                    *old(self),
                    *final(self),
                    seq![laser_line(old(self).st().laser_dynamic, 0)],
                )
                &&& final(self).st() == (PostState {
                    spindle_lit: true,
                    last_speed: Some(0u32),
                    ..old(self).st()
                })
            },
    {
        self.laser_fire(0);
    }

    /// `M5`: drop the beam, and forget the power so the next fire
    /// re-emits it.
    pub fn laser_off(&mut self)
        requires
            old(self).wf(),
            old(self).room(1),
        ensures
            emits(*old(self), *final(self), seq!["M5"@]),
            final(self).st() == (PostState {
                spindle_lit: false,
                last_speed: None,
                ..old(self).st()
            }),
    {
        self.write(string_of("M5"));
        self.state.spindle_lit = false;
        self.state.last_speed = None;
    }

    /// Record the reference tool's probed trigger height in a global
    /// named parameter.
    pub fn store_probed_z_baseline(&mut self)
        requires
            old(self).wf(),
            old(self).room(1),
        ensures
            emits(*old(self), *final(self), seq!["#<_ivac_tlref> = #5063"@]),
            final(self).st() == old(self).st(),
    {
        self.write(string_of("#<_ivac_tlref> = #5063"));
    }

    /// Apply the probed tool-length delta against the stored reference as
    /// a dynamic tool-length offset.
    pub fn apply_probed_tool_length(&mut self)
        requires
            old(self).wf(),
            old(self).room(1),
        ensures
            emits(*old(self), *final(self), seq!["G43.1 Z[#5063 - #<_ivac_tlref>]"@]),
            final(self).st() == old(self).st(),
    {
        self.write(string_of("G43.1 Z[#5063 - #<_ivac_tlref>]"));
    }

    /// `G43 H<h>`: apply the tool table's length offset `h`.
    pub fn tool_length_offset(&mut self, h: u32)
        requires
            old(self).wf(),
            old(self).room(1),
        ensures
            emits(*old(self), *final(self), seq![tlo_line(h as nat)]),
            final(self).st() == old(self).st(),
    {
        let mut s = string_of("G43 H");
        push_dec(&mut s, h);
        self.write(s);
    }

    /// `G49`: cancel tool-length compensation.
    pub fn tool_length_offset_off(&mut self)
        requires
            old(self).wf(),
            old(self).room(1),
        ensures
            emits(*old(self), *final(self), seq!["G49"@]),
            final(self).st() == old(self).st(),
    {
        self.write(string_of("G49"));
    }

    /// `G17`.
    pub fn plane_xy(&mut self)
        requires
            old(self).wf(),
            old(self).room(1),
        ensures
            emits(*old(self), *final(self), seq!["G17"@]),
            final(self).st() == old(self).st(),
    {
        self.write(string_of("G17"));
    }

    /// `G40`.
    pub fn cutter_comp_off(&mut self)
        requires
            old(self).wf(),
            old(self).room(1),
        ensures
            emits(*old(self), *final(self), seq!["G40"@]),
            final(self).st() == old(self).st(),
    {
        self.write(string_of("G40"));
    }

    /// `G94`.
    pub fn feed_per_minute(&mut self)
        requires
            old(self).wf(),
            old(self).room(1),
        ensures
            emits(*old(self), *final(self), seq!["G94"@]),
            final(self).st() == old(self).st(),
    {
        self.write(string_of("G94"));
    }

    /// `G80`.
    pub fn cancel_canned_cycle(&mut self)
        requires
            old(self).wf(),
            old(self).room(1),
        ensures
            emits(*old(self), *final(self), seq!["G80"@]),
            final(self).st() == old(self).st(),
    {
        self.write(string_of("G80"));
    }

    /// Select and pin the work coordinate system.
    pub fn select_wcs(&mut self, wcs: Wcs)
        requires
            old(self).wf(),
            old(self).room(1),
        ensures
            emits(*old(self), *final(self), seq![wcs_word_spec(wcs)]),
            final(self).st() == (PostState { wcs, ..old(self).st() }),
    {
        self.state.wcs = wcs;
        self.write(wcs.gcode_word());
    }

    /// Install (or clear) the profile whose templates replace the
    /// built-in blocks.
    pub fn set_post_profile(&mut self, profile: Option<&PostProfile>)
        requires
            old(self).wf(),
        ensures
            emits(*old(self), *final(self), Seq::empty()),
            final(self).st() == (PostState {
                profile: match profile {
                    Some(p) => Some(*p),
                    None => None,
                },
                ..old(self).st()
            }),
    {
        self.state.profile = match profile {
            Some(p) => Some(p.clone()),
            None => None,
        };
        proof {
            assert(self.lines() + Seq::<Seq<char>>::empty() =~= self.lines());
        }
    }

    /// The finished program of a buffered post (lines joined by `\n`, plus a
    /// trailing `\n`); empty for a streaming post.
    pub fn finish(&self) -> (r: String)
        ensures
            r@ == (if self.out().is_streaming() {
                Seq::<char>::empty()
            } else {
                program_text(self.lines())
            }),
    {
        self.sink.finish()
    }

    /// Hand over the streamed text not yet taken (see
    /// [`GcodeSink::take_output`]).
    pub fn take_output(&mut self) -> (r: String)
        requires
            old(self).wf(),
        ensures
            final(self).wf(),
            final(self).lines() == old(self).lines(),
            final(self).st() == old(self).st(),
            final(self).out().is_streaming() == old(self).out().is_streaming(),
            final(self).out().op_start() == old(self).out().op_start(),
            final(self).out().cap() == old(self).out().cap(),
            final(self).out().failed() == old(self).out().failed(),
            final(self).out().text() == old(self).out().text(),
            old(self).out().is_streaming() && !old(self).out().failed() ==> {
                &&& final(self).out().handed() == old(self).out().handed() + r@
                &&& final(self).out().handed() == old(self).out().text()
            },
            old(self).out().failed() || !old(self).out().is_streaming() ==> {
                &&& r@ == Seq::<char>::empty()
                &&& final(self).out().handed() == old(self).out().handed()
            },
            sink_view(final(self).out()) == sink_step(sink_view(old(self).out()), SinkCall::Take),
    {
        self.sink.take_output()
    }

    /// Report that the caller's writer failed (see
    /// [`GcodeSink::record_write_failure`]).
    pub fn record_write_failure(&mut self)
        requires
            old(self).wf(),
        ensures
            final(self).wf(),
            final(self).lines() == old(self).lines(),
            final(self).st() == old(self).st(),
            final(self).out().is_streaming() == old(self).out().is_streaming(),
            final(self).out().op_start() == old(self).out().op_start(),
            final(self).out().cap() == old(self).out().cap(),
            final(self).out().failed() == old(self).out().is_streaming(),
            final(self).out().text() == old(self).out().text(),
            final(self).out().handed() == old(self).out().handed(),
            sink_view(final(self).out()) == sink_step(
                sink_view(old(self).out()),
                SinkCall::WriteFailed,
            ),
    {
        self.sink.record_write_failure();
    }

    /// Finalize a streaming post: the rest of the text with the trailing
    /// newline, or the recorded write failure. For a streaming post that
    /// stayed in sync, everything handed out is the buffered program text
    /// of the same lines.
    pub fn finish_stream(&mut self) -> (r: Result<String, StreamWriteFailed>)
        requires
            old(self).wf(),
        ensures
            final(self).wf(),
            final(self).lines() == old(self).lines(),
            final(self).st() == old(self).st(),
            final(self).out().is_streaming() == old(self).out().is_streaming(),
            !old(self).out().is_streaming() ==> r is Ok && r->Ok_0@ == Seq::<char>::empty(),
            old(self).out().is_streaming() ==> (r is Err <==> old(self).out().failed()),
            old(self).out().is_streaming() && !old(self).out().failed() ==> {
                &&& r is Ok
                &&& final(self).out().handed() == old(self).out().handed() + r->Ok_0@
                &&& old(self).out().synced() ==> old(self).out().handed() + r->Ok_0@
                    == program_text(old(self).lines())
            },
    {
        self.sink.finish_stream()
    }

    /// Number of lines emitted.
    pub fn out_lines_count(&self) -> (n: usize)
        requires
            self.wf(),
        ensures
            n == self.lines().len(),
    {
        self.sink.len()
    }

    /// The emitted lines from `start` on (see [`GcodeSink::clone_from`]).
    pub fn out_lines_clone_from(&self, start: usize) -> (r: Vec<String>)
        requires
            self.wf(),
        ensures
            lines_view(r@) == (if start >= self.lines().len() || self.out().overflowed_spec() {
                Seq::<Seq<char>>::empty()
            } else if start >= self.out().op_start() {
                self.lines().subrange(start as int, self.lines().len() as int)
            } else {
                self.lines().subrange(self.out().op_start() as int, self.lines().len() as int)
            }),
    {
        self.sink.clone_from(start)
    }

    /// Splice pre-rendered lines in verbatim (an op-cache replay).
    pub fn out_extend_lines(&mut self, lines: &[String])
        requires
            old(self).wf(),
            old(self).room(lines@.len() as int),
        ensures
            emits(*old(self), *final(self), lines_view(lines@)),
            final(self).st() == old(self).st(),
    {
        self.sink.extend_from_slice(lines);
    }

    /// Mark an op boundary in the output (see [`GcodeSink::checkpoint`]).
    pub fn checkpoint(&mut self)
        requires
            old(self).wf(),
        ensures
            final(self).wf(),
            old(self).out().synced() ==> final(self).out().synced(),
            final(self).lines() == old(self).lines(),
            final(self).st() == old(self).st(),
            final(self).out().is_streaming() == old(self).out().is_streaming(),
            final(self).out().op_start() == (if old(self).out().is_streaming() {
                old(self).lines().len()
            } else {
                0
            }),
            final(self).out().cap() == old(self).out().cap(),
            final(self).out().failed() == old(self).out().failed(),
            final(self).out().text() == old(self).out().text(),
            final(self).out().handed() == old(self).out().handed(),
            sink_view(final(self).out()) == sink_step(sink_view(old(self).out()), SinkCall::Checkpoint),
    {
        self.sink.checkpoint();
    }

    /// Whether the current op overflowed the streaming tee.
    pub fn out_op_overflowed(&self) -> (b: bool)
        requires
            self.wf(),
        ensures
            b == self.out().overflowed_spec(),
    {
        self.sink.op_overflowed()
    }

    /// Forget the tracked feed, speed and spindle direction so the next
    /// commands re-emit them (after a pause). Coolant is kept.
    pub fn reset_state(&mut self)
        requires
            old(self).wf(),
        ensures
            emits(*old(self), *final(self), Seq::empty()),
            final(self).st() == forget_modal(old(self).st()),
            final(self).st().last_rate is None,
            final(self).st().last_speed is None,
            final(self).st().last_spindle_dir is None,
    {
        self.state.last_rate = None;
        self.state.last_speed = None;
        self.state.last_spindle_dir = None;
        proof {
            assert(self.lines() + Seq::<Seq<char>>::empty() =~= self.lines());
        }
    }

    /// The modal state to carry across an op boundary.
    pub fn capture_state(&self) -> (c: CapturedModalState)
        ensures
            c == captured(self.st()),
    {
        CapturedModalState {
            last_rate: self.state.last_rate,
            last_speed: self.state.last_speed,
            last_coolant: self.state.last_coolant,
            last_spindle_dir: self.state.last_spindle_dir,
            spindle_lit: self.state.spindle_lit,
        }
    }

    /// Restore a captured op-boundary modal state.
    pub fn restore_state(&mut self, c: &CapturedModalState)
        requires
            old(self).wf(),
        ensures
            emits(*old(self), *final(self), Seq::empty()),
            final(self).st() == restored(old(self).st(), *c),
    {
        self.state.last_rate = c.last_rate;
        self.state.last_speed = c.last_speed;
        self.state.last_coolant = c.last_coolant;
        self.state.last_spindle_dir = c.last_spindle_dir;
        self.state.spindle_lit = c.spindle_lit;
        proof {
            assert(self.lines() + Seq::<Seq<char>>::empty() =~= self.lines());
        }
    }

    /// The active profile.
    pub(crate) fn profile(&self) -> (r: &Option<PostProfile>)
        ensures
            *r == self.st().profile,
    {
        &self.state.profile
    }

    /// Switch dynamic-power (`M4`) laser firing on or off.
    pub(crate) fn set_laser_dynamic(&mut self, dynamic: bool)
        requires
            old(self).wf(),
        ensures
            emits(*old(self), *final(self), Seq::empty()),
            final(self).st() == (PostState { laser_dynamic: dynamic, ..old(self).st() }),
    {
        self.state.laser_dynamic = dynamic;
        proof {
            assert(self.lines() + Seq::<Seq<char>>::empty() =~= self.lines());
        }
    }

    /// The active work coordinate system.
    pub fn active_wcs(&self) -> (w: Wcs)
        ensures
            w == self.st().wcs,
    {
        self.state.wcs
    }
}

impl Default for Post {
    /// A buffered post in its initial state.
    fn default() -> (p: Self)
        ensures
            p.wf(),
            initial_state(p.st()),
            p.lines() == Seq::<Seq<char>>::empty(),
            !p.out().is_streaming(),
            p.out().synced(),
    {
        Post::new()
    }
}

/// Law: restoring a captured op-boundary state restores exactly what was
/// captured — replaying an op from the cache starts from the same modal
/// state the live emitter ended it with, and nothing else changes.
pub proof fn lemma_restore_of_capture(st: PostState, other: PostState)
    ensures
        restored(st, captured(st)) == st,
        captured(restored(other, captured(st))) == captured(st),
{
}

// ----- Runs of calls ----------------------------------------------------------

/// A run of a post through calls: `ps[t + 1]` is `ps[t]` after one call
/// whose effect on the output is the sink call `cs[t]`. Every emitting
/// method of an in-sync post is an `Extend` by its block
/// ([`lemma_emits_extends_sink`]); `checkpoint`, `take_output` and
/// `record_write_failure` are `Checkpoint`, `Take` and `WriteFailed`.
pub open spec fn post_trace(ps: Seq<Post>, cs: Seq<SinkCall>) -> bool {
    &&& ps.len() == cs.len() + 1
    &&& forall|t: int|
        0 <= t < cs.len() ==> sink_view(ps[t + 1].out()) == sink_step(
            sink_view(ps[t].out()),
            #[trigger] cs[t],
        )
}

/// Along a run, the output is the sink calls run from the first post's.
pub proof fn lemma_post_trace_runs(ps: Seq<Post>, cs: Seq<SinkCall>)
    requires
        post_trace(ps, cs),
    ensures
        sink_view(ps.last().out()) == run_calls(sink_view(ps[0].out()), cs),
    decreases cs.len(),
{
    if cs.len() > 0 {
        let rest = ps.drop_first();
        let rcs = cs.drop_first();
        assert(sink_view(ps[1].out()) == sink_step(sink_view(ps[0].out()), cs[0]));
        assert forall|t: int| 0 <= t < rcs.len() implies sink_view(rest[t + 1].out())
            == sink_step(sink_view(rest[t].out()), #[trigger] rcs[t]) by {
            assert(rcs[t] == cs[t + 1]);
            assert(rest[t + 1] == ps[t + 2] && rest[t] == ps[t + 1]);
        }
        lemma_post_trace_runs(rest, rcs);
        assert(rest.last() == ps.last());
    }
}

/// Law: a streaming post hands out the same program a buffered post
/// finishes with. Run the same calls (no write failure among them) from a
/// new buffered post and from a new streaming post of any per-op cap: both
/// end with the same lines, the streaming one still in sync and not failed,
/// and what it has handed out, the rest it holds (what `take_output` or
/// `finish_stream` hands out next) and the trailing newline make up the
/// buffered post's `finish` text.
pub proof fn lemma_post_stream_equals_buffered(a: Seq<Post>, b: Seq<Post>, cs: Seq<SinkCall>)
    requires
        post_trace(a, cs),
        post_trace(b, cs),
        sink_view(a[0].out()) == buffered_start(),
        sink_view(b[0].out()) == stream_start(b[0].out().cap()),
        forall|i: int| 0 <= i < cs.len() ==> !(#[trigger] cs[i] is WriteFailed),
    ensures
        ({
            let fa = a.last();
            let fb = b.last();
            let h = fb.out().handed();
            let t = fb.out().text();
            &&& fb.lines() == fa.lines()
            &&& fa.lines() == calls_lines(cs)
            &&& !fa.out().is_streaming()
            &&& fb.out().is_streaming()
            &&& !fb.out().failed()
            &&& fb.out().synced()
            &&& h.len() <= t.len()
            &&& h + t.subrange(h.len() as int, t.len() as int) + seq!['\n'] == program_text(
                fa.lines(),
            )
        }),
{
    lemma_post_trace_runs(a, cs);
    lemma_post_trace_runs(b, cs);
    lemma_stream_equals_buffered(b[0].out().cap(), cs);
    lemma_run_emitted(buffered_start(), cs);
    lemma_run_emitted(stream_start(b[0].out().cap()), cs);
    assert(Seq::<Seq<char>>::empty() + calls_lines(cs) =~= calls_lines(cs));
}

} // verus!
