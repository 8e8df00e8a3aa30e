//! HPGL post-processor: pen-up/pen-down statements for plotters and drag
//! knives, in plotter units (40 per mm). Positions arrive already rounded
//! to plotter units; a missing axis falls back to the last position.

use vstd::prelude::*;

use crate::chars::push_char;
use crate::gcode::dec;
use crate::gcode::push_dec;
use crate::gcode::sink::{lines_view, GcodeSink};
use crate::gcode::string_of;

verus! {

/// The plotter velocity (`VS`, integer cm/s) for a feed of `rate` mm/min:
/// `rate / 600` rounded to the nearest integer (halves up), at least 1.
pub open spec fn vs_of(rate: nat) -> nat {
    let v = (rate + 300) / 600;
    if v < 1 {
        1
    } else {
        v
    }
}

/// The decimal rendering of a signed integer.
pub open spec fn idec(v: int) -> Seq<char> {
    if v < 0 {
        seq!['-'] + dec((-v) as nat)
    } else {
        dec(v as nat)
    }
}

/// `PA<x>,<y>;`.
pub open spec fn pa_line(x: int, y: int) -> Seq<char> {
    "PA"@ + idec(x) + seq![','] + idec(y) + seq![';']
}

/// `s` with a newline after every `;`.
pub open spec fn break_semis(s: Seq<char>) -> Seq<char>
    decreases s.len(),
{
    if s.len() == 0 {
        Seq::empty()
    } else {
        break_semis(s.drop_last()) + if s.last() == ';' {
            seq![';', '\n']
        } else {
            seq![s.last()]
        }
    }
}

/// One buffered entry as listed: one statement per line, plus a line for
/// a tail that is not `;`-terminated.
pub open spec fn listed_entry(s: Seq<char>) -> Seq<char> {
    if s.len() > 0 && s.last() != ';' {
        break_semis(s) + seq!['\n']
    } else {
        break_semis(s)
    }
}

pub open spec fn listed_entries(ls: Seq<Seq<char>>) -> Seq<char>
    decreases ls.len(),
{
    if ls.len() == 0 {
        Seq::empty()
    } else {
        listed_entries(ls.drop_last()) + listed_entry(ls.last())
    }
}

/// The finished HPGL listing: every statement on its own line; an empty
/// listing is a lone newline.
pub open spec fn hpgl_listing(ls: Seq<Seq<char>>) -> Seq<char> {
    if listed_entries(ls).len() == 0 {
        seq!['\n']
    } else {
        listed_entries(ls)
    }
}

/// The position a move goes to: each given axis, else the last one.
pub open spec fn target(given: Option<i64>, last: Option<i64>) -> Option<i64> {
    match given {
        Some(v) => Some(v),
        None => last,
    }
}

/// The `PA` line of a move, when both axes are known.
pub open spec fn pa_block(x: Option<i64>, y: Option<i64>) -> Seq<Seq<char>> {
    match (x, y) {
        (Some(a), Some(b)) => seq![pa_line(a as int, b as int)],
        _ => Seq::empty(),
    }
}

/// The HPGL post.
pub struct Post {
    sink: GcodeSink,
    pen_down: bool,
    last_x: Option<i64>,
    last_y: Option<i64>,
    /// Last emitted plotter velocity.
    last_vs: Option<u32>,
}

impl Post {
    pub closed spec fn wf(&self) -> bool {
        self.sink.wf() && !self.sink.is_streaming() && self.sink.op_start() == 0
    }

    /// Every statement group emitted so far.
    pub closed spec fn lines(&self) -> Seq<Seq<char>> {
        self.sink.emitted()
    }

    pub closed spec fn is_pen_down(&self) -> bool {
        self.pen_down
    }

    pub closed spec fn last_pos(&self) -> (Option<i64>, Option<i64>) {
        (self.last_x, self.last_y)
    }

    pub closed spec fn last_velocity(&self) -> Option<u32> {
        self.last_vs
    }

    pub open spec fn room(&self, n: int) -> bool {
        self.lines().len() + n < usize::MAX
    }

    /// Pen up, no position, no velocity, nothing emitted.
    pub fn new() -> (p: Self)
        ensures
            p.wf(),
            p.lines() == Seq::<Seq<char>>::empty(),
            !p.is_pen_down(),
            p.last_pos() == (None::<i64>, None::<i64>),
            p.last_velocity() is None,
    {
        Post { sink: GcodeSink::new(), pen_down: false, last_x: None, last_y: None, last_vs: None }
    }

    fn write(&mut self, s: String)
        requires
            old(self).wf(),
            old(self).room(1),
        ensures
            final(self).wf(),
            final(self).lines() == old(self).lines().push(s@),
            final(self).is_pen_down() == old(self).is_pen_down(),
            final(self).last_pos() == old(self).last_pos(),
            final(self).last_velocity() == old(self).last_velocity(),
    {
        self.sink.push(s);
    }

    /// `VS<v>;` for the velocity of `rate` mm/min (see [`vs_of`]) when it
    /// differs from the last one emitted; a zero rate leaves the plotter's
    /// velocity as it is.
    pub fn feedrate(&mut self, rate: u32)
        requires
            old(self).wf(),
            old(self).room(1),
        ensures
            final(self).wf(),
            final(self).is_pen_down() == old(self).is_pen_down(),
            final(self).last_pos() == old(self).last_pos(),
            rate == 0 || old(self).last_velocity() == Some(vs_of(rate as nat) as u32) ==> {
                &&& final(self).lines() == old(self).lines()
                &&& final(self).last_velocity() == old(self).last_velocity()
            },
            rate != 0 && old(self).last_velocity() != Some(vs_of(rate as nat) as u32) ==> {
                &&& final(self).lines() == old(self).lines().push(
                    "VS"@ + dec(vs_of(rate as nat)) + seq![';'],
                )
                &&& final(self).last_velocity() == Some(vs_of(rate as nat) as u32)
            },
    {
        if rate == 0 {
            return ;
        }
        let q: u64 = (rate as u64 + 300) / 600;
        let vs: u32 = if q < 1 {
            1
        } else {
            q as u32
        };
        proof {
            assert(vs == vs_of(rate as nat));
        }
        let same = match self.last_vs {
            Some(v) => v == vs,
            None => false,
        };
        if same {
            return ;
        }
        let mut s = string_of("VS");
        push_dec(&mut s, vs);
        push_char(&mut s, ';');
        proof {
            assert(s@ =~= "VS"@ + dec(vs_of(rate as nat)) + seq![';']);
        }
        self.write(s);
        self.last_vs = Some(vs);
    }

    /// `IN;SP1;`: initialize and select pen 1.
    pub fn program_start(&mut self)
        requires
            old(self).wf(),
            old(self).room(1),
        ensures
            final(self).wf(),
            final(self).lines() == old(self).lines().push("IN;SP1;"@),
            final(self).is_pen_down() == old(self).is_pen_down(),
            final(self).last_pos() == old(self).last_pos(),
            final(self).last_velocity() == old(self).last_velocity(),
    {
        self.write(string_of("IN;SP1;"));
    }

    /// `PU;SP0;IN;`: pen up, put the pen away, reinitialize.
    pub fn program_end(&mut self)
        requires
            old(self).wf(),
            old(self).room(1),
        ensures
            final(self).wf(),
            final(self).lines() == old(self).lines().push("PU;SP0;IN;"@),
            final(self).is_pen_down() == old(self).is_pen_down(),
            final(self).last_pos() == old(self).last_pos(),
            final(self).last_velocity() == old(self).last_velocity(),
    {
        self.write(string_of("PU;SP0;IN;"));
    }

    fn write_pa(&mut self, x: i64, y: i64)
        requires
            old(self).wf(),
            old(self).room(1),
        ensures
            final(self).wf(),
            final(self).lines() == old(self).lines().push(pa_line(x as int, y as int)),
            final(self).is_pen_down() == old(self).is_pen_down(),
            final(self).last_pos() == (Some(x), Some(y)),
            final(self).last_velocity() == old(self).last_velocity(),
    {
        let mut s = string_of("PA");
        push_idec(&mut s, x);
        push_char(&mut s, ',');
        push_idec(&mut s, y);
        push_char(&mut s, ';');
        proof {
            assert(s@ =~= pa_line(x as int, y as int));
        }
        self.write(s);
        self.last_x = Some(x);
        self.last_y = Some(y);
    }

    /// Pen-up move to `(x, y)` in plotter units; a missing axis keeps its
    /// last position, and nothing moves while either axis is unknown.
    pub fn move_to_plu(&mut self, x: Option<i64>, y: Option<i64>)
        requires
            old(self).wf(),
            old(self).room(2),
        ensures
            final(self).wf(),
            !final(self).is_pen_down(),
            final(self).last_velocity() == old(self).last_velocity(),
            final(self).lines() == old(self).lines() + (if old(self).is_pen_down() {
                seq!["PU;"@]
            } else {
                Seq::empty()
            }) + pa_block(target(x, old(self).last_pos().0), target(y, old(self).last_pos().1)),
            final(self).last_pos() == (match (
                target(x, old(self).last_pos().0),
                target(y, old(self).last_pos().1),
            ) {
                (Some(a), Some(b)) => (Some(a), Some(b)),
                _ => old(self).last_pos(),
            }),
    {
        let ghost l0 = self.lines();
        if self.pen_down {
            self.write(string_of("PU;"));
            self.pen_down = false;
        }
        let ghost l1 = self.lines();
        proof {
            assert(l1 == l0 + (if old(self).is_pen_down() {
                seq!["PU;"@]
            } else {
                Seq::<Seq<char>>::empty()
            }));
        }
        self.pa_to(x, y);
    }

    /// Pen-down move to `(x, y)` in plotter units (the pen is lowered
    /// first if it is up); a missing axis keeps its last position.
    pub fn linear_plu(&mut self, x: Option<i64>, y: Option<i64>)
        requires
            old(self).wf(),
            old(self).room(2),
        ensures
            final(self).wf(),
            final(self).is_pen_down(),
            final(self).last_velocity() == old(self).last_velocity(),
            final(self).lines() == old(self).lines() + (if !old(self).is_pen_down() {
                seq!["PD;"@]
            } else {
                Seq::empty()
            }) + pa_block(target(x, old(self).last_pos().0), target(y, old(self).last_pos().1)),
            final(self).last_pos() == (match (
                target(x, old(self).last_pos().0),
                target(y, old(self).last_pos().1),
            ) {
                (Some(a), Some(b)) => (Some(a), Some(b)),
                _ => old(self).last_pos(),
            }),
    {
        let ghost l0 = self.lines();
        if !self.pen_down {
            self.write(string_of("PD;"));
            self.pen_down = true;
        }
        let ghost l1 = self.lines();
        proof {
            assert(l1 == l0 + (if !old(self).is_pen_down() {
                seq!["PD;"@]
            } else {
                Seq::<Seq<char>>::empty()
            }));
        }
        self.pa_to(x, y);
    }

    fn pa_to(&mut self, x: Option<i64>, y: Option<i64>)
        requires
            old(self).wf(),
            old(self).room(1),
        ensures
            final(self).wf(),
            final(self).is_pen_down() == old(self).is_pen_down(),
            final(self).last_velocity() == old(self).last_velocity(),
            final(self).lines() == old(self).lines() + pa_block(
                target(x, old(self).last_pos().0),
                target(y, old(self).last_pos().1),
            ),
            final(self).last_pos() == (match (
                target(x, old(self).last_pos().0),
                target(y, old(self).last_pos().1),
            ) {
                (Some(a), Some(b)) => (Some(a), Some(b)),
                _ => old(self).last_pos(),
            }),
    {
        let cx = match x {
            Some(v) => Some(v),
            None => self.last_x,
        };
        let cy = match y {
            Some(v) => Some(v),
            None => self.last_y,
        };
        match (cx, cy) {
            (Some(a), Some(b)) => {
                self.write_pa(a, b);
                proof {
                    assert(old(self).lines().push(pa_line(a as int, b as int)) =~= old(
                        self,
                    ).lines() + seq![pa_line(a as int, b as int)]);
                }
            },
            _ => {
                proof {
                    assert(self.lines() + Seq::<Seq<char>>::empty() =~= self.lines());
                }
            },
        }
    }

    /// Whether the pen is down.
    pub fn pen_is_down(&self) -> (b: bool)
        ensures
            b == self.is_pen_down(),
    {
        self.pen_down
    }

    /// The last position in plotter units.
    pub fn position(&self) -> (r: (Option<i64>, Option<i64>))
        ensures
            r == self.last_pos(),
    {
        (self.last_x, self.last_y)
    }

    /// The statement listing: every `;`-terminated statement of every
    /// emitted entry on a line of its own (see [`hpgl_listing`]).
    pub fn finish(&self) -> (r: String)
        requires
            self.wf(),
        ensures
            r@ == hpgl_listing(self.lines()),
    {
        let ls = self.sink.lines();
        let mut out = String::new();
        let mut i: usize = 0;
        proof {
            assert(self.lines().take(0) =~= Seq::<Seq<char>>::empty());
        }
        while i < ls.len()
            invariant
                i <= ls.len(),
                lines_view(ls@) == self.lines(),
                out@ == listed_entries(self.lines().take(i as int)),
            decreases ls.len() - i,
        {
            let ghost o0 = out@;
            let cs = crate::chars::to_chars(ls[i].as_str());
            let mut k: usize = 0;
            proof {
                assert(cs@.take(0) =~= Seq::<char>::empty());
                assert(o0 + break_semis(cs@.take(0)) =~= o0);
            }
            while k < cs.len()
                invariant
                    k <= cs.len(),
                    out@ == o0 + break_semis(cs@.take(k as int)),
                decreases cs.len() - k,
            {
                proof {
                    assert(cs@.take(k + 1).drop_last() =~= cs@.take(k as int));
                    assert(cs@.take(k + 1).last() == cs@[k as int]);
                }
                push_char(&mut out, cs[k]);
                if cs[k] == ';' {
                    push_char(&mut out, '\n');
                }
                proof {
                    if cs@[k as int] == ';' {
                        assert(out@ =~= o0 + break_semis(cs@.take(k + 1)));
                    } else {
                        assert(out@ =~= o0 + break_semis(cs@.take(k + 1)));
                    }
                }
                k = k + 1;
            }
            proof {
                assert(cs@.take(cs.len() as int) =~= cs@);
                assert(cs@ == self.lines()[i as int]);
            }
            if cs.len() > 0 && cs[cs.len() - 1] != ';' {
                push_char(&mut out, '\n');
            }
            proof {
                let t = self.lines().take(i + 1);
                assert(t.drop_last() =~= self.lines().take(i as int));
                assert(t.last() == cs@);
                assert(out@ =~= listed_entries(t));
            }
            i = i + 1;
        }
        proof {
            assert(self.lines().take(ls.len() as int) =~= self.lines());
        }
        if out.unicode_len() == 0 {
            push_char(&mut out, '\n');
            proof {
                assert(out@ =~= seq!['\n']);
            }
        }
        out
    }

    /// Number of entries emitted.
    pub fn out_lines_count(&self) -> (n: usize)
        requires
            self.wf(),
        ensures
            n == self.lines().len(),
    {
        self.sink.len()
    }

    /// The emitted entries from `start` on.
    pub fn out_lines_clone_from(&self, start: usize) -> (r: Vec<String>)
        requires
            self.wf(),
        ensures
            lines_view(r@) == (if start >= self.lines().len() {
                Seq::<Seq<char>>::empty()
            } else {
                self.lines().subrange(start as int, self.lines().len() as int)
            }),
    {
        self.sink.clone_from(start)
    }

    /// Splice pre-rendered entries in verbatim (an op-cache replay).
    pub fn out_extend_lines(&mut self, lines: &[String])
        requires
            old(self).wf(),
            old(self).room(lines@.len() as int),
        ensures
            final(self).wf(),
            final(self).lines() == old(self).lines() + lines_view(lines@),
            final(self).is_pen_down() == old(self).is_pen_down(),
            final(self).last_pos() == old(self).last_pos(),
            final(self).last_velocity() == old(self).last_velocity(),
    {
        self.sink.extend_from_slice(lines);
    }

    /// Forget the position so the next move jumps explicitly.
    pub fn reset_state(&mut self)
        ensures
            final(self).wf() == old(self).wf(),
            final(self).lines() == old(self).lines(),
            final(self).is_pen_down() == old(self).is_pen_down(),
            final(self).last_pos() == (None::<i64>, None::<i64>),
            final(self).last_velocity() == old(self).last_velocity(),
    {
        self.last_x = None;
        self.last_y = None;
    }

    /// The position to carry across an op boundary (plotter units).
    pub fn capture_state(&self) -> (r: (Option<i64>, Option<i64>))
        ensures
            r == self.last_pos(),
    {
        (self.last_x, self.last_y)
    }

    /// Restore a captured position (plotter units).
    pub fn restore_state(&mut self, s: (Option<i64>, Option<i64>))
        ensures
            final(self).wf() == old(self).wf(),
            final(self).lines() == old(self).lines(),
            final(self).is_pen_down() == old(self).is_pen_down(),
            final(self).last_pos() == s,
            final(self).last_velocity() == old(self).last_velocity(),
    {
        self.last_x = s.0;
        self.last_y = s.1;
    }
}

/// Append the decimal rendering of a signed integer.
pub fn push_idec(s: &mut String, v: i64)
    ensures
        final(s)@ == old(s)@ + idec(v as int),
{
    if v < 0 {
        push_char(s, '-');
        let m: u64 = if v == i64::MIN {
            9223372036854775808u64
        } else {
            (-v) as u64
        };
        push_dec64(s, m);
        proof {
            assert(m == -(v as int));
        }
    } else {
        push_dec64(s, v as u64);
    }
}

/// Append the decimal rendering of `n`.
pub fn push_dec64(s: &mut String, n: u64)
    ensures
        final(s)@ == old(s)@ + dec(n as nat),
    decreases n,
{
    if n >= 10 {
        push_dec64(s, n / 10);
    }
    let d = (n % 10) as u32;
    let c = crate::gcode::digit_to_char(d);
    push_char(s, c);
    proof {
        if n < 10 {
            assert(n % 10 == n);
        }
    }
}

} // verus!
