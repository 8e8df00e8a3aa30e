//! G-code emission: the output sink, the post-processors and the preview
//! helpers, plus the modal-state types the posts share.

pub mod grbl;
pub mod hpgl;
pub mod linuxcnc;
pub mod preview;
pub mod sink;

use vstd::prelude::*;

use crate::chars::{all_digits, digits_value, is_digit, parse_u32_spec, push_char, unsigned_part};

verus! {

/// Unit system of a program.
#[derive(Clone, Copy, PartialEq, Eq, Debug, Structural)]
pub enum UnitSystem {
    Mm,
    Inch,
}

/// Cutter-radius compensation side.
#[derive(Clone, Copy, PartialEq, Eq, Debug, Structural)]
pub enum ToolOffset {
    NoOffset,
    Inside,
    Outside,
    On,
}

/// Spindle rotation direction: `Cw` is M3, `Ccw` is M4.
#[derive(Clone, Copy, PartialEq, Eq, Debug, Structural)]
pub enum SpindleDirection {
    Cw,
    Ccw,
}

/// The coolant state last commanded by a post. `Unknown` until the first
/// coolant command, so a defensive `M9` still goes out.
#[derive(Clone, Copy, PartialEq, Eq, Debug, Structural)]
pub enum CoolantState {
    Unknown,
    Off,
    Mist,
    Flood,
}

/// Work coordinate system `G54`..`G59`.
#[derive(Clone, Copy, PartialEq, Eq, Debug, Structural)]
pub enum Wcs {
    G54,
    G55,
    G56,
    G57,
    G58,
    G59,
}

pub open spec fn wcs_word_spec(w: Wcs) -> Seq<char> {
    match w {
        Wcs::G54 => seq!['G', '5', '4'],
        Wcs::G55 => seq!['G', '5', '5'],
        Wcs::G56 => seq!['G', '5', '6'],
        Wcs::G57 => seq!['G', '5', '7'],
        Wcs::G58 => seq!['G', '5', '8'],
        Wcs::G59 => seq!['G', '5', '9'],
    }
}

impl Wcs {
    /// The g-code word that selects this WCS.
    pub fn gcode_word(self) -> (r: String)
        ensures
            r@ == wcs_word_spec(self),
    {
        let mut s = String::new();
        push_char(&mut s, 'G');
        push_char(&mut s, '5');
        let d = match self {
            Wcs::G54 => '4',
            Wcs::G55 => '5',
            Wcs::G56 => '6',
            Wcs::G57 => '7',
            Wcs::G58 => '8',
            Wcs::G59 => '9',
        };
        push_char(&mut s, d);
        proof {
            assert(s@ =~= wcs_word_spec(self));
        }
        s
    }

    /// The `P` number of this WCS in `G10 L20 P<n>`: G54 is 1 .. G59 is 6.
    pub fn p_number(self) -> (n: u32)
        ensures
            1 <= n <= 6,
            n == match self {
                Wcs::G54 => 1u32,
                Wcs::G55 => 2u32,
                Wcs::G56 => 3u32,
                Wcs::G57 => 4u32,
                Wcs::G58 => 5u32,
                Wcs::G59 => 6u32,
            },
    {
        match self {
            Wcs::G54 => 1,
            Wcs::G55 => 2,
            Wcs::G56 => 3,
            Wcs::G57 => 4,
            Wcs::G58 => 5,
            Wcs::G59 => 6,
        }
    }
}

/// User-configured program templates of a post profile. Each template is
/// emitted line by line in place of the post's built-in block.
#[derive(Debug)]
pub struct PostProfile {
    pub program_start: Option<String>,
    pub program_end: Option<String>,
    pub tool_change: Option<String>,
    pub coolant_mist_on: Option<String>,
    pub coolant_flood_on: Option<String>,
    pub coolant_mist_off: Option<String>,
    pub coolant_flood_off: Option<String>,
}

impl Clone for PostProfile {
    fn clone(&self) -> (r: Self)
        ensures
            r == *self,
    {
        PostProfile {
            program_start: self.program_start.clone(),
            program_end: self.program_end.clone(),
            tool_change: self.tool_change.clone(),
            coolant_mist_on: self.coolant_mist_on.clone(),
            coolant_flood_on: self.coolant_flood_on.clone(),
            coolant_mist_off: self.coolant_mist_off.clone(),
            coolant_flood_off: self.coolant_flood_off.clone(),
        }
    }
}

impl PostProfile {
    /// A profile with no templates: every block uses the built-in output.
    pub fn empty() -> (p: Self)
        ensures
            p.program_start is None,
            p.program_end is None,
            p.tool_change is None,
            p.coolant_mist_on is None,
            p.coolant_flood_on is None,
            p.coolant_mist_off is None,
            p.coolant_flood_off is None,
    {
        PostProfile {
            program_start: None,
            program_end: None,
            tool_change: None,
            coolant_mist_on: None,
            coolant_flood_on: None,
            coolant_mist_off: None,
            coolant_flood_off: None,
        }
    }
}

/// The modal state a post carries across an op boundary: what the op cache
/// captures at the end of an op and restores on a replay.
#[derive(Clone, Copy, PartialEq, Eq, Debug, Structural)]
pub struct CapturedModalState {
    pub last_rate: Option<u32>,
    pub last_speed: Option<u32>,
    pub last_coolant: CoolantState,
    pub last_spindle_dir: Option<SpindleDirection>,
    pub spindle_lit: bool,
}

// ----- Decimal rendering ------------------------------------------------

pub open spec fn digit_char(d: nat) -> char {
    (('0' as u32) + d) as char
}

/// Decimal rendering of `n` without leading zeros (`"0"` for zero).
pub open spec fn dec(n: nat) -> Seq<char>
    decreases n,
{
    if n < 10 {
        seq![digit_char(n)]
    } else {
        dec(n / 10) + seq![digit_char(n % 10)]
    }
}

/// The decimal text of a number is a non-empty run of digits of its value.
pub proof fn lemma_dec_digits(n: nat)
    ensures
        dec(n).len() > 0,
        all_digits(dec(n)),
        digits_value(dec(n)) == n,
    decreases n,
{
    let d = n % 10;
    assert(((digit_char(d) as u32) - ('0' as u32)) as nat == d);
    if n < 10 {
        assert(dec(n).drop_last() =~= Seq::<char>::empty());
        assert(digits_value(Seq::<char>::empty()) == 0);
    } else {
        lemma_dec_digits(n / 10);
        let s = dec(n);
        assert(s.drop_last() =~= dec(n / 10));
        assert(s.last() == digit_char(n % 10));
        assert(n == (n / 10) * 10 + d);
        assert forall|i: int| 0 <= i < s.len() implies is_digit(#[trigger] s[i]) by {
            if i < s.len() - 1 {
                assert(s[i] == dec(n / 10)[i]);
            }
        }
    }
}

/// Law: the decimal text of a `u32` parses back to it.
pub proof fn lemma_dec_parses(n: nat)
    requires
        n <= u32::MAX,
    ensures
        parse_u32_spec(dec(n)) == Some(n as u32),
{
    lemma_dec_digits(n);
    assert(is_digit(dec(n)[0]));
    assert(unsigned_part(dec(n)) == dec(n));
}

/// The character of decimal digit `d`.
pub(crate) fn digit_to_char(d: u32) -> (c: char)
    requires
        d < 10,
    ensures
        c == digit_char(d as nat),
{
    let b = (d as u8) + 48;
    b as char
}

/// Append the decimal rendering of `n` to `s`.
pub fn push_dec(s: &mut String, n: u32)
    ensures
        final(s)@ == old(s)@ + dec(n as nat),
    decreases n,
{
    if n >= 10 {
        push_dec(s, n / 10);
    }
    let c = digit_to_char(n % 10);
    push_char(s, c);
    proof {
        if n < 10 {
            assert(n % 10 == n);
        }
    }
}

/// `String` from a literal's characters.
pub fn string_of(s: &str) -> (r: String)
    ensures
        r@ == s@,
{
    s.to_owned()
}

// ----- Splitting on a character -----------------------------------------

/// `str::split(c)`: the pieces between occurrences of `c` (always at least
/// one piece; empty pieces kept).
pub open spec fn split_char(s: Seq<char>, c: char) -> Seq<Seq<char>>
    decreases s.len(),
{
    if s.len() == 0 {
        seq![Seq::empty()]
    } else {
        let rest = split_char(s.drop_first(), c);
        if s[0] == c {
            seq![Seq::<char>::empty()] + rest
        } else {
            rest.update(0, seq![s[0]] + rest[0])
        }
    }
}

pub proof fn lemma_split_nonempty(s: Seq<char>, c: char)
    ensures
        split_char(s, c).len() >= 1,
    decreases s.len(),
{
    if s.len() > 0 {
        lemma_split_nonempty(s.drop_first(), c);
    }
}

/// Glue the already-split prefix (`pieces` and the unfinished `cur`) onto
/// the split of the remainder.
pub open spec fn glue(pieces: Seq<Seq<char>>, cur: Seq<char>, rest: Seq<Seq<char>>) -> Seq<
    Seq<char>,
> {
    pieces + seq![cur + rest[0]] + rest.skip(1)
}

/// The pieces of `v` split on `c`, as strings.
pub fn split_on(v: &[char], c: char) -> (r: Vec<String>)
    ensures
        crate::gcode::sink::lines_view(r@) == split_char(v@, c),
{
    let mut pieces: Vec<String> = Vec::new();
    let mut cur: Vec<char> = Vec::new();
    let mut i: usize = 0;
    proof {
        assert(v@.skip(0) == v@);
        lemma_split_nonempty(v@, c);
        let sp = split_char(v@, c);
        assert(glue(Seq::empty(), Seq::empty(), sp) =~= sp);
        assert(crate::gcode::sink::lines_view(pieces@) =~= Seq::<Seq<char>>::empty());
    }
    while i < v.len()
        invariant
            i <= v.len(),
            glue(crate::gcode::sink::lines_view(pieces@), cur@, split_char(v@.skip(i as int), c))
                == split_char(v@, c),
        decreases v.len() - i,
    {
        let ghost pv = crate::gcode::sink::lines_view(pieces@);
        let ghost t = v@.skip(i as int);
        proof {
            assert(t.drop_first() == v@.skip(i + 1));
            lemma_split_nonempty(t.drop_first(), c);
        }
        if v[i] == c {
            let ghost cv = cur@;
            pieces.push(crate::chars::from_chars(cur.as_slice()));
            cur = Vec::new();
            proof {
                let rest = split_char(v@.skip(i + 1), c);
                assert(crate::gcode::sink::lines_view(pieces@) =~= pv.push(cv));
                assert(split_char(t, c) == seq![Seq::<char>::empty()] + rest);
                assert(glue(pv, cv, split_char(t, c)) =~= glue(pv.push(cv), Seq::empty(), rest));
            }
        } else {
            let ghost cv = cur@;
            cur.push(v[i]);
            proof {
                let rest = split_char(v@.skip(i + 1), c);
                let st = split_char(t, c);
                assert(st == rest.update(0, seq![t[0]] + rest[0]));
                assert(t[0] == v@[i as int]);
                assert(cur@ == cv.push(t[0]));
                assert(cv + st[0] =~= cur@ + rest[0]);
                assert(st.skip(1) =~= rest.skip(1));
                assert(glue(pv, cv, st) =~= glue(pv, cur@, rest));
            }
        }
        i = i + 1;
    }
    let ghost pv = crate::gcode::sink::lines_view(pieces@);
    pieces.push(crate::chars::from_chars(cur.as_slice()));
    proof {
        assert(v@.skip(i as int) =~= Seq::<char>::empty());
        assert(split_char(Seq::<char>::empty(), c) == seq![Seq::<char>::empty()]);
        assert(crate::gcode::sink::lines_view(pieces@) =~= glue(
            pv,
            cur@,
            seq![Seq::<char>::empty()],
        ));
    }
    pieces
}

/// The lines of a profile template (split on `\n`).
pub open spec fn template_lines_spec(t: Seq<char>) -> Seq<Seq<char>> {
    split_char(t, '\n')
}

pub fn template_lines(t: &String) -> (r: Vec<String>)
    ensures
        crate::gcode::sink::lines_view(r@) == template_lines_spec(t@),
{
    let v = crate::chars::to_chars(t.as_str());
    split_on(v.as_slice(), '\n')
}

} // verus!
