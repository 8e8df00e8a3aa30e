//! Font classification for text layers: whether a font's names mark it as
//! a single-line (engraving) font, and its family name, read from the
//! font's name table with `skrifa`.

use vstd::prelude::*;

use crate::chars::{contains_chars, contains_seq, lower_chars, lower_seq, to_chars};
use crate::errors::{Error, ErrorKind};
use crate::gcode::sink::lines_view;

verus! {

/// Whether `skrifa` parses `bytes` as a font (the first font of a
/// collection).
pub uninterp spec fn font_parses(bytes: Seq<u8>) -> bool;

/// The strings the name table of the font in `bytes` records under name
/// id `id`, in table order.
pub uninterp spec fn font_name_strings(bytes: Seq<u8>, id: u16) -> Seq<Seq<char>>;

/// `skrifa::MetadataProvider::localized_strings` for name id `id` on the
/// font `skrifa::FontRef::from_index(bytes, 0)` reads from `bytes`, each
/// string as text: `None` exactly when the bytes do not parse as a font,
/// else the strings the font's name table records under `id`, in table
/// order. What those strings are is the font's own data and is not stated.
#[verifier::external_body]
fn font_names(bytes: &[u8], id: u16) -> (r: Option<Vec<String>>)
    ensures
        r is Some <==> font_parses(bytes@),
        r matches Some(v) ==> lines_view(v@) == font_name_strings(bytes@, id),
{
    let font = skrifa::FontRef::from_index(bytes, 0).ok()?;
    let strings = skrifa::MetadataProvider::localized_strings(&font, skrifa::string::StringId::new(id));
    Some(strings.map(|s| s.to_string()).collect())
}

/// The text of the error `skrifa::FontRef::from_index(bytes, 0)` returns
/// for `bytes` that do not parse as a font.
pub uninterp spec fn font_read_error_text(bytes: Seq<u8>) -> Seq<char>;

/// `skrifa::FontRef::from_index(bytes, 0)` with its `ReadError` rendered by
/// `Display`: `None` exactly when the bytes parse as a font, else the
/// error's text, which is a function of the bytes and is not stated.
#[verifier::external_body]
fn font_read_error(bytes: &[u8]) -> (r: Option<String>)
    ensures
        r is None <==> font_parses(bytes@),
        r matches Some(t) ==> t@ == font_read_error_text(bytes@),
{
    skrifa::FontRef::from_index(bytes, 0).err().map(|e| e.to_string())
}

/// The hint on a font that does not parse.
pub open spec fn font_hint() -> Seq<char> {
    "Pick a different font for this text layer."@
}

/// The font check of text-layer rendering, for font bytes that are not an
/// SVG font: bytes that do not parse as a font are a misconfiguration
/// (`ttf parse: <reason>`, with a hint to pick another font).
pub fn check_font_face(font_bytes: &[u8]) -> (r: Result<(), Error>)
    ensures
        r is Ok <==> font_parses(font_bytes@),
        r matches Err(e) ==> {
            &&& e.wf()
            &&& e.kind == ErrorKind::Misconfigured
            &&& e.code is None
            &&& e.params@.len() == 0
            &&& e.message@ == "ttf parse: "@ + font_read_error_text(font_bytes@)
            &&& e.recovery_hint matches Some(h) && h@ == font_hint()
            &&& e.auto_fix is None
            &&& e.span is None
        },
{
    match font_read_error(font_bytes) {
        None => Ok(()),
        Some(reason) => {
            let mut msg = crate::gcode::string_of("ttf parse: ");
            crate::chars::push_str(&mut msg, reason.as_str());
            let hint = crate::gcode::string_of("Pick a different font for this text layer.");
            Err(Error::misconfigured(msg).with_hint(hint))
        },
    }
}

/// The markers of a single-line font name (compared lower-cased).
pub open spec fn single_line_needles() -> Seq<Seq<char>> {
    seq![
        "single line"@,
        "single-line"@,
        "singleline"@,
        "single stroke"@,
        "single-stroke"@,
        "singlestroke"@,
        "engrav"@,
        "stick font"@,
        "stickfont"@,
        "hershey"@,
        "rhss"@,
        "osifont"@,
        "1-line"@,
        "one-line"@,
    ]
}

fn needle(k: usize) -> (s: &'static str)
    requires
        k < 14,
    ensures
        s@ == single_line_needles()[k as int],
{
    match k {
        0 => "single line",
        1 => "single-line",
        2 => "singleline",
        3 => "single stroke",
        4 => "single-stroke",
        5 => "singlestroke",
        6 => "engrav",
        7 => "stick font",
        8 => "stickfont",
        9 => "hershey",
        10 => "rhss",
        11 => "osifont",
        12 => "1-line",
        _ => "one-line",
    }
}

/// Whether a font name, lower-cased, contains a single-line marker.
pub open spec fn name_says_single_line(name: Seq<char>) -> bool {
    exists|k: int|
        0 <= k < single_line_needles().len() && contains_seq(
            lower_seq(name),
            #[trigger] single_line_needles()[k],
        )
}

/// Whether any of `names` marks a single-line font.
pub fn family_name_says_single_line(names: &[String]) -> (b: bool)
    ensures
        b == exists|i: int|
            0 <= i < names@.len() && name_says_single_line(#[trigger] names@[i]@),
{
    let mut i: usize = 0;
    while i < names.len()
        invariant
            i <= names.len(),
            forall|j: int| 0 <= j < i ==> !name_says_single_line(#[trigger] names@[j]@),
        decreases names.len() - i,
    {
        let lc = lower_chars(to_chars(names[i].as_str()).as_slice());
        let mut k: usize = 0;
        while k < 14
            invariant
                k <= 14,
                i < names@.len(),
                lc@ == lower_seq(names@[i as int]@),
                forall|q: int|
                    0 <= q < k ==> !contains_seq(lc@, #[trigger] single_line_needles()[q]),
            decreases 14 - k,
        {
            let nd = to_chars(needle(k));
            if contains_chars(lc.as_slice(), nd.as_slice()) {
                proof {
                    assert(contains_seq(lower_seq(names@[i as int]@), single_line_needles()[k as int]));
                    assert(name_says_single_line(names@[i as int]@));
                }
                return true;
            }
            k = k + 1;
        }
        i = i + 1;
    }
    false
}

/// The names a single-line marker is looked for under: the family, full,
/// PostScript and typographic family names, in that order.
pub open spec fn marker_names(bytes: Seq<u8>) -> Seq<Seq<char>> {
    font_name_strings(bytes, 1) + font_name_strings(bytes, 4) + font_name_strings(bytes, 6)
        + font_name_strings(bytes, 16)
}

/// Whether a font's names mark it single-line: `None` when the bytes do
/// not parse as a font.
pub open spec fn single_line_name_spec(bytes: Seq<u8>) -> Option<bool> {
    if font_parses(bytes) {
        Some(
            exists|i: int|
                0 <= i < marker_names(bytes).len() && name_says_single_line(
                    #[trigger] marker_names(bytes)[i],
                ),
        )
    } else {
        None
    }
}

proof fn lemma_lines_view_add(a: Seq<String>, b: Seq<String>)
    ensures
        lines_view(a + b) == lines_view(a) + lines_view(b),
{
    assert(lines_view(a + b) =~= lines_view(a) + lines_view(b));
}

/// Whether the font's names mark it as single-line (see
/// [`single_line_name_spec`]).
pub fn single_line_by_name(font_bytes: &[u8]) -> (r: Option<bool>)
    ensures
        r == single_line_name_spec(font_bytes@),
{
    let mut names = match font_names(font_bytes, 1) {
        Some(v) => v,
        None => {
            return None;
        },
    };
    let ids: [u16; 3] = [4, 6, 16];
    let mut k: usize = 0;
    while k < 3
        invariant
            k <= 3,
            ids@ == seq![4u16, 6u16, 16u16],
            font_parses(font_bytes@),
            lines_view(names@) == (if k == 0 {
                font_name_strings(font_bytes@, 1)
            } else if k == 1 {
                font_name_strings(font_bytes@, 1) + font_name_strings(font_bytes@, 4)
            } else if k == 2 {
                font_name_strings(font_bytes@, 1) + font_name_strings(font_bytes@, 4)
                    + font_name_strings(font_bytes@, 6)
            } else {
                marker_names(font_bytes@)
            }),
        decreases 3 - k,
    {
        let more = match font_names(font_bytes, ids[k]) {
            Some(v) => v,
            None => {
                return None;
            },
        };
        let ghost before = names@;
        let mut more = more;
        names.append(&mut more);
        proof {
            lemma_lines_view_add(before, more@);
        }
        k = k + 1;
    }
    let b = family_name_says_single_line(names.as_slice());
    proof {
        assert forall|i: int| 0 <= i < names@.len() implies #[trigger] names@[i]@ == marker_names(font_bytes@)[i] by {
            assert(lines_view(names@)[i] == names@[i]@);
        }
        if b {
            let i = choose|i: int| 0 <= i < names@.len() && name_says_single_line(#[trigger] names@[i]@);
            assert(marker_names(font_bytes@)[i] == names@[i]@);
        }
        if exists|i: int| 0 <= i < marker_names(font_bytes@).len() && name_says_single_line(#[trigger] marker_names(font_bytes@)[i]) {
            let i = choose|i: int| 0 <= i < marker_names(font_bytes@).len() && name_says_single_line(#[trigger] marker_names(font_bytes@)[i]);
            assert(names@[i]@ == marker_names(font_bytes@)[i]);
        }
    }
    Some(b)
}

/// The font's first family name (name id 1), or `None` when the bytes do
/// not parse or the font records none.
pub fn font_family_name(font_bytes: &[u8]) -> (r: Option<String>)
    ensures
        match r {
            Some(s) => font_parses(font_bytes@) && font_name_strings(font_bytes@, 1).len() > 0
                && s@ == font_name_strings(font_bytes@, 1)[0],
            None => !font_parses(font_bytes@) || font_name_strings(font_bytes@, 1).len() == 0,
        },
{
    let names = match font_names(font_bytes, 1) {
        Some(v) => v,
        None => {
            return None;
        },
    };
    if names.len() == 0 {
        None
    } else {
        proof {
            assert(lines_view(names@)[0] == names@[0]@);
        }
        Some(names[0].clone())
    }
}

/// Whether a font is a single-line (engraving) font: bytes that do not
/// parse never are; a font whose names carry a single-line marker is;
/// otherwise `outline_retraced` decides — the check of the glyph outlines
/// for retraced, zero-area contours, run only when the names are silent.
pub fn is_single_line_font<F: Fn() -> bool>(font_bytes: &[u8], outline_retraced: F) -> (r: bool)
    requires
        call_requires(outline_retraced, ()),
    ensures
        match single_line_name_spec(font_bytes@) {
            None => !r,
            Some(true) => r,
            Some(false) => call_ensures(outline_retraced, (), r),
        },
{
    match single_line_by_name(font_bytes) {
        None => false,
        Some(true) => true,
        Some(false) => outline_retraced(),
    }
}

} // verus!
