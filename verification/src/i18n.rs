//! Embedded localization for the headless command line.
//!
//! Lookup is a flat `key -> template` map per shipped language with `{name}`
//! placeholder substitution; a key missing from the requested language falls
//! back to English and then to the key itself. The catalogs are embedded JSON
//! objects parsed with `serde_json`.
//!
//! Locale resolution: an explicit `--lang` wins, then the `LC_ALL`,
//! `LC_MESSAGES` and `LANG` environment variables (POSIX precedence), then
//! English.

use vstd::prelude::*;

use crate::chars::{
    from_chars, lower_chars, lower_seq, replace_all, replace_chars, starts_with, to_chars,
    trim, trimmed_chars, has_prefix,
};

verus! {

/// A shipped UI language.
#[derive(Clone, Copy, PartialEq, Eq, Debug, Structural)]
pub enum Locale {
    En,
    De,
}

/// English catalog.
pub const EN_JSON: &'static str = "{\"cli.help.tagline\": \"ivac - turn drawings into g-code for CNC mills, lasers, plasma cutters and drag knives\", \"cli.help.usage\": \"Usage:\", \"cli.help.import\": \"Import a DXF or SVG drawing and print the import JSON to stdout.\", \"cli.help.generate\": \"Generate g-code and a preview toolpath for a drawing and print them as JSON.\", \"cli.help.stream\": \"Stream the g-code of a full project straight to a file or stdout.\", \"cli.help.posts\": \"Post processors: linuxcnc, grbl, hpgl\", \"cli.help.help\": \"Show this help.\", \"cli.help.lang\": \"User interface language (en or de)\", \"cli.err.unknown_subcommand\": \"unknown subcommand: {name}\", \"cli.err.missing_path\": \"missing input path\", \"cli.err.importing\": \"importing {path}\", \"cli.err.opt_needs_value\": \"{opt} needs a value\", \"cli.err.unexpected_arg\": \"unexpected argument: {arg}\", \"cli.err.missing_input_path\": \"missing input path\", \"cli.err.unknown_post\": \"unknown post processor: {name}\", \"cli.err.reading\": \"reading {path}\", \"cli.err.parse_project\": \"parsing project {path}\", \"cli.err.output\": \"creating output {path}\", \"cli.err.streaming\": \"streaming g-code failed: {detail}\", \"cli.err.two_sided_needs_output\": \"a two-sided job writes two programs and needs --output\", \"cli.stream.done\": \"wrote g-code to {dest} ({objects} objects, {offsets} offsets)\"}";

/// German catalog.
pub const DE_JSON: &'static str = "{\"cli.help.tagline\": \"ivac - Zeichnungen in G-Code fuer CNC-Fraesen, Laser, Plasmaschneider und Schleppmesser umwandeln\", \"cli.help.usage\": \"Aufruf:\", \"cli.help.import\": \"Eine DXF- oder SVG-Zeichnung importieren und das Import-JSON auf stdout ausgeben.\", \"cli.help.generate\": \"G-Code und eine Vorschau-Werkzeugbahn fuer eine Zeichnung erzeugen und als JSON ausgeben.\", \"cli.help.stream\": \"Den G-Code eines ganzen Projekts direkt in eine Datei oder auf stdout schreiben.\", \"cli.help.posts\": \"Postprozessoren: linuxcnc, grbl, hpgl\", \"cli.help.help\": \"Diese Hilfe anzeigen.\", \"cli.help.lang\": \"Sprache der Oberflaeche (en oder de)\", \"cli.err.unknown_subcommand\": \"unbekannter Unterbefehl: {name}\", \"cli.err.missing_path\": \"Eingabepfad fehlt\", \"cli.err.importing\": \"Import von {path}\", \"cli.err.opt_needs_value\": \"{opt} braucht einen Wert\", \"cli.err.unexpected_arg\": \"unerwartetes Argument: {arg}\", \"cli.err.missing_input_path\": \"Eingabepfad fehlt\", \"cli.err.unknown_post\": \"unbekannter Postprozessor: {name}\", \"cli.err.reading\": \"Lesen von {path}\", \"cli.err.parse_project\": \"Projekt {path} wird eingelesen\", \"cli.err.output\": \"Ausgabe {path} wird angelegt\", \"cli.err.streaming\": \"Schreiben des G-Codes fehlgeschlagen: {detail}\", \"cli.err.two_sided_needs_output\": \"ein zweiseitiger Auftrag schreibt zwei Programme und braucht --output\", \"cli.stream.done\": \"G-Code nach {dest} geschrieben ({objects} Objekte, {offsets} Versaetze)\"}";

// ----- Locale tags ------------------------------------------------------

pub open spec fn is_tag_sep(c: char) -> bool {
    c == '-' || c == '_' || c == '.' || c == '@'
}

/// The characters of `s` before its first `-`, `_`, `.` or `@`.
pub open spec fn head_before_sep(s: Seq<char>) -> Seq<char>
    decreases s.len(),
{
    if s.len() == 0 {
        s
    } else if is_tag_sep(s[0]) {
        Seq::empty()
    } else {
        seq![s[0]] + head_before_sep(s.drop_first())
    }
}

/// The base language subtag of a locale tag: the part before the first
/// separator, trimmed and ASCII-lowercased.
pub open spec fn lang_base(tag: Seq<char>) -> Seq<char> {
    lower_seq(trim(head_before_sep(tag)))
}

pub open spec fn parse_lang_spec(tag: Seq<char>) -> Option<Locale> {
    let b = lang_base(tag);
    if b == seq!['e', 'n'] {
        Some(Locale::En)
    } else if b == seq!['d', 'e'] {
        Some(Locale::De)
    } else {
        None
    }
}

proof fn lemma_head_before_sep(s: Seq<char>, k: int)
    requires
        0 <= k <= s.len(),
        forall|j: int| 0 <= j < k ==> !is_tag_sep(#[trigger] s[j]),
        k == s.len() || is_tag_sep(s[k]),
    ensures
        head_before_sep(s) == s.take(k),
    decreases k,
{
    if k == 0 {
        if s.len() == 0 {
            assert(s.take(0) == s);
        } else {
            assert(s.take(0) =~= Seq::<char>::empty());
        }
    } else {
        let t = s.drop_first();
        assert forall|j: int| 0 <= j < k - 1 implies !is_tag_sep(#[trigger] t[j]) by {
            assert(t[j] == s[j + 1]);
        }
        if k < s.len() {
            assert(t[k - 1] == s[k]);
        }
        lemma_head_before_sep(t, k - 1);
        assert(seq![s[0]] + t.take(k - 1) =~= s.take(k));
    }
}

/// Parse a locale tag (`de`, `en-US`, `de_DE.UTF-8`, `DE`) down to a shipped
/// language, or `None` if it is not shipped.
pub fn parse_lang(tag: &str) -> (r: Option<Locale>)
    ensures
        r == parse_lang_spec(tag@),
{
    let v = to_chars(tag);
    let mut k: usize = 0;
    while k < v.len() && !(v[k] == '-' || v[k] == '_' || v[k] == '.' || v[k] == '@')
        invariant
            k <= v.len(),
            forall|j: int| 0 <= j < k ==> !is_tag_sep(#[trigger] v@[j]),
        decreases v.len() - k,
    {
        k = k + 1;
    }
    proof {
        lemma_head_before_sep(v@, k as int);
    }
    let head = crate::chars::sub_vec(v.as_slice(), 0, k);
    let t = trimmed_chars(head.as_slice());
    let b = lower_chars(t.as_slice());
    if b.len() == 2 && b[0] == 'e' && b[1] == 'n' {
        proof {
            assert(b@ =~= seq!['e', 'n']);
        }
        Some(Locale::En)
    } else if b.len() == 2 && b[0] == 'd' && b[1] == 'e' {
        proof {
            assert(b@ =~= seq!['d', 'e']);
        }
        Some(Locale::De)
    } else {
        proof {
            if b@ == seq!['e', 'n'] {
                assert(b@[0] == 'e' && b@[1] == 'n');
            }
            if b@ == seq!['d', 'e'] {
                assert(b@[0] == 'd' && b@[1] == 'e');
            }
        }
        None
    }
}

/// The locale an optional environment value resolves to.
pub open spec fn env_value_locale(v: Option<String>) -> Option<Locale> {
    match v {
        Some(s) => parse_lang_spec(s@),
        None => None,
    }
}

fn locale_of_env_value(v: &Option<String>) -> (r: Option<Locale>)
    ensures
        r == env_value_locale(*v),
{
    match v {
        Some(s) => parse_lang(s.as_str()),
        None => None,
    }
}

/// The locale an explicit override resolves to.
pub open spec fn override_locale(o: Option<&str>) -> Option<Locale> {
    match o {
        Some(t) => parse_lang_spec(t@),
        None => None,
    }
}

/// Resolve the effective locale: an explicit `--lang` override first, then
/// the environment (`env(name)` returns the value of that variable) in the
/// order `LC_ALL`, `LC_MESSAGES`, `LANG`, then English. `env` is consulted
/// only until a variable resolves.
pub fn detect_locale(lang_override: Option<&str>, env: impl Fn(&str) -> Option<String>) -> (r:
    Locale)
    requires
        forall|k: &str| #[trigger] call_requires(env, (k,)),
    ensures
        match override_locale(lang_override) {
            Some(l) => r == l,
            None => exists|a: Option<String>|
                #![trigger env_value_locale(a)]
                call_ensures(env, ("LC_ALL",), a) && match env_value_locale(a) {
                    Some(l) => r == l,
                    None => exists|b: Option<String>|
                        #![trigger env_value_locale(b)]
                        call_ensures(env, ("LC_MESSAGES",), b) && match env_value_locale(b) {
                            Some(l) => r == l,
                            None => exists|c: Option<String>|
                                #![trigger env_value_locale(c)]
                                call_ensures(env, ("LANG",), c) && r == match env_value_locale(c) {
                                    Some(l) => l,
                                    None => Locale::En,
                                },
                        },
                },
        },
{
    if let Some(o) = lang_override {
        if let Some(l) = parse_lang(o) {
            return l;
        }
    }
    let a = env("LC_ALL");
    let la = locale_of_env_value(&a);
    if let Some(l) = la {
        return l;
    }
    let b = env("LC_MESSAGES");
    let lb = locale_of_env_value(&b);
    if let Some(l) = lb {
        proof {
            assert(env_value_locale(a) is None);
        }
        return l;
    }
    let c = env("LANG");
    let lc = locale_of_env_value(&c);
    match lc {
        Some(l) => l,
        None => Locale::En,
    }
}

// ----- The `--lang` flag ------------------------------------------------

pub open spec fn lang_flag() -> Seq<char> {
    seq!['-', '-', 'l', 'a', 'n', 'g']
}

pub open spec fn lang_eq_prefix() -> Seq<char> {
    seq!['-', '-', 'l', 'a', 'n', 'g', '=']
}

/// `extract_lang` over views: the last `--lang` value (if any) and the
/// arguments that remain once every `--lang <v>` / `--lang=<v>` flag is
/// removed. A trailing bare `--lang` with no value is dropped.
pub open spec fn extract_lang_spec(args: Seq<Seq<char>>) -> (Option<Seq<char>>, Seq<Seq<char>>)
    decreases args.len(),
{
    if args.len() == 0 {
        (None, Seq::empty())
    } else if args[0] == lang_flag() {
        if args.len() >= 2 {
            let rest = extract_lang_spec(args.skip(2));
            (
                match rest.0 {
                    Some(l) => Some(l),
                    None => Some(args[1]),
                },
                rest.1,
            )
        } else {
            (None, Seq::empty())
        }
    } else if has_prefix(args[0], lang_eq_prefix()) {
        let rest = extract_lang_spec(args.skip(1));
        (
            match rest.0 {
                Some(l) => Some(l),
                None => Some(args[0].skip(7)),
            },
            rest.1,
        )
    } else {
        let rest = extract_lang_spec(args.skip(1));
        (rest.0, seq![args[0]] + rest.1)
    }
}

pub open spec fn opt_view(o: Option<String>) -> Option<Seq<char>> {
    match o {
        Some(s) => Some(s@),
        None => None,
    }
}

pub open spec fn strings_view(v: Seq<String>) -> Seq<Seq<char>> {
    v.map_values(|s: String| s@)
}

/// Combine what has been seen so far with the result for the remaining
/// arguments: a later `--lang` overrides an earlier one.
pub open spec fn combine_lang(
    acc: (Option<Seq<char>>, Seq<Seq<char>>),
    rest: (Option<Seq<char>>, Seq<Seq<char>>),
) -> (Option<Seq<char>>, Seq<Seq<char>>) {
    (
        match rest.0 {
            Some(l) => Some(l),
            None => acc.0,
        },
        acc.1 + rest.1,
    )
}

fn lang_flag_chars() -> (v: Vec<char>)
    ensures
        v@ == lang_flag(),
{
    let v = vec!['-', '-', 'l', 'a', 'n', 'g'];
    proof {
        assert(v@ =~= lang_flag());
    }
    v
}

fn lang_eq_chars() -> (v: Vec<char>)
    ensures
        v@ == lang_eq_prefix(),
{
    let v = vec!['-', '-', 'l', 'a', 'n', 'g', '='];
    proof {
        assert(v@ =~= lang_eq_prefix());
    }
    v
}

/// Pull a `--lang <value>` / `--lang=<value>` flag out of the raw argument
/// list, returning the override (the last one wins) and the remaining
/// arguments with the flag removed.
pub fn extract_lang(args: Vec<String>) -> (r: (Option<String>, Vec<String>))
    ensures
        opt_view(r.0) == extract_lang_spec(strings_view(args@)).0,
        strings_view(r.1@) == extract_lang_spec(strings_view(args@)).1,
{
    let ghost all = strings_view(args@);
    let flag = lang_flag_chars();
    let eq = lang_eq_chars();
    let mut lang: Option<String> = None;
    let mut rest: Vec<String> = Vec::new();
    let mut i: usize = 0;
    proof {
        assert(all.skip(0) == all);
        assert(strings_view(rest@) =~= Seq::<Seq<char>>::empty());
    }
    while i < args.len()
        invariant
            i <= args.len(),
            all == strings_view(args@),
            flag@ == lang_flag(),
            eq@ == lang_eq_prefix(),
            combine_lang(
                (opt_view(lang), strings_view(rest@)),
                extract_lang_spec(all.skip(i as int)),
            ) == extract_lang_spec(all),
        decreases args.len() - i,
    {
        let ghost rest0 = strings_view(rest@);
        let ghost tail = all.skip(i as int);
        let a = to_chars(args[i].as_str());
        proof {
            assert(tail[0] == a@);
        }
        if a.len() == flag.len() && starts_with(a.as_slice(), flag.as_slice()) {
            proof {
                assert(a@ == a@.subrange(0, flag@.len() as int));
                assert(tail[0] == lang_flag());
            }
            if i + 1 < args.len() {
                let v = args[i + 1].clone();
                proof {
                    assert(tail.skip(2) == all.skip(i + 2));
                    assert(tail[1] == v@);
                }
                lang = Some(v);
                i = i + 2;
            } else {
                proof {
                    assert(tail.len() == 1);
                    assert(all.skip(i + 1).len() == 0);
                }
                i = i + 1;
            }
        } else if starts_with(a.as_slice(), eq.as_slice()) {
            proof {
                if a@ == lang_flag() {
                    assert(a.len() == flag.len());
                    assert(a@.subrange(0, flag@.len() as int) == a@);
                }
                assert(tail.skip(1) == all.skip(i + 1));
            }
            let v = crate::chars::string_of_range(a.as_slice(), 7, a.len());
            proof {
                assert(v@ == a@.skip(7));
            }
            lang = Some(v);
            i = i + 1;
        } else {
            proof {
                if a@ == lang_flag() {
                    assert(a.len() == flag.len());
                    assert(a@.subrange(0, flag@.len() as int) == a@);
                }
                assert(tail.skip(1) == all.skip(i + 1));
            }
            let s = args[i].clone();
            rest.push(s);
            proof {
                assert(strings_view(rest@) =~= rest0.push(tail[0]));
                assert(rest0.push(tail[0]) + extract_lang_spec(all.skip(i + 1)).1 =~= rest0 + (
                seq![tail[0]] + extract_lang_spec(all.skip(i + 1)).1));
            }
            i = i + 1;
        }
    }
    proof {
        assert(all.skip(i as int) =~= Seq::<Seq<char>>::empty());
        assert(strings_view(rest@) + Seq::<Seq<char>>::empty() =~= strings_view(rest@));
    }
    (lang, rest)
}

// ----- Catalog lookup ---------------------------------------------------

/// The `(key, value)` entries, in key order, of a JSON object whose values
/// are all strings, as `serde_json` reads it into a sorted string map;
/// `None` when the text is not such an object.
pub uninterp spec fn json_string_entries(text: Seq<char>) -> Option<Seq<(Seq<char>, Seq<char>)>>;

pub open spec fn pairs_view(v: Seq<(String, String)>) -> Seq<(Seq<char>, Seq<char>)> {
    v.map_values(|p: (String, String)| (p.0@, p.1@))
}

/// `serde_json::from_str::<BTreeMap<String, String>>`: parses a JSON object
/// of string values; the entries come back in the map's key order. The
/// contract names the result `json_string_entries(text)` and claims nothing
/// more about it.
#[verifier::external_body]
fn parse_string_map(text: &str) -> (r: Option<Vec<(String, String)>>)
    ensures
        match r {
            Some(v) => json_string_entries(text@) == Some(pairs_view(v@)),
            None => json_string_entries(text@) is None,
        },
{
    serde_json::from_str::<std::collections::BTreeMap<String, String>>(text).ok().map(
        |m| m.into_iter().collect(),
    )
}

pub open spec fn catalog_text(locale: Locale) -> Seq<char> {
    match locale {
        Locale::En => EN_JSON@,
        Locale::De => DE_JSON@,
    }
}

/// The entries of `locale`'s catalog (empty if the embedded text were not a
/// JSON string map).
pub open spec fn catalog(locale: Locale) -> Seq<(Seq<char>, Seq<char>)> {
    match json_string_entries(catalog_text(locale)) {
        Some(e) => e,
        None => Seq::empty(),
    }
}

/// The value of the first entry whose key is `key`.
pub open spec fn lookup(entries: Seq<(Seq<char>, Seq<char>)>, key: Seq<char>) -> Option<
    Seq<char>,
>
    decreases entries.len(),
{
    if entries.len() == 0 {
        None
    } else if entries[0].0 == key {
        Some(entries[0].1)
    } else {
        lookup(entries.drop_first(), key)
    }
}

/// The template for `key` from a catalog's entries `own` and the English
/// entries `en`: the own entry, else the English one, else the key itself.
pub open spec fn template_from(
    own: Seq<(Seq<char>, Seq<char>)>,
    en: Seq<(Seq<char>, Seq<char>)>,
    key: Seq<char>,
) -> Seq<char> {
    match lookup(own, key) {
        Some(t) => t,
        None => match lookup(en, key) {
            Some(t) => t,
            None => key,
        },
    }
}

/// The template `tr` starts from: the locale's entry, else English's, else
/// the key itself.
pub open spec fn template_for(locale: Locale, key: Seq<char>) -> Seq<char> {
    template_from(catalog(locale), catalog(Locale::En), key)
}

/// `{name}`.
pub open spec fn placeholder(name: Seq<char>) -> Seq<char> {
    seq!['{'] + name + seq!['}']
}

/// Replace every `{name}` by its value, one parameter after the other.
pub open spec fn substitute(t: Seq<char>, params: Seq<(Seq<char>, Seq<char>)>) -> Seq<char>
    decreases params.len(),
{
    if params.len() == 0 {
        t
    } else {
        replace_all(
            substitute(t, params.drop_last()),
            placeholder(params.last().0),
            params.last().1,
        )
    }
}

pub open spec fn params_view(p: Seq<(&str, &str)>) -> Seq<(Seq<char>, Seq<char>)> {
    p.map_values(|q: (&str, &str)| (q.0@, q.1@))
}

pub open spec fn tr_spec(locale: Locale, key: Seq<char>, params: Seq<(Seq<char>, Seq<char>)>) -> Seq<
    char,
> {
    substitute(template_for(locale, key), params)
}

fn catalog_entries(locale: Locale) -> (r: Vec<(String, String)>)
    ensures
        pairs_view(r@) == catalog(locale),
{
    let text = match locale {
        Locale::En => EN_JSON,
        Locale::De => DE_JSON,
    };
    match parse_string_map(text) {
        Some(v) => v,
        None => {
            let v: Vec<(String, String)> = Vec::new();
            proof {
                assert(pairs_view(v@) =~= Seq::<(Seq<char>, Seq<char>)>::empty());
            }
            v
        },
    }
}

fn lookup_entries(entries: &Vec<(String, String)>, key: &String) -> (r: Option<String>)
    ensures
        match r {
            Some(s) => lookup(pairs_view(entries@), key@) == Some(s@),
            None => lookup(pairs_view(entries@), key@) is None,
        },
{
    let ghost pv = pairs_view(entries@);
    let mut i: usize = 0;
    proof {
        assert(pv.skip(0) == pv);
    }
    while i < entries.len()
        invariant
            i <= entries.len(),
            pv == pairs_view(entries@),
            lookup(pv, key@) == lookup(pv.skip(i as int), key@),
        decreases entries.len() - i,
    {
        proof {
            assert(pv.skip(i as int)[0] == pv[i as int]);
            assert(pv.skip(i as int).drop_first() == pv.skip(i + 1));
        }
        if entries[i].0 == *key {
            return Some(entries[i].1.clone());
        }
        i = i + 1;
    }
    None
}

/// Translate `key` against parsed catalog entries: the entry of `own`, else
/// of `en` (the English entries), else the key itself, with `{name}`
/// placeholders substituted from `params` in order.
pub fn tr_from_entries(
    own: &Vec<(String, String)>,
    en: &Vec<(String, String)>,
    key: &str,
    params: &[(&str, &str)],
) -> (r: String)
    ensures
        r@ == substitute(
            template_from(pairs_view(own@), pairs_view(en@), key@),
            params_view(params@),
        ),
{
    let key_s = key.to_owned();
    let template: String = match lookup_entries(own, &key_s) {
        Some(t) => t,
        None => match lookup_entries(en, &key_s) {
            Some(t) => t,
            None => key_s.clone(),
        },
    };
    let ghost tv = template_from(pairs_view(own@), pairs_view(en@), key@);
    let mut out = to_chars(template.as_str());
    let ghost pv = params_view(params@);
    let mut i: usize = 0;
    while i < params.len()
        invariant
            i <= params.len(),
            pv == params_view(params@),
            out@ == substitute(tv, pv.take(i as int)),
        decreases params.len() - i,
    {
        let (name, value) = params[i];
        let mut pat: Vec<char> = Vec::new();
        pat.push('{');
        let nv = to_chars(name);
        let mut k: usize = 0;
        while k < nv.len()
            invariant
                k <= nv.len(),
                pat@ == seq!['{'] + nv@.take(k as int),
            decreases nv.len() - k,
        {
            pat.push(nv[k]);
            k = k + 1;
        }
        pat.push('}');
        proof {
            assert(nv@.take(nv@.len() as int) == nv@);
            assert(pat@ =~= placeholder(name@));
        }
        let vv = to_chars(value);
        out = replace_chars(out.as_slice(), pat.as_slice(), vv.as_slice());
        proof {
            assert(pv.take(i + 1).drop_last() == pv.take(i as int));
            assert(pv.take(i + 1).last() == (name@, value@));
        }
        i = i + 1;
    }
    proof {
        assert(pv.take(params@.len() as int) == pv);
    }
    from_chars(out.as_slice())
}

/// Look up `key` in `locale`, falling back to English then to the key
/// itself, and substitute `{name}` placeholders from `params` in order.
pub fn tr(locale: Locale, key: &str, params: &[(&str, &str)]) -> (r: String)
    ensures
        r@ == tr_spec(locale, key@, params_view(params@)),
{
    let own = catalog_entries(locale);
    let en = catalog_entries(Locale::En);
    tr_from_entries(&own, &en, key, params)
}

} // verus!
