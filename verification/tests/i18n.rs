use ivac::i18n::{detect_locale, extract_lang, parse_lang, tr, tr_from_entries, Locale, DE_JSON, EN_JSON};
use std::collections::HashMap;

#[test]
fn parse_lang_handles_common_tags() {
    assert_eq!(parse_lang("de"), Some(Locale::De));
    assert_eq!(parse_lang("DE"), Some(Locale::De));
    assert_eq!(parse_lang("de_DE.UTF-8"), Some(Locale::De));
    assert_eq!(parse_lang("en-US"), Some(Locale::En));
    assert_eq!(parse_lang("de_AT@euro"), Some(Locale::De));
    assert_eq!(parse_lang("fr"), None);
    assert_eq!(parse_lang(""), None);
}

#[test]
fn detect_prefers_override_then_lc_all_then_lang() {
    let env = |k: &str| match k {
        "LANG" => Some("en_US.UTF-8".to_string()),
        "LC_ALL" => Some("de_DE.UTF-8".to_string()),
        _ => None,
    };
    assert_eq!(detect_locale(Some("de"), env), Locale::De);
    assert_eq!(detect_locale(None, env), Locale::De);
    assert_eq!(
        detect_locale(Some("fr"), |_| Some("en".to_string())),
        Locale::En
    );
    assert_eq!(detect_locale(None, |_| None), Locale::En);
}

#[test]
fn extract_lang_pulls_flag_in_both_forms() {
    let (lang, rest) = extract_lang(vec![
        "generate".into(),
        "--lang".into(),
        "de".into(),
        "file.dxf".into(),
    ]);
    assert_eq!(lang.as_deref(), Some("de"));
    assert_eq!(rest, vec!["generate", "file.dxf"]);

    let (lang, rest) = extract_lang(vec!["--lang=de".into(), "import".into()]);
    assert_eq!(lang.as_deref(), Some("de"));
    assert_eq!(rest, vec!["import"]);

    let (lang, rest) = extract_lang(vec!["import".into(), "file.dxf".into()]);
    assert_eq!(lang, None);
    assert_eq!(rest, vec!["import", "file.dxf"]);
}

#[test]
fn tr_substitutes_params_and_falls_back() {
    assert_eq!(
        tr(Locale::En, "cli.err.unknown_post", &[("name", "svg")]),
        "unknown post processor: svg"
    );
    assert_eq!(tr(Locale::En, "cli.nope", &[]), "cli.nope");
}

#[test]
fn tr_uses_the_german_catalog_and_falls_back_to_english_keys() {
    assert_eq!(
        tr(Locale::De, "cli.err.unknown_post", &[("name", "svg")]),
        "unbekannter Postprozessor: svg"
    );
    assert_eq!(tr(Locale::De, "cli.nope", &[]), "cli.nope");
}

#[test]
fn extract_lang_last_flag_wins() {
    let (lang, rest) = extract_lang(vec![
        "--lang".into(),
        "en".into(),
        "x".into(),
        "--lang=de".into(),
    ]);
    assert_eq!(lang.as_deref(), Some("de"));
    assert_eq!(rest, vec!["x"]);
}

/// Every catalog key the CLI references.
const CLI_KEYS: &[&str] = &[
    "cli.help.tagline",
    "cli.help.usage",
    "cli.help.import",
    "cli.help.generate",
    "cli.help.stream",
    "cli.help.posts",
    "cli.help.help",
    "cli.help.lang",
    "cli.err.unknown_subcommand",
    "cli.err.missing_path",
    "cli.err.importing",
    "cli.err.opt_needs_value",
    "cli.err.unexpected_arg",
    "cli.err.missing_input_path",
    "cli.err.unknown_post",
    "cli.err.reading",
    "cli.err.parse_project",
    "cli.err.output",
    "cli.err.streaming",
    "cli.err.two_sided_needs_output",
    "cli.stream.done",
];

fn parse(json: &str) -> HashMap<String, String> {
    serde_json::from_str(json).expect("catalog is valid JSON")
}

#[test]
fn catalogs_parse_and_are_key_identical() {
    let en = parse(EN_JSON);
    let de = parse(DE_JSON);
    let mut en_keys: Vec<&String> = en.keys().collect();
    let mut de_keys: Vec<&String> = de.keys().collect();
    en_keys.sort();
    de_keys.sort();
    assert_eq!(en_keys, de_keys, "en.json and de.json must have identical keys");
}

#[test]
fn en_catalog_matches_referenced_keys_exactly() {
    let en = parse(EN_JSON);
    let mut expected: Vec<&str> = CLI_KEYS.to_vec();
    expected.sort_unstable();
    let mut actual: Vec<&str> = en.keys().map(String::as_str).collect();
    actual.sort_unstable();
    assert_eq!(
        actual, expected,
        "en.json keys must match exactly the keys the CLI references (CLI_KEYS)"
    );
}

#[test]
fn tr_from_entries_prefers_own_then_english_then_key() {
    let own = vec![("a".to_string(), "eigen {x}".to_string())];
    let en = vec![
        ("a".to_string(), "own {x}".to_string()),
        ("b".to_string(), "english {x} and {x}".to_string()),
    ];
    assert_eq!(tr_from_entries(&own, &en, "a", &[("x", "1")]), "eigen 1");
    assert_eq!(tr_from_entries(&own, &en, "b", &[("x", "2")]), "english 2 and 2");
    assert_eq!(tr_from_entries(&own, &en, "c{x}", &[("x", "3")]), "c3");
    assert_eq!(tr_from_entries(&own, &en, "b", &[]), "english {x} and {x}");
}
