use ivac::errors::{AutoFix, Error, ErrorCode, ErrorKind, SourceSpan};
use ivac::gcode::ToolOffset;
use ivac::pipeline::PipelineError;
use ivac::gcode::preview::{classify_g_word, parse_op_marker, straight_move_kind, strip_comment, GWord, GcodeIndex, MoveKind, NO_SEGMENT};
use ivac::gcode::{split_on, template_lines, Wcs};
use ivac::text::{check_font_face, family_name_says_single_line, font_family_name, is_single_line_font, single_line_by_name};

#[test]
fn op_markers_parse() {
    assert_eq!(parse_op_marker("; OP 1"), Some(1));
    assert_eq!(parse_op_marker("(OP 7)"), Some(7));
    assert_eq!(parse_op_marker("; OP 2 (gcode include: /tmp/x.nc)"), Some(2));
    assert_eq!(parse_op_marker("  ; op 12  "), Some(12));
    assert_eq!(parse_op_marker("; OPERATOR pressed start"), None);
    assert_eq!(parse_op_marker("; OP_GUIDE 99"), None);
    assert_eq!(parse_op_marker("G0 X1"), None);
    assert_eq!(parse_op_marker("; OP"), None);
}

#[test]
fn preview_words_and_kinds() {
    assert_eq!(strip_comment("G1 X1 (a) Y2 ; z"), "G1 X1  Y2 ");
    assert_eq!(strip_comment("(unclosed X1"), "");
    assert_eq!(classify_g_word("53"), GWord::NonCutting);
    assert_eq!(classify_g_word("38.2"), GWord::NonCutting);
    assert_eq!(classify_g_word("2"), GWord::Motion(2));
    assert_eq!(classify_g_word("20"), GWord::Inch);
    assert_eq!(classify_g_word("21"), GWord::Metric);
    assert_eq!(classify_g_word("81"), GWord::Drill(81));
    assert_eq!(classify_g_word("300"), GWord::Other);
    assert_eq!(classify_g_word("x"), GWord::Other);
    assert_eq!(straight_move_kind(0, false, false, false), MoveKind::Rapid);
    assert_eq!(straight_move_kind(1, true, true, false), MoveKind::Plunge);
    assert_eq!(straight_move_kind(1, true, true, true), MoveKind::Retract);
    assert_eq!(straight_move_kind(1, false, true, true), MoveKind::Cut);
    assert_eq!(straight_move_kind(3, false, false, false), MoveKind::Arc);
}

#[test]
fn gcode_index_round_trips() {
    // Lines: G21 (none), OP marker (none), three moves.
    let mut ix = GcodeIndex::new();
    ix.begin_line();
    ix.begin_line();
    for _ in 0..3 {
        ix.begin_line();
        ix.record_segment();
    }
    assert_eq!(ix.lines_to_segment, vec![NO_SEGMENT, NO_SEGMENT, 0, 1, 2]);
    assert_eq!(ix.segments_to_line, vec![3, 4, 5]);
    // A line with several segments points at its first.
    ix.begin_line();
    ix.record_segment();
    ix.record_segment();
    assert_eq!(ix.lines_to_segment[5], 3);
    assert_eq!(ix.segments_to_line, vec![3, 4, 5, 6, 6]);
}

#[test]
fn errors_build_and_display() {
    let e = Error::misconfigured("op 2 references missing tool 9".into())
        .with_code(ErrorCode::MissingTool)
        .with_param("tool".into(), "9".into())
        .with_param("op_id".into(), "2".into())
        .with_hint("Pick a tool from the library.".into());
    assert_eq!(e.kind, ErrorKind::Misconfigured);
    assert_eq!(e.code, Some(ErrorCode::MissingTool));
    assert_eq!(
        e.params,
        vec![("op_id".to_string(), "2".to_string()), ("tool".to_string(), "9".to_string())]
    );
    assert_eq!(
        e.display_string(),
        "op 2 references missing tool 9 (hint: Pick a tool from the library.)"
    );
    assert_eq!(Error::bad_input("oops".into()).display_string(), "oops");
    let s = Error::io("x".into()).with_span(SourceSpan { file: "f.dxf".into(), line: 12, column: 3 });
    assert_eq!(s.span.as_ref().map(|b| b.line), Some(12));
    assert_eq!(Error::internal("x".into()).kind, ErrorKind::Internal);
    assert_eq!(Error::limit("x".into()).kind, ErrorKind::Limit);
    assert_eq!(Error::unsupported("x".into()).kind, ErrorKind::Unsupported);
}

#[test]
fn template_and_split_helpers() {
    assert_eq!(template_lines(&"a\n\nb".to_string()), vec!["a", "", "b"]);
    assert_eq!(template_lines(&String::new()), vec![""]);
    let cs: Vec<char> = "x,y,".chars().collect();
    assert_eq!(split_on(&cs, ','), vec!["x", "y", ""]);
    assert_eq!(Wcs::G55.gcode_word(), "G55");
    assert_eq!(Wcs::G59.p_number(), 6);
}

#[test]
fn font_names_mark_single_line_fonts() {
    assert!(family_name_says_single_line(&["Relief SingleLine".to_string()]));
    assert!(family_name_says_single_line(&["x".to_string(), "Hershey Sans".to_string()]));
    assert!(!family_name_says_single_line(&["DejaVu Sans".to_string()]));
    assert!(!family_name_says_single_line(&[]));
    // Bytes that are not a font.
    assert_eq!(single_line_by_name(b"not a font"), None);
    assert_eq!(font_family_name(b"not a font"), None);
    assert!(!is_single_line_font(b"not a font", || true));
}

#[test]
fn auto_fix_is_kept_by_the_builders() {
    for fix in [
        AutoFix::AssignTool { op_id: 1, suggested_tool_id: 7 },
        AutoFix::DisableOp { op_id: 3 },
        AutoFix::ChangeProfileOffset { op_id: 4, suggested: ToolOffset::Outside },
    ] {
        let e = Error::misconfigured("x".into())
            .with_auto_fix(fix)
            .with_hint("h".into())
            .with_code(ErrorCode::MissingTool);
        assert_eq!(e.auto_fix, Some(fix));
    }
    assert_eq!(Error::bad_input("b".into()).auto_fix, None);
}

#[test]
fn pipeline_errors_lift_into_structured_errors() {
    assert!(PipelineError::Cancelled.to_structured(Some(1)).is_none());
    assert_eq!(PipelineError::Cancelled.display_string(), "pipeline cancelled");

    let e = PipelineError::UnknownTool(2, 9).to_structured(Some(5)).unwrap();
    assert_eq!(e.kind, ErrorKind::Misconfigured);
    assert_eq!(e.code, Some(ErrorCode::MissingTool));
    assert_eq!(e.message, "op 2 references missing tool 9");
    assert_eq!(
        e.params,
        vec![("op_id".to_string(), "2".to_string()), ("tool_id".to_string(), "9".to_string())]
    );
    assert_eq!(e.recovery_hint.as_deref(), Some("Pick a tool from the library."));
    assert_eq!(e.auto_fix, Some(AutoFix::AssignTool { op_id: 2, suggested_tool_id: 5 }));
    assert_eq!(PipelineError::UnknownTool(2, 9).to_structured(None).unwrap().auto_fix, None);
    assert_eq!(
        PipelineError::UnknownTool(2, 9).display_string(),
        "operation #2 references unknown tool id 9"
    );

    let e = PipelineError::UnknownPostProcessor("fanuc".into()).to_structured(None).unwrap();
    assert_eq!(e.message, "unknown post_processor: fanuc");
    assert_eq!(e.code, Some(ErrorCode::UnknownPostProcessor));
    assert_eq!(e.params, vec![("name".to_string(), "fanuc".to_string())]);
    assert_eq!(
        e.display_string(),
        "unknown post_processor: fanuc (hint: Pick a known post: linuxcnc, grbl, or hpgl.)"
    );

    let e = PipelineError::UnimplementedKind("Engrave".into()).to_structured(None).unwrap();
    assert_eq!(e.kind, ErrorKind::Unsupported);
    assert_eq!(e.message, "operation kind Engrave is not implemented yet");

    let e = PipelineError::TextRender("no glyphs".into()).to_structured(None).unwrap();
    assert_eq!(e.code, Some(ErrorCode::TextRenderFailed));
    assert_eq!(e.message, "text render: no glyphs");
    assert_eq!(e.params, vec![("detail".to_string(), "no glyphs".to_string())]);
    assert_eq!(
        PipelineError::TextRender("no glyphs".into()).display_string(),
        "text render failed: no glyphs"
    );

    let sever = PipelineError::TwoSidedThrough {
        op_id: 4,
        thickness_mm: "12".into(),
        removal_mm: "12.5".into(),
    };
    let e = sever.to_structured(None).unwrap();
    assert_eq!(e.code, Some(ErrorCode::TwoSidedThrough));
    assert_eq!(
        e.message,
        "two-sided job: operation #4 cuts clean through the 12 mm stock from the front, so it can't be flipped and re-registered"
    );
    assert_eq!(
        e.params,
        vec![
            ("op_id".to_string(), "4".to_string()),
            ("removal_mm".to_string(), "12.5".to_string()),
            ("thickness_mm".to_string(), "12".to_string()),
        ]
    );
    assert_eq!(
        sever.display_string(),
        "two-sided job: operation #4 removes 12.5 mm through 12 mm stock from the front, severing it before the flip"
    );
}

#[test]
fn display_includes_hint() {
    let e = Error::misconfigured("op 2 references missing tool 9".into())
        .with_hint("Pick a tool from the library.".into());
    let s = e.display_string();
    assert!(s.contains("op 2 references missing tool 9"), "{s}");
    assert!(s.contains("Pick a tool from the library."), "{s}");
}

#[test]
fn display_without_hint_is_just_message() {
    let e = Error::bad_input("oops".into());
    assert_eq!(e.display_string(), "oops");
}

/// A minimal font: a table directory with one `name` table holding the
/// given `(name id, text)` records (Windows, Unicode BMP, en-US).
fn font_with_names(names: &[(u16, &str)]) -> Vec<u8> {
    let count = names.len() as u16;
    let storage_offset = 6 + 12 * count;
    let mut records = Vec::new();
    let mut storage = Vec::new();
    for (id, text) in names {
        let utf16: Vec<u8> = text.encode_utf16().flat_map(|u| u.to_be_bytes()).collect();
        for v in [3u16, 1, 0x0409, *id, utf16.len() as u16, storage.len() as u16] {
            records.extend_from_slice(&v.to_be_bytes());
        }
        storage.extend_from_slice(&utf16);
    }
    let mut table = Vec::new();
    for v in [0u16, count, storage_offset] {
        table.extend_from_slice(&v.to_be_bytes());
    }
    table.extend_from_slice(&records);
    table.extend_from_slice(&storage);
    let mut font = Vec::new();
    font.extend_from_slice(&0x0001_0000u32.to_be_bytes());
    for v in [1u16, 16, 0, 0] {
        font.extend_from_slice(&v.to_be_bytes());
    }
    font.extend_from_slice(b"name");
    font.extend_from_slice(&0u32.to_be_bytes());
    font.extend_from_slice(&28u32.to_be_bytes());
    font.extend_from_slice(&(table.len() as u32).to_be_bytes());
    font.extend_from_slice(&table);
    font
}

#[test]
fn font_names_are_read_from_the_name_table() {
    let hershey = font_with_names(&[(1, "Hershey Sans"), (4, "Hershey Sans Regular")]);
    assert_eq!(single_line_by_name(&hershey), Some(true));
    assert_eq!(font_family_name(&hershey), Some("Hershey Sans".to_string()));

    let plain = font_with_names(&[(1, "DejaVu Sans"), (4, "DejaVu Sans Book")]);
    assert_eq!(single_line_by_name(&plain), Some(false));
    assert_eq!(font_family_name(&plain), Some("DejaVu Sans".to_string()));
    // The names are silent: the outline check decides.
    assert!(is_single_line_font(&plain, || true));
    assert!(!is_single_line_font(&plain, || false));

    // A marker in the typographic family name counts too.
    let relief = font_with_names(&[(1, "Relief"), (16, "Relief SingleLine")]);
    assert_eq!(single_line_by_name(&relief), Some(true));
    assert!(is_single_line_font(&relief, || false));

    // A font without a family name parses but has none to report.
    let nameless = font_with_names(&[(4, "Something Book")]);
    assert_eq!(font_family_name(&nameless), None);
    assert_eq!(single_line_by_name(&nameless), Some(false));
}

#[test]
fn font_bytes_that_do_not_parse_are_a_misconfiguration() {
    let e = check_font_face(b"not a font").unwrap_err();
    assert_eq!(e.kind, ErrorKind::Misconfigured);
    assert!(e.message.starts_with("ttf parse: "));
    assert!(e.message.len() > "ttf parse: ".len());
    assert_eq!(e.recovery_hint.as_deref(), Some("Pick a different font for this text layer."));
    assert!(e.code.is_none());
    assert!(check_font_face(&font_with_names(&[(1, "Relief SingleLine")])).is_ok());
}
