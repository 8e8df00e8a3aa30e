use ivac::gcode::grbl::{rewrite_paren_comments_for_grbl, Post};
use ivac::gcode::{PostProfile, UnitSystem};

#[test]
fn gcxl_raw_paren_comment_rewritten_to_semicolon() {
    let mut post = Post::new();
    post.raw("(generated by ivaCAM)");
    let out = post.finish();
    assert!(
        out.contains("; generated by ivaCAM"),
        "expected semicolon comment in output, got: {out}",
    );
    assert!(!out.contains('('), "no paren should remain in GRBL output: {out}");
}

#[test]
fn gcxl_raw_inline_paren_split_into_two_lines() {
    let mut post = Post::new();
    post.raw("G1 X10 (move to start)");
    let out = post.finish();
    assert!(out.contains("G1 X10"), "code portion must survive, got: {out}");
    assert!(
        out.contains("; move to start"),
        "comment must move to a `;` line, got: {out}",
    );
    assert!(!out.contains('('), "no paren should remain: {out}");
}

#[test]
fn gcxl_template_program_start_paren_rewritten() {
    let mut post = Post::new();
    let mut profile = PostProfile::empty();
    profile.program_start = Some("(my header)\nG21 G90 (mm + abs)".into());
    post.set_post_profile(Some(&profile));
    post.program_start();
    let out = post.finish();
    assert!(
        !out.contains('('),
        "GRBL output must not contain paren comments: {out}",
    );
    assert!(out.contains("; my header"), "missing rewritten header: {out}");
}

#[test]
fn gcxl_no_rewrite_on_paren_free_input() {
    let mut post = Post::new();
    post.raw("G1 X10 Y20 F500");
    let out = post.finish();
    let line = out.trim();
    assert_eq!(line, "G1 X10 Y20 F500", "got: {out}");
}

#[test]
fn z9zh_default_laser_emits_m3() {
    let mut post = Post::new();
    post.laser_arm();
    post.laser_on(800);
    let out = post.finish();
    assert!(out.contains("M3"), "default should emit M3, got:\n{out}");
    assert!(!out.contains("M4"), "default must NOT emit M4, got:\n{out}");
}

#[test]
fn z9zh_dynamic_laser_emits_m4() {
    let mut post = Post::with_dynamic_laser(true);
    post.laser_arm();
    post.laser_on(800);
    let out = post.finish();
    assert!(out.contains("M4"), "dynamic mode should emit M4, got:\n{out}");
    assert!(!out.contains("M3"), "dynamic mode must not emit M3, got:\n{out}");
    post.laser_off();
    assert!(post.finish().contains("M5"));
}

#[test]
fn grbl_rewrite_exact_outputs() {
    assert_eq!(rewrite_paren_comments_for_grbl("(a) (b)"), "; a\n; b");
    assert_eq!(
        rewrite_paren_comments_for_grbl("  G0 X1 ( first )  (second)  "),
        "G0 X1\n; first\n; second"
    );
    // Unbalanced parens leave the line untouched, trailing space included.
    assert_eq!(rewrite_paren_comments_for_grbl("G1 (oops "), "G1 (oops ");
    // A stray close paren outside a comment is a mismatch: untouched.
    assert_eq!(rewrite_paren_comments_for_grbl("G1 ) (c)"), "G1 ) (c)");
    // Nested parens are no comment either: untouched.
    assert_eq!(rewrite_paren_comments_for_grbl("G1 (a (b) c)"), "G1 (a (b) c)");
    assert_eq!(rewrite_paren_comments_for_grbl("(a (b))"), "(a (b))");
    // No opening paren: returned as given.
    assert_eq!(rewrite_paren_comments_for_grbl("M3 S1000  "), "M3 S1000  ");
    // Empty comment body.
    assert_eq!(rewrite_paren_comments_for_grbl("()"), "; ");
}

#[test]
fn grbl_header_trailer_and_tool_without_template() {
    let mut post = Post::new();
    post.program_start();
    post.tool(3);
    post.apply_probed_tool_length();
    post.cancel_canned_cycle();
    post.program_end();
    assert_eq!(
        post.finish(),
        "; generated by ivaCAM (GRBL)\n; tool length offset: relies on grblHAL $341 in the M6 macro (see grbl_fixed_sensor_no_offset)\nM2\n"
    );
}

#[test]
fn grbl_tool_template_is_rewritten() {
    let mut post = Post::new();
    let mut profile = PostProfile::empty();
    profile.tool_change = Some("M0 (swap tool)".into());
    post.set_post_profile(Some(&profile));
    post.tool(2);
    assert_eq!(post.finish(), "M0\n; swap tool\n");
}

#[test]
fn grbl_comment_uses_semicolon() {
    let mut post = Post::new();
    post.comment("hello");
    post.feedrate(500);
    post.feedrate(500);
    assert_eq!(post.finish(), "; hello\nF500\n");
}

#[test]
fn grbl_streaming_matches_buffered() {
    let mut buffered = Post::new();
    let mut streaming = Post::streaming();
    let mut streamed = String::new();
    for p in [&mut buffered, &mut streaming] {
        p.program_start();
        p.feedrate(600);
        p.raw("G0 X0 Y0 (start)");
        p.program_end();
    }
    streamed.push_str(&streaming.take_output());
    streamed.push_str(&streaming.finish_stream().unwrap());
    assert_eq!(streamed, buffered.finish());
}

#[test]
fn grbl_streaming_post_is_byte_identical_to_buffered() {
    let mut buffered = Post::new();
    let mut streaming = Post::streaming();
    for p in [&mut buffered, &mut streaming] {
        p.unit(UnitSystem::Mm);
        p.program_start();
        p.feedrate(600);
        p.raw("G0 X0 Y0 Z5");
        p.raw("G1 X10 Y0 Z-1");
        p.program_end();
    }
    let expected = buffered.finish();
    let mut streamed = streaming.take_output();
    streamed.push_str(&streaming.finish_stream().expect("streaming finalize must succeed"));
    assert_eq!(streamed.as_bytes(), expected.as_bytes());
}
