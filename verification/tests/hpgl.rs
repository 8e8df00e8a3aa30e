use ivac::gcode::hpgl::Post;

#[test]
fn p9ji_repeat_feedrate_deduped() {
    let mut post = Post::new();
    post.feedrate(600);
    post.feedrate(600);
    post.feedrate(600);
    let out = post.finish();
    let vs_count = out.matches("VS").count();
    assert_eq!(vs_count, 1, "expected one VS emission, got {vs_count}: {out}");
}

#[test]
fn p9ji_feedrate_change_emits_new_vs() {
    let mut post = Post::new();
    post.feedrate(6000);
    post.feedrate(600);
    let out = post.finish();
    assert!(out.contains("VS10;"), "missing VS10 from initial fast feed: {out}");
    assert!(out.contains("VS1;"), "missing VS1 from slow cut: {out}");
}

#[test]
fn p9ji_feedrate_zero_is_noop() {
    let mut post = Post::new();
    post.feedrate(0);
    let out = post.finish();
    assert!(!out.contains("VS"), "rate=0 should not emit VS; got: {out}");
}

#[test]
fn hpgl_feedrate_rounds_half_up_and_clamps_to_one() {
    let mut post = Post::new();
    post.feedrate(299);
    post.feedrate(900);
    post.feedrate(1499);
    assert_eq!(post.finish(), "VS1;\nVS2;\n");
}

#[test]
fn hpgl_listing_splits_statements_and_moves() {
    let mut post = Post::new();
    post.program_start();
    post.move_to_plu(Some(0), Some(0));
    post.linear_plu(Some(400), Some(400));
    post.linear_plu(None, Some(-40));
    post.move_to_plu(Some(600), None);
    post.program_end();
    assert_eq!(
        post.finish(),
        "IN;\nSP1;\nPA0,0;\nPD;\nPA400,400;\nPA400,-40;\nPU;\nPA600,-40;\nPU;\nSP0;\nIN;\n"
    );
    assert_eq!(post.position(), (Some(600), Some(-40)));
    assert!(!post.pen_is_down());
}

#[test]
fn hpgl_move_without_known_position_emits_nothing() {
    let mut post = Post::new();
    post.move_to_plu(Some(10), None);
    assert_eq!(post.finish(), "\n");
    assert_eq!(post.out_lines_count(), 0);
}

#[test]
fn hpgl_capture_restore_round_trips() {
    let mut post = Post::new();
    post.move_to_plu(Some(5), Some(7));
    let saved = post.capture_state();
    post.reset_state();
    assert_eq!(post.position(), (None, None));
    post.restore_state(saved);
    assert_eq!(post.position(), (Some(5), Some(7)));
}

#[test]
fn hpgl_unterminated_entry_keeps_its_tail_line() {
    let mut post = Post::new();
    post.out_extend_lines(&["AB;CD".to_string()]);
    assert_eq!(post.finish(), "AB;\nCD\n");
}

#[test]
fn p9ji_feedrate_emits_vs() {
    // 10 mm is 400 plotter units.
    let mut post = Post::new();
    post.program_start();
    post.feedrate(600);
    post.move_to_plu(Some(400), Some(400));
    let out = post.finish();
    assert!(out.contains("VS1;"), "expected VS1; in HPGL output for feedrate=600 mm/min, got: {out}");
}

#[test]
fn nll2_finish_inserts_newlines_after_semicolons() {
    let mut post = Post::new();
    post.program_start();
    post.move_to_plu(Some(0), Some(0));
    post.linear_plu(Some(400), Some(400));
    post.program_end();
    let out = post.finish();
    let line_count = out.lines().count();
    assert!(
        line_count >= 4,
        "HPGL output should be split per `;`-statement, got {line_count} line(s): {out:?}"
    );
    assert!(out.contains("IN;\n"), "IN; should be its own line: {out:?}");
    assert!(out.contains("SP1;\n"), "SP1; should be its own line: {out:?}");
    assert!(out.ends_with('\n'), "output must end with a newline: {out:?}");
}
