use ivac::gcode::linuxcnc::Post;
use ivac::gcode::{CoolantState, PostProfile, SpindleDirection, ToolOffset, UnitSystem, Wcs};

fn demo(post: &mut Post) {
    post.unit(UnitSystem::Mm);
    post.program_start();
    post.feedrate(600);
    post.raw("G0 X0.000 Y0.000 Z5.000");
    post.raw("G1 Z-1.000");
    post.program_end();
}

#[test]
fn linuxcnc_default_program_text() {
    let mut post = Post::new();
    demo(&mut post);
    assert_eq!(
        post.finish(),
        "G21\n(generated by ivaCAM)\nF600\nG0 X0.000 Y0.000 Z5.000\nG1 Z-1.000\nM30\n"
    );
}

#[test]
fn linuxcnc_streaming_post_is_byte_identical_to_buffered() {
    let mut buffered = Post::new();
    demo(&mut buffered);
    let expected = buffered.finish();
    let mut streaming = Post::streaming();
    demo(&mut streaming);
    let mut streamed = streaming.take_output();
    streamed.push_str(&streaming.finish_stream().expect("streaming finalize must succeed"));
    assert_eq!(streamed.as_bytes(), expected.as_bytes());
}

#[test]
fn streaming_post_replays_op_cache_bodies_byte_identically() {
    let mut streaming = Post::streaming();
    streaming.unit(UnitSystem::Mm);
    streaming.program_start();
    let marker = streaming.out_lines_count();
    streaming.raw("G0 X1.000 Y2.000 Z3.000");
    streaming.raw("G1 X4.000 Y5.000 Z6.000");
    let cached_body = streaming.out_lines_clone_from(marker);
    streaming.out_extend_lines(&cached_body);
    streaming.program_end();
    let mut streamed = streaming.take_output();
    streamed.push_str(&streaming.finish_stream().expect("finalize"));

    let mut buffered = Post::new();
    buffered.unit(UnitSystem::Mm);
    buffered.program_start();
    let bmarker = buffered.out_lines_count();
    buffered.raw("G0 X1.000 Y2.000 Z3.000");
    buffered.raw("G1 X4.000 Y5.000 Z6.000");
    let bbody = buffered.out_lines_clone_from(bmarker);
    buffered.out_extend_lines(&bbody);
    buffered.program_end();
    assert_eq!(streamed, buffered.finish());
}

#[test]
fn linuxcnc_feed_is_deduped_and_zero_skipped() {
    let mut post = Post::new();
    post.feedrate(0);
    post.feedrate(1200);
    post.feedrate(1200);
    post.feedrate(0);
    post.feedrate(800);
    assert_eq!(post.finish(), "F1200\nF800\n");
}

#[test]
fn linuxcnc_spindle_reemits_on_direction_change() {
    let mut post = Post::new();
    post.spindle_ccw(12000, 0);
    post.spindle_cw(12000, 3);
    post.spindle_cw(12000, 3);
    post.spindle_off();
    post.spindle_off();
    assert_eq!(post.finish(), "M4 S12000\nM3 S12000\nG4 P3\nM5\n");
}

#[test]
fn linuxcnc_coolant_dedupe_and_defensive_off() {
    let mut post = Post::new();
    post.coolant_off();
    post.coolant_mist();
    post.coolant_mist();
    post.coolant_flood();
    post.coolant_off();
    post.coolant_off();
    assert_eq!(post.finish(), "M9\nM7\nM8\nM9\n");
}

#[test]
fn linuxcnc_templates_replace_builtin_blocks() {
    let mut post = Post::new();
    let mut profile = PostProfile::empty();
    profile.program_start = Some("%\n(start)".into());
    profile.tool_change = Some("T? M6".into());
    profile.coolant_mist_off = Some("M9 (mist off)".into());
    post.set_post_profile(Some(&profile));
    post.program_start();
    post.tool(4);
    post.coolant_off();
    post.program_end();
    assert_eq!(post.finish(), "%\n(start)\nT? M6\nM9 (mist off)\nM30\n");
}

#[test]
fn linuxcnc_misc_words() {
    let mut post = Post::new();
    post.tool(7);
    post.tool_offsets(ToolOffset::Inside);
    post.tool_offsets(ToolOffset::Outside);
    post.tool_offsets(ToolOffset::NoOffset);
    post.absolute(true);
    post.absolute(false);
    post.select_wcs(Wcs::G56);
    post.tool_length_offset(7);
    post.tool_length_offset_off();
    post.store_probed_z_baseline();
    post.apply_probed_tool_length();
    post.comment("hi");
    post.separation();
    assert_eq!(
        post.finish(),
        "T7 M6\nG42\nG41\nG40\nG90\nG91\nG56\nG43 H7\nG49\n#<_ivac_tlref> = #5063\nG43.1 Z[#5063 - #<_ivac_tlref>]\n(hi)\n\n"
    );
}

#[test]
fn linuxcnc_capture_restore_round_trips() {
    let mut post = Post::new();
    post.feedrate(300);
    post.spindle_cw(1000, 0);
    post.coolant_flood();
    let saved = post.capture_state();
    assert_eq!(saved.last_rate, Some(300));
    assert_eq!(saved.last_speed, Some(1000));
    assert_eq!(saved.last_coolant, CoolantState::Flood);
    assert_eq!(saved.last_spindle_dir, Some(SpindleDirection::Cw));
    assert!(saved.spindle_lit);
    post.reset_state();
    let after_reset = post.capture_state();
    assert_eq!(after_reset.last_rate, None);
    assert_eq!(after_reset.last_coolant, CoolantState::Flood);
    post.restore_state(&saved);
    assert_eq!(post.capture_state(), saved);
    // Restored state suppresses the re-emit.
    post.feedrate(300);
    post.spindle_cw(1000, 0);
    assert_eq!(post.finish(), "F300\nM3 S1000\nM8\n");
}

#[test]
fn linuxcnc_laser_fire_and_arm() {
    let mut post = Post::new();
    post.laser_arm();
    post.laser_arm();
    post.laser_on(500);
    post.laser_off();
    post.laser_on(500);
    assert_eq!(post.finish(), "M3 S0\nM3 S500\nM5\nM3 S500\n");
}

#[test]
fn linuxcnc_checkpoint_and_overflow_on_a_capped_stream() {
    let mut post = Post::streaming_with_cap(1);
    post.checkpoint();
    post.raw("A");
    assert!(!post.out_op_overflowed());
    post.raw("B");
    assert!(post.out_op_overflowed());
    post.checkpoint();
    assert!(!post.out_op_overflowed());
    post.record_write_failure();
    assert!(post.finish_stream().is_err());
}

#[test]
fn caller_rendered_feed_is_deduped_on_the_rate() {
    let mut post = Post::new();
    post.feedrate_rendered(600, Some("F23.622"));
    post.feedrate_rendered(600, Some("F23.622"));
    post.feedrate_rendered(0, Some("F0"));
    post.feedrate_rendered(900, None);
    post.feedrate_rendered(900, Some("F35.433"));
    post.feedrate(600);
    assert_eq!(post.finish(), "F23.622\nF600\n");
}
