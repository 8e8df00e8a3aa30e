use ivac::gcode::linuxcnc::Post;
use ivac::gcode::{CoolantState, SpindleDirection};
use ivac::pipeline::program_only::{
    emit_cycle_marker_op, emit_cycle_marker_op_grbl, emit_gcode_include_op,
    emit_gcode_include_op_grbl, emit_homing_op, emit_homing_op_grbl, emit_pause_op,
    body_words_lead_ascii_check, emit_pause_op_grbl, emit_probe_op, emit_probe_op_grbl,
    group_marker,
};
use ivac::pipeline::per_op::{per_op_done, per_op_step, OpContext, PerOpAction, PerOpState};
use ivac::pipeline::toolchange::{
    boundary_toolchange, toolchange_envelope, ChangeStep, EnvelopeTool, PostChangeZ, ToolChangeConfig, ToolChangeStrategy,
};
use ivac::pipeline::raw_gcode::{
    classify_gcode_include_body, classify_gcode_include_line, expand_gcode_include_vars,
    strip_gcode_comment, text_lines_of, ExpansionVars, GcodeIncludeLineClass,
};
use ivac::pipeline::{
    count_tool_changes, next_prev_tool_id, op_can_emit_internal_swap, order_ops_by_tool,
    program_only_label, spindle_warmup_seconds, streaming_kind, Op, OpKind, PipelineWarning, PostProcessorKind,
    StreamUnsupported,
};

fn profile_op(id: u32, tool: u32) -> Op {
    Op {
        id,
        enabled: true,
        kind: OpKind::Profile,
        tool_id: tool,
        finish_tool_id: None,
        pin_order: false,
    }
}

fn pocket_op(id: u32, tool: u32) -> Op {
    Op {
        kind: OpKind::Pocket,
        ..profile_op(id, tool)
    }
}

fn pause_op(id: u32) -> Op {
    Op {
        kind: OpKind::Pause,
        ..profile_op(id, 1)
    }
}

#[test]
fn single_op_counts_one_change() {
    assert_eq!(count_tool_changes(&[profile_op(1, 1)]), 1);
}

#[test]
fn back_to_back_same_tool_counts_one() {
    assert_eq!(count_tool_changes(&[profile_op(1, 1), profile_op(2, 1)]), 1);
}

#[test]
fn two_distinct_tools_count_two() {
    assert_eq!(count_tool_changes(&[profile_op(1, 1), profile_op(2, 2)]), 2);
}

#[test]
fn pause_op_does_not_break_same_tool_run() {
    assert_eq!(
        count_tool_changes(&[profile_op(1, 1), pause_op(2), profile_op(3, 1)]),
        1
    );
}

#[test]
fn disabled_ops_are_skipped() {
    let mut a = profile_op(1, 1);
    a.enabled = false;
    assert_eq!(count_tool_changes(&[a, profile_op(2, 2)]), 1);
}

#[test]
fn profile_op_with_distinct_finish_tool_counts_one_change() {
    let mut op = profile_op(1, 1);
    op.finish_tool_id = Some(2);
    assert_eq!(count_tool_changes(&[op]), 1);
}

#[test]
fn pocket_op_with_distinct_finish_tool_still_counts_internal_swap() {
    let mut op = pocket_op(1, 1);
    op.finish_tool_id = Some(2);
    assert_eq!(count_tool_changes(&[op]), 2);
}

#[test]
fn finish_tool_stays_loaded_for_the_next_op() {
    let mut a = pocket_op(1, 1);
    a.finish_tool_id = Some(2);
    assert_eq!(count_tool_changes(&[a, profile_op(2, 2)]), 2);
    assert_eq!(count_tool_changes(&[]), 0);
    let drill = Op {
        kind: OpKind::Drill { chamfer: true },
        finish_tool_id: Some(5),
        ..profile_op(3, 4)
    };
    assert!(op_can_emit_internal_swap(&drill));
    assert_eq!(count_tool_changes(&[drill]), 2);
}

#[test]
fn next_prev_tool_follows_the_emitted_swap() {
    let mut op = pocket_op(1, 1);
    op.finish_tool_id = Some(2);
    assert_eq!(next_prev_tool_id(&op, true), 2);
    assert_eq!(next_prev_tool_id(&op, false), 1);
    op.finish_tool_id = Some(1);
    assert_eq!(next_prev_tool_id(&op, true), 1);
}

#[test]
fn grouping_orders_runs_by_first_seen_tool_around_barriers() {
    let t1a = profile_op(1, 1);
    let t2a = profile_op(2, 2);
    let t1b = profile_op(3, 1);
    let p = pause_op(4);
    let t3 = profile_op(5, 3);
    let t2b = profile_op(6, 2);
    let ops = [t1a, t2a, t1b, p, t3, t2b];
    let grouped = order_ops_by_tool(&ops, true);
    let ids: Vec<u32> = grouped.iter().map(|o| o.id).collect();
    assert_eq!(ids, vec![1, 3, 2, 4, 5, 6]);
    let kept = order_ops_by_tool(&ops, false);
    let ids: Vec<u32> = kept.iter().map(|o| o.id).collect();
    assert_eq!(ids, vec![1, 2, 3, 4, 5, 6]);
    let mut pinned = t1b;
    pinned.pin_order = true;
    let grouped = order_ops_by_tool(&[t1a, t2a, pinned, t1a], true);
    let ids: Vec<u32> = grouped.iter().map(|o| o.id).collect();
    assert_eq!(ids, vec![1, 2, 3, 1]);
}

#[test]
fn labels_and_tags() {
    assert_eq!(program_only_label(OpKind::Pause), "pause");
    assert_eq!(program_only_label(OpKind::GcodeInclude), "gcode include");
    assert_eq!(program_only_label(OpKind::Pocket), "op");
    assert_eq!(PostProcessorKind::Linuxcnc.cache_tag(), 0);
    assert_eq!(PostProcessorKind::Grbl.cache_tag(), 1);
    assert_eq!(PostProcessorKind::Hpgl.cache_tag(), 2);
    assert_eq!(streaming_kind(None), Ok(PostProcessorKind::Linuxcnc));
    assert_eq!(streaming_kind(Some(PostProcessorKind::Grbl)), Ok(PostProcessorKind::Grbl));
    assert_eq!(
        streaming_kind(Some(PostProcessorKind::Hpgl)),
        Err(StreamUnsupported { kind: PostProcessorKind::Hpgl })
    );
}

#[test]
fn warning_params_stay_sorted_and_last_write_wins() {
    let w = PipelineWarning::for_op(3, "tool_too_big".into(), "cutter too big".into())
        .with_param("op_id".into(), "3".into())
        .with_param("name".into(), "Pocket".into())
        .with_param("op_id".into(), "4".into());
    assert_eq!(w.op_id, Some(3));
    assert_eq!(w.kind, "tool_too_big");
    assert_eq!(
        w.params,
        vec![
            ("name".to_string(), "Pocket".to_string()),
            ("op_id".to_string(), "4".to_string())
        ]
    );
    let g = PipelineWarning::new("k".into(), "m".into());
    assert_eq!(g.op_id, None);
    assert!(g.params.is_empty());
}

#[test]
fn include_lines_are_classified() {
    assert_eq!(classify_gcode_include_line("G0 X10 Y10"), GcodeIncludeLineClass::Simulated);
    assert_eq!(classify_gcode_include_line("x5"), GcodeIncludeLineClass::Simulated);
    assert_eq!(classify_gcode_include_line("  (just a note) "), GcodeIncludeLineClass::NoOp);
    assert_eq!(classify_gcode_include_line("M5 ; stop"), GcodeIncludeLineClass::NoOp);
    assert_eq!(classify_gcode_include_line("G21 G90 F300"), GcodeIncludeLineClass::NoOp);
    assert_eq!(
        classify_gcode_include_line("G1 G64 X1"),
        GcodeIncludeLineClass::Unsimulated(
            "unsupported G64 — sim recognizes only G0/G1/G2/G3 + canned cycles G73/G81/G82/G83"
                .to_string()
        )
    );
    assert_eq!(
        classify_gcode_include_line("G1 X1 a90 B4"),
        GcodeIncludeLineClass::Unsimulated("A-axis word — sim is 3-axis (XYZ) only".to_string())
    );
    assert_eq!(strip_gcode_comment("G1 (x) X2 ; tail"), "G1  X2 ");
}

#[test]
fn include_body_counts_and_skips() {
    let c = classify_gcode_include_body("G0 X0\r\nM3 S100\n\nG65 P1 (macro)\nG1 Y2\n");
    assert_eq!(c.n_simulated, 2);
    assert_eq!(c.n_noop, 2);
    assert_eq!(c.skipped.len(), 1);
    assert_eq!(c.skipped[0].line_no, 4);
    assert_eq!(c.skipped[0].trimmed, "G65 P1");
    assert_eq!(text_lines_of("a\r\nb\n"), vec!["a".to_string(), "b".to_string()]);
    assert_eq!(text_lines_of("a\n\nb\r"), vec!["a".to_string(), "".to_string(), "b\r".to_string()]);
    assert!(text_lines_of("").is_empty());
}

#[test]
fn include_vars_expand_known_and_report_unknown_once() {
    let vars = ExpansionVars {
        x: Some("1.5000".into()),
        y: Some("0.0000".into()),
        z: Some("-2.0000".into()),
        rate: Some(800),
        speed: None,
        safe_z: "5.0000".into(),
    };
    let (out, unknown) = expand_gcode_include_vars(
        "G0 X{x} Y{Y} Z{safe_z}\nG1 Z{z} F{f} S{s} {foo} {FOO} {bar}\n{open\n",
        &vars,
    );
    assert_eq!(
        out,
        "G0 X1.5000 Y0.0000 Z5.0000\nG1 Z-2.0000 F800 S0 {foo} {FOO} {bar}\n{open\n"
    );
    assert_eq!(unknown, vec!["foo".to_string(), "bar".to_string()]);
}

#[test]
fn pause_op_stops_and_forgets_the_feed() {
    let mut post = Post::new();
    post.feedrate(600);
    emit_pause_op(&mut post, 3, "change bit", true);
    post.feedrate(600);
    emit_pause_op(&mut post, 4, "", false);
    assert_eq!(
        post.finish(),
        "F600\n; OP 3 (pause)\nM5\n(change bit)\nM1\nF600\n; OP 4 (pause)\nM5\nM0\n"
    );
}

#[test]
fn cycle_marker_op_is_two_comment_lines() {
    let mut post = Post::new();
    post.feedrate(600);
    emit_cycle_marker_op(&mut post, 7, "side A");
    emit_cycle_marker_op(&mut post, 8, "");
    // No modal state is touched: the same feed is not re-emitted.
    post.feedrate(600);
    assert_eq!(
        post.finish(),
        "F600\n; OP 7 (cycle marker)\n; --- side A ---\n; OP 8 (cycle marker)\n; ---\n"
    );
}

#[test]
fn gcode_include_op_emits_expanded_lines_and_warns() {
    let vars = ExpansionVars {
        x: Some("1.5000".into()),
        y: Some("0.0000".into()),
        z: Some("-2.0000".into()),
        rate: Some(800),
        speed: Some(12000),
        safe_z: "5.0000".into(),
    };
    let mut post = Post::new();
    post.feedrate(800);
    let ws = emit_gcode_include_op(
        &mut post,
        9,
        "probe block",
        "probe.nc",
        "G0 X{x} Z{safe_z}\nM3 S{s} {what}",
        &vars,
        false,
    );
    post.feedrate(800);
    assert_eq!(
        post.finish(),
        "F800\n; OP 9 (gcode include: probe.nc)\nG0 X1.5000 Z5.0000\nM3 S12000 {what}\nF800\n"
    );
    assert_eq!(ws[0].kind, "gcode_include_unknown_variable");
    assert_eq!(ws[0].op_id, Some(9));

    let mut post = Post::new();
    let ws = emit_gcode_include_op(&mut post, 2, "blank", "", "  \n", &vars, false);
    assert_eq!(post.finish(), "; OP 2 (gcode include)\n  \n");
    assert_eq!(ws.len(), 1);
    assert_eq!(ws[0].kind, "gcode_include_empty");
}

fn change_config(
    strategy: ToolChangeStrategy,
    post_change_z: PostChangeZ,
) -> ToolChangeConfig {
    ToolChangeConfig {
        strategy,
        post_change_z,
        is_mill: true,
        has_change_station: false,
        use_tool_length_offsets: false,
        optional_stop: false,
    }
}

fn envelope_tool(name: &str, dir: SpindleDirection, speed: u32, pause: u32) -> EnvelopeTool {
    EnvelopeTool {
        name: name.to_string(),
        spindle_direction: dir,
        speed,
        pause,
        has_z_shift: true,
    }
}

#[test]
fn atc_envelope_lifts_stops_changes_and_spins_up() {
    let mut m = change_config(ToolChangeStrategy::Atc, PostChangeZ::StaticShift);
    m.has_change_station = true;
    let tool = Some(envelope_tool("6mm", SpindleDirection::Cw, 12000, 2));
    let steps = toolchange_envelope(m, &tool, 2, false, None, CoolantState::Flood);
    assert_eq!(
        steps,
        vec![
            ChangeStep::LiftToSafeZ,
            ChangeStep::RapidToChangeStation,
            ChangeStep::CoolantOff,
            ChangeStep::SpindleOff,
            ChangeStep::StopDwell,
            ChangeStep::ToolChange,
            ChangeStep::StaticZShift,
            ChangeStep::SpindleOn { direction: SpindleDirection::Cw, rpm: 12000 },
            ChangeStep::StartDwell,
            ChangeStep::ToolPause { seconds: 2 },
        ]
    );
    // With the coolant already off there is no M9.
    let steps = toolchange_envelope(m, &tool, 2, false, Some(8000), CoolantState::Off);
    assert_eq!(steps[2], ChangeStep::SpindleOff);
    assert_eq!(steps[6], ChangeStep::SpindleOn { direction: SpindleDirection::Cw, rpm: 8000 });
}

#[test]
fn manual_pause_envelope_prompts_before_the_stop() {
    let mut m = change_config(ToolChangeStrategy::ManualM0Pause, PostChangeZ::ManualTouchoff);
    m.optional_stop = true;
    let tool = Some(envelope_tool("6mm flat", SpindleDirection::Ccw, 12000, 0));
    let steps = toolchange_envelope(m, &tool, 3, false, Some(9000), CoolantState::Off);
    assert_eq!(
        steps,
        vec![
            ChangeStep::LiftToSafeZ,
            ChangeStep::SpindleOff,
            ChangeStep::StopDwell,
            ChangeStep::Comment("pause: swap to tool 3 (6mm flat)".to_string()),
            ChangeStep::Comment(
                "touch off: jog tool 3 to the work surface and zero Z before resuming".to_string()
            ),
            ChangeStep::Pause { optional: true },
            ChangeStep::ResetState,
            ChangeStep::SpindleOn { direction: SpindleDirection::Ccw, rpm: 9000 },
            ChangeStep::StartDwell,
        ]
    );
    // Without a known tool the comment names only the number, and nothing
    // spins up.
    let steps = toolchange_envelope(m, &None, 3, false, None, CoolantState::Off);
    assert_eq!(steps[3], ChangeStep::Comment("pause: swap to tool 3".to_string()));
    assert_eq!(steps.len(), 6);
}

#[test]
fn first_tool_reference_probes_its_sensor_baseline() {
    let m = change_config(
        ToolChangeStrategy::ManualM6Prompt,
        PostChangeZ::FixedSensor { reference_tool_id: None },
    );
    let tool = Some(envelope_tool("ref", SpindleDirection::Cw, 10000, 0));
    let steps = toolchange_envelope(m, &tool, 1, true, None, CoolantState::Flood);
    assert_eq!(
        steps,
        vec![
            ChangeStep::LiftToSafeZ,
            ChangeStep::Comment(
                "manual tool change: the controller will park and prompt for the swap".to_string()
            ),
            ChangeStep::ToolChange,
            ChangeStep::Comment(
                "post-change Z: fixed sensor baseline (reference tool 1)".to_string()
            ),
            ChangeStep::FixedSensorProbe { reference: true },
            ChangeStep::SpindleOn { direction: SpindleDirection::Cw, rpm: 10000 },
            ChangeStep::StartDwell,
        ]
    );
    // A later tool differences against the baseline.
    let steps = toolchange_envelope(m, &tool, 2, false, None, CoolantState::Off);
    assert!(steps.contains(&ChangeStep::Comment("post-change Z: fixed sensor (tool 2)".to_string())));
    assert!(steps.contains(&ChangeStep::FixedSensorProbe { reference: false }));
}

#[test]
fn tool_table_offset_supersedes_probe_and_laser_gets_no_spindle() {
    let mut m = change_config(ToolChangeStrategy::Atc, PostChangeZ::Probe);
    let tool = Some(envelope_tool("drill", SpindleDirection::Cw, 5000, 0));
    let steps = toolchange_envelope(m, &tool, 4, false, None, CoolantState::Off);
    assert_eq!(steps[3], ChangeStep::ToolChange);
    assert_eq!(steps[4], ChangeStep::Comment("post-change Z: probe touch plate (tool 4)".to_string()));
    assert_eq!(steps[5], ChangeStep::ProbePlate);
    m.use_tool_length_offsets = true;
    let steps = toolchange_envelope(m, &tool, 4, false, None, CoolantState::Off);
    assert_eq!(steps[4], ChangeStep::ToolLengthOffset);
    assert!(!steps.contains(&ChangeStep::ProbePlate));

    let mut laser = change_config(ToolChangeStrategy::Ignore, PostChangeZ::StaticShift);
    laser.is_mill = false;
    laser.has_change_station = true;
    let steps = toolchange_envelope(laser, &tool, 5, false, None, CoolantState::Flood);
    assert_eq!(steps, vec![ChangeStep::LiftToSafeZ, ChangeStep::RapidToChangeStation]);
}

#[test]
fn boundary_toolchange_only_on_a_known_new_tool() {
    let m = change_config(ToolChangeStrategy::Atc, PostChangeZ::StaticShift);
    let tool = Some(envelope_tool("6mm", SpindleDirection::Cw, 12000, 2));
    let (now, steps) = boundary_toolchange(m, Some(1), 5, "rough", 2, &tool, CoolantState::Off);
    assert_eq!(now, Some(2));
    assert_eq!(
        steps,
        vec![
            ChangeStep::Comment("toolchange: T2 (6mm) for op 5 (rough)".to_string()),
            ChangeStep::LiftToSafeZ,
            ChangeStep::SpindleOff,
            ChangeStep::StopDwell,
            ChangeStep::ToolChange,
            ChangeStep::StaticZShift,
            ChangeStep::SpindleOn { direction: SpindleDirection::Cw, rpm: 12000 },
            ChangeStep::StartDwell,
            ChangeStep::ToolPause { seconds: 2 },
        ]
    );
    let (now, steps) = boundary_toolchange(m, Some(2), 6, "finish", 2, &tool, CoolantState::Off);
    assert_eq!(now, Some(2));
    assert!(steps.is_empty());
    let (now, steps) = boundary_toolchange(m, Some(2), 7, "chamfer", 3, &None, CoolantState::Off);
    assert_eq!(now, Some(3));
    assert!(steps.is_empty());
    // A manual pause machine gets no M6 comment.
    let m0 = change_config(ToolChangeStrategy::ManualM0Pause, PostChangeZ::StaticShift);
    let (_, steps) = boundary_toolchange(m0, None, 1, "first", 2, &tool, CoolantState::Off);
    assert_eq!(steps[0], ChangeStep::LiftToSafeZ);
    assert!(!steps.contains(&ChangeStep::Pause { optional: false }));
}

#[test]
fn group_markers_fire_once_per_change() {
    let g = |s: &str| Some(s.to_string());
    assert_eq!(
        group_marker(&None, &g("roughing")),
        (g("roughing"), g("; === GROUP: roughing ==="))
    );
    assert_eq!(group_marker(&g("roughing"), &g("roughing")), (g("roughing"), None));
    assert_eq!(
        group_marker(&g("roughing"), &g("finishing")),
        (g("finishing"), g("; === GROUP: finishing ==="))
    );
    assert_eq!(group_marker(&g("roughing"), &g("")), (None, g("; === END GROUP ===")));
    assert_eq!(group_marker(&g("roughing"), &None), (None, g("; === END GROUP ===")));
    assert_eq!(group_marker(&None, &None), (None, None));
    assert_eq!(group_marker(&None, &g("")), (None, None));
}

#[test]
fn warmup_accrues_per_tool_load() {
    let pauses = [(1u32, 3u32), (2, 5)];
    // Tool 1 is loaded twice, tool 2 once.
    let ops = [profile_op(1, 1), profile_op(2, 2), pause_op(3), profile_op(4, 1)];
    assert_eq!(spindle_warmup_seconds(&ops, &pauses), 11);
    assert_eq!(count_tool_changes(&ops), 3);
    // A same-tool run warms up once; an unknown tool adds nothing.
    assert_eq!(spindle_warmup_seconds(&[profile_op(1, 2), profile_op(2, 2)], &pauses), 5);
    assert_eq!(spindle_warmup_seconds(&[profile_op(1, 9)], &pauses), 0);
    // A pocket's distinct finish tool is loaded inside the op.
    let mut pocket = pocket_op(5, 1);
    pocket.finish_tool_id = Some(2);
    assert_eq!(spindle_warmup_seconds(&[pocket, profile_op(6, 2)], &pauses), 8);
    // Disabled ops load nothing.
    let mut off = profile_op(7, 2);
    off.enabled = false;
    assert_eq!(spindle_warmup_seconds(&[off], &pauses), 0);
    assert_eq!(spindle_warmup_seconds(&[], &pauses), 0);
    // With one pause for every tool, warm-up is that pause per tool change.
    let even = [(1u32, 4u32), (2, 4)];
    let mut pocket = pocket_op(8, 2);
    pocket.finish_tool_id = Some(1);
    let ops = [profile_op(1, 1), profile_op(2, 2), pocket, profile_op(3, 1), profile_op(4, 2)];
    assert_eq!(
        spindle_warmup_seconds(&ops, &even),
        4 * u128::from(count_tool_changes(&ops))
    );
}

#[test]
fn include_vars_unset_position_expands_to_zero() {
    let vars = ExpansionVars {
        x: None,
        y: None,
        z: Some("-1.0000".into()),
        rate: None,
        speed: None,
        safe_z: "5.0000".into(),
    };
    let (out, unknown) = expand_gcode_include_vars("G0 X{x}", &vars);
    assert_eq!(out, "G0 X0");
    assert!(unknown.is_empty());
    let (out, _) = expand_gcode_include_vars("G1 X{X} Y{y} Z{z} F{f}", &vars);
    assert_eq!(out, "G1 X0 Y0 Z-1.0000 F0");
}

#[test]
fn homing_and_probe_ops_reset_the_modal_state() {
    let mut post = Post::new();
    post.feedrate(600);
    emit_homing_op(&mut post, 5, Some("G0 Z5"));
    post.feedrate(600);
    emit_homing_op(&mut post, 6, None);
    emit_probe_op(&mut post, 7, 'Z', "-10.0000", 100);
    post.feedrate(600);
    assert_eq!(
        post.finish(),
        "F600\n; OP 5 (homing)\nG28\nG0 Z5\nF600\n; OP 6 (homing)\nG28\n; OP 7 (probe)\nG38.2 Z-10.0000 F100\nF600\n"
    );
}

#[test]
fn program_only_ops_into_a_grbl_post_rewrite_paren_headers() {
    let mut post = ivac::gcode::grbl::Post::new();
    emit_pause_op_grbl(&mut post, 3, "change bit", true);
    emit_cycle_marker_op_grbl(&mut post, 4, "side A");
    emit_homing_op_grbl(&mut post, 5, None);
    emit_probe_op_grbl(&mut post, 6, 'Z', "-5.0000", 80);
    let vars = ExpansionVars {
        x: None,
        y: None,
        z: None,
        rate: None,
        speed: None,
        safe_z: "5.0000".into(),
    };
    let ws = emit_gcode_include_op_grbl(&mut post, 7, "home", "", "G0 X{x} (go)", &vars, false);
    assert!(ws.is_empty());
    assert_eq!(
        post.finish(),
        "; OP 3\n; pause\nM5\n; change bit\nM1\n; OP 4\n; cycle marker\n; --- side A ---\n; OP 5\n; homing\nG28\n; OP 6\n; probe\nG38.2 Z-5.0000 F80\n; OP 7\n; gcode include\nG0 X0\n; go\n"
    );
}

fn op_context(group: Option<&str>, tool: Option<EnvelopeTool>) -> OpContext {
    OpContext {
        group: group.map(|g| g.to_string()),
        name: "cut".to_string(),
        tool,
        machine: change_config(ToolChangeStrategy::Atc, PostChangeZ::StaticShift),
        coolant: CoolantState::Off,
    }
}

#[test]
fn per_op_step_orders_marker_reset_envelope_checkpoint_body() {
    let tool = Some(envelope_tool("6mm", SpindleDirection::Cw, 12000, 2));
    let st = PerOpState { prev_tool_id: None, prev_group: None };
    let ctx = op_context(Some("rough"), tool.clone());
    let (next, acts) = per_op_step(&st, &profile_op(1, 2), &ctx, true);
    let (_, steps) = boundary_toolchange(ctx.machine, None, 1, "cut", 2, &tool, CoolantState::Off);
    assert!(!steps.is_empty());
    let mut expected = vec![
        PerOpAction::Marker("; === GROUP: rough ===".to_string()),
        PerOpAction::CaptureState,
        PerOpAction::ResetState,
    ];
    expected.extend(steps.into_iter().map(PerOpAction::Step));
    expected.push(PerOpAction::Checkpoint);
    expected.push(PerOpAction::Body);
    assert_eq!(acts, expected);
    assert_eq!(next.prev_tool_id, Some(2));
    assert_eq!(next.prev_group.as_deref(), Some("rough"));

    // Same group, same tool: no marker and no envelope.
    let (again, acts) = per_op_step(&next, &profile_op(2, 2), &ctx, true);
    assert_eq!(
        acts,
        vec![
            PerOpAction::CaptureState,
            PerOpAction::ResetState,
            PerOpAction::Checkpoint,
            PerOpAction::Body,
        ]
    );
    assert_eq!(again.prev_tool_id, Some(2));
}

#[test]
fn per_op_step_program_only_and_silent_ops_skip_the_envelope() {
    let tool = Some(envelope_tool("6mm", SpindleDirection::Cw, 12000, 2));
    let st = PerOpState { prev_tool_id: Some(1), prev_group: Some("rough".to_string()) };
    let mut pause = profile_op(3, 9);
    pause.kind = OpKind::Pause;
    let (next, acts) = per_op_step(&st, &pause, &op_context(None, tool.clone()), true);
    assert_eq!(
        acts,
        vec![
            PerOpAction::Marker("; === END GROUP ===".to_string()),
            PerOpAction::CaptureState,
            PerOpAction::ResetState,
            PerOpAction::Checkpoint,
            PerOpAction::ProgramOnly,
        ]
    );
    assert_eq!(next.prev_tool_id, Some(1));
    assert_eq!(next.prev_group, None);
    // A cutting op that will emit nothing keeps the loaded tool.
    let (next, acts) = per_op_step(&next, &profile_op(4, 9), &op_context(Some(""), tool), false);
    assert_eq!(
        acts,
        vec![
            PerOpAction::CaptureState,
            PerOpAction::ResetState,
            PerOpAction::Checkpoint,
            PerOpAction::Body,
        ]
    );
    assert_eq!(next.prev_tool_id, Some(1));
}

#[test]
fn per_op_done_leaves_the_finish_tool_after_a_swap() {
    let st = PerOpState { prev_tool_id: Some(2), prev_group: None };
    let mut op = pocket_op(5, 2);
    op.finish_tool_id = Some(7);
    assert_eq!(per_op_done(st.clone(), &op, true).prev_tool_id, Some(7));
    assert_eq!(per_op_done(st.clone(), &op, false).prev_tool_id, Some(2));
    let mut pause = op;
    pause.kind = OpKind::Pause;
    assert_eq!(per_op_done(st, &pause, true).prev_tool_id, Some(2));
}

#[test]
fn body_words_lead_ascii_check_finds_a_multibyte_word_start() {
    assert!(body_words_lead_ascii_check("G0 X1 (é in a comment)\nM3 S100"));
    assert!(body_words_lead_ascii_check(""));
    assert!(body_words_lead_ascii_check("G1 Xé"));
    assert!(!body_words_lead_ascii_check("G0\n  éX1"));
    assert!(!body_words_lead_ascii_check("G0 ÿ"));
}
