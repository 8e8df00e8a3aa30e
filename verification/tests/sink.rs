use ivac::gcode::sink::GcodeSink;

fn sink_of(lines: &[&str]) -> GcodeSink {
    let mut s = GcodeSink::default();
    for l in lines {
        s.push((*l).to_string());
    }
    s
}

/// Stream every line through a fresh streaming sink, handing the rendered
/// output over as a writer would receive it, and return the bytes.
fn stream_bytes(lines: &[&str]) -> Vec<u8> {
    let mut s = GcodeSink::streaming();
    let mut out = String::new();
    for l in lines {
        s.push((*l).to_string());
        out.push_str(&s.take_output());
    }
    out.push_str(&s.finish_stream().unwrap());
    out.into_bytes()
}

fn stream_bytes_capped(lines: &[&str], cap: usize) -> Vec<u8> {
    let mut s = GcodeSink::streaming_with_cap(cap);
    let mut out = String::new();
    for l in lines {
        s.push((*l).to_string());
        out.push_str(&s.take_output());
    }
    out.push_str(&s.finish_stream().unwrap());
    out.into_bytes()
}

#[test]
fn push_and_len_track() {
    let mut s = GcodeSink::default();
    assert_eq!(s.len(), 0);
    s.push("G0 X0".into());
    s.push("G1 X1".into());
    assert_eq!(s.len(), 2);
}

#[test]
fn finish_joins_with_trailing_newline() {
    assert_eq!(sink_of(&["G0", "G1"]).finish(), "G0\nG1\n");
    assert_eq!(sink_of(&["G0"]).finish(), "G0\n");
    assert_eq!(sink_of(&[]).finish(), "\n");
}

#[test]
fn clone_from_slices_the_tail() {
    let s = sink_of(&["a", "b", "c"]);
    assert_eq!(s.clone_from(1), vec!["b".to_string(), "c".to_string()]);
    assert_eq!(s.clone_from(3), Vec::<String>::new());
    assert_eq!(s.clone_from(99), Vec::<String>::new());
}

#[test]
fn lines_borrows_the_backing_buffer() {
    let s = sink_of(&["IN;SP1;", "PA0,0;"]);
    assert_eq!(s.lines(), &["IN;SP1;".to_string(), "PA0,0;".to_string()]);
    assert!(sink_of(&[]).lines().is_empty());
}

#[test]
fn extend_appends_a_batch() {
    let mut s = sink_of(&["a"]);
    s.extend_from_slice(&["b".to_string(), "c".to_string()]);
    assert_eq!(s.finish(), "a\nb\nc\n");
}

#[test]
fn write_to_emits_the_expected_bytes() {
    let cases: [(&[&str], &str); 3] = [
        (&[], "\n"),
        (&["only"], "only\n"),
        (&["G0 X0", "G1 X1 Y2", "M2"], "G0 X0\nG1 X1 Y2\nM2\n"),
    ];
    for (lines, expected) in cases {
        let mut buf = Vec::new();
        sink_of(lines).write_to(&mut buf);
        assert_eq!(buf, expected.as_bytes(), "arity {}", lines.len());
    }
}

#[test]
fn streaming_output_is_byte_identical_to_buffered() {
    for lines in [
        &[][..],
        &["only"][..],
        &["G0 X0", "G1 X1 Y2", "M2"][..],
        &["", "G1", ""][..],
    ] {
        let streamed = stream_bytes(lines);
        let buffered = sink_of(lines).finish();
        assert_eq!(
            streamed,
            buffered.as_bytes(),
            "streaming vs buffered mismatch for {lines:?}",
        );
    }
}

#[test]
fn streaming_len_counts_all_emitted_lines() {
    let mut s = GcodeSink::streaming();
    assert_eq!(s.len(), 0);
    s.push("a".into());
    s.push("b".into());
    assert_eq!(s.len(), 2);
    s.extend_from_slice(&["c".into(), "d".into()]);
    assert_eq!(s.len(), 4);
    s.checkpoint();
    assert_eq!(s.len(), 4);
}

#[test]
fn streaming_clone_from_returns_the_current_op_tail() {
    let mut s = GcodeSink::streaming();
    s.checkpoint();
    let marker_a = s.len();
    s.push("A0".into());
    s.push("A1".into());
    assert_eq!(
        s.clone_from(marker_a),
        vec!["A0".to_string(), "A1".to_string()],
        "clone_from(marker) must return op A's body",
    );
    s.checkpoint();
    let marker_b = s.len();
    assert_eq!(marker_b, 2);
    s.push("B0".into());
    assert_eq!(s.clone_from(marker_b), vec!["B0".to_string()]);
}

#[test]
fn streaming_clone_from_past_end_is_empty() {
    let mut s = GcodeSink::streaming();
    s.push("a".into());
    assert!(s.clone_from(1).is_empty());
    assert!(s.clone_from(99).is_empty());
}

#[test]
fn streaming_op_cache_replay_matches_buffered_program() {
    let mut s = GcodeSink::streaming();
    let mut streamed = String::new();
    s.checkpoint();
    let m = s.len();
    s.push("A0".into());
    s.push("A1".into());
    let cached_a = s.clone_from(m);
    streamed.push_str(&s.take_output());
    s.checkpoint();
    s.extend_from_slice(&["B0".into(), "B1".into()]);
    s.checkpoint();
    s.extend_from_slice(&cached_a);
    assert_eq!(s.len(), 6);
    streamed.push_str(&s.take_output());
    streamed.push_str(&s.finish_stream().unwrap());
    let buffered = sink_of(&["A0", "A1", "B0", "B1", "A0", "A1"]).finish();
    assert_eq!(streamed.as_bytes(), buffered.as_bytes());
}

#[test]
fn streaming_defers_the_first_write_error_to_finish() {
    // The writer accepts exactly one write and fails on the next.
    let mut s = GcodeSink::streaming();
    let mut writes_left = 1usize;
    let mut deliver = |s: &mut GcodeSink| {
        let chunk = s.take_output();
        if chunk.is_empty() {
            return;
        }
        if writes_left == 0 {
            s.record_write_failure();
        } else {
            writes_left -= 1;
        }
    };
    s.push("ok".into());
    deliver(&mut s);
    s.push("boom".into());
    deliver(&mut s);
    s.push("still-counted".into());
    deliver(&mut s);
    assert_eq!(s.len(), 3);
    assert!(s.finish_stream().is_err(), "deferred error must surface");
}

#[test]
fn tee_cap_overflow_does_not_change_output_bytes() {
    let lines: Vec<String> = (0..10).map(|i| format!("G1 X{i}")).collect();
    let refs: Vec<&str> = lines.iter().map(String::as_str).collect();
    assert_eq!(
        stream_bytes_capped(&refs, 3),
        sink_of(&refs).finish().as_bytes(),
        "a 10-line op over a 3-line cap must still emit the buffered bytes",
    );
}

#[test]
fn tee_overflows_past_the_cap_and_drops_the_body() {
    let mut s = GcodeSink::streaming_with_cap(2);
    s.checkpoint();
    let m = s.len();
    s.push("a0".into());
    s.push("a1".into());
    assert!(!s.op_overflowed(), "2 lines is within the 2-line cap");
    s.push("a2".into());
    assert!(s.op_overflowed(), "the 3rd line must overflow a 2-line cap");
    assert!(s.clone_from(m).is_empty());
}

#[test]
fn checkpoint_resets_overflow_for_the_next_op() {
    let mut s = GcodeSink::streaming_with_cap(2);
    s.checkpoint();
    s.push("A0".into());
    s.push("A1".into());
    s.push("A2".into());
    assert!(s.op_overflowed());
    s.checkpoint();
    let m_b = s.len();
    s.push("B0".into());
    assert!(!s.op_overflowed(), "checkpoint must reset the per-op overflow");
    assert_eq!(s.clone_from(m_b), vec!["B0".to_string()]);
}

#[test]
fn buffered_never_overflows() {
    assert!(!sink_of(&["a", "b", "c"]).op_overflowed());
}

#[test]
fn finish_stream_on_buffered_is_ok_noop() {
    let mut s = sink_of(&["G0", "G1"]);
    assert!(s.finish_stream().is_ok());
    assert_eq!(s.finish(), "G0\nG1\n");
}

#[test]
fn streaming_sink_keeps_no_buffered_lines() {
    let mut s = GcodeSink::streaming();
    s.push("G0".into());
    assert!(s.lines().is_empty());
    assert_eq!(s.finish(), "");
    let mut buf = Vec::new();
    s.write_to(&mut buf);
    assert!(buf.is_empty());
}

#[test]
fn failed_stream_hands_out_nothing_more() {
    let mut s = GcodeSink::streaming();
    s.push("G0".into());
    s.record_write_failure();
    s.push("G1".into());
    assert_eq!(s.take_output(), "");
    assert!(s.finish_stream().is_err());
}
