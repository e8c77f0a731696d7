use ai_step_gen_suite::biomechanics::{
    validate_chart, validate_single_chart, GeminiBiomechanicalState, GeminiChartSectionPayload,
    GeminiMeasure, PlayMode, ValidationIssueType, ValidationSeverity,
};

fn empty_state() -> GeminiBiomechanicalState {
    GeminiBiomechanicalState {
        current_twist_debt: 0.0f64.to_bits(),
        current_stamina_debt: 0.0f64.to_bits(),
        last_left_foot_lane: None,
        last_right_foot_lane: None,
    }
}

fn payload(level: u32, mode: PlayMode, measures: Vec<GeminiMeasure>) -> GeminiChartSectionPayload {
    GeminiChartSectionPayload {
        section_id: "test".to_string(),
        difficulty_level: level,
        play_mode: mode,
        biomechanical_state: empty_state(),
        measures,
    }
}

fn measure(subdivision: u32, rows: Vec<String>) -> GeminiMeasure {
    GeminiMeasure { measure_index: 0, subdivision, rows }
}

#[test]
fn test_valid_row_contents() {
    let notes = "10000\n01000\n00100\n00010\n00001\n;";
    let validation = validate_single_chart(notes, 10);
    assert!(
        validation.issues.is_empty(),
        "Valid chart should have zero issues, got {:?}",
        validation.issues
    );
}

#[test]
fn test_invalid_row_length() {
    let notes = "1000\n100000\n00100\n;";
    let validation = validate_single_chart(notes, 10);
    assert_eq!(validation.issues.len(), 2);
    assert_eq!(validation.issues[0].issue_type, ValidationIssueType::InvalidLength);
    assert_eq!(validation.issues[1].issue_type, ValidationIssueType::InvalidLength);
}

#[test]
fn test_mina_and_invalid_chars() {
    let notes = "10M00\n100A0\n00100\n;";
    let validation = validate_single_chart(notes, 10);
    assert_eq!(validation.issues.len(), 2);
    let issue_types: Vec<ValidationIssueType> =
        validation.issues.iter().map(|i| i.issue_type).collect();
    assert!(issue_types.contains(&ValidationIssueType::MinaDetected));
    assert!(issue_types.contains(&ValidationIssueType::InvalidChar));
}

#[test]
fn test_triple_tap_under_level_16() {
    let notes = "11100\n;";
    let validation_low = validate_single_chart(notes, 10);
    assert_eq!(validation_low.issues.len(), 1);
    assert_eq!(validation_low.issues[0].issue_type, ValidationIssueType::TripleTap);
    let validation_high = validate_single_chart(notes, 18);
    assert!(validation_high.issues.is_empty());
}

#[test]
fn test_consecutive_jumps() {
    let notes = "10001\n10100\n00101\n00000\n;";
    let validation = validate_single_chart(notes, 15);
    assert_eq!(validation.issues.len(), 1);
    assert_eq!(validation.issues[0].issue_type, ValidationIssueType::ConsecutiveJumps);
}

#[test]
fn test_consecutive_jumps_reset_by_empty_or_releases() {
    let notes = "10001\n10100\n00000\n00101\n;";
    let validation = validate_single_chart(notes, 15);
    assert!(
        validation.issues.is_empty(),
        "Consecutive jumps count should be reset by empty row, got {:?}",
        validation.issues
    );
    let notes_release = "10001\n10100\n00300\n00101\n;";
    let validation_release = validate_single_chart(notes_release, 15);
    assert!(
        validation_release.issues.is_empty(),
        "Consecutive jumps count should be reset by hold release row, got {:?}",
        validation_release.issues
    );
}

#[test]
fn test_rapid_double_steps_in_streams() {
    let notes = "10000\n10000\n00100\n00000\n00000\n00000\n00000\n00000\n00000\n00000\n00000\n00000\n00000\n00000\n00000\n00000\n;";
    let validation = validate_single_chart(notes, 15);
    assert_eq!(validation.issues.len(), 1);
    assert_eq!(validation.issues[0].issue_type, ValidationIssueType::DoubleStep);
    assert!(validation.issues[0].message.contains("Jack"));
    let notes_left = "10000\n01000\n00000\n00000\n00000\n00000\n00000\n00000\n00000\n00000\n00000\n00000\n00000\n00000\n00000\n00000\n;";
    let validation_left = validate_single_chart(notes_left, 15);
    assert_eq!(validation_left.issues.len(), 1);
    assert_eq!(validation_left.issues[0].issue_type, ValidationIssueType::DoubleStep);
    assert!(validation_left.issues[0].message.contains("izquierdo"));
}

#[test]
fn test_stream_silence_prevents_double_step() {
    let notes = "10000\n00000\n10000\n00000\n00000\n00000\n00000\n00000\n00000\n00000\n00000\n00000\n00000\n00000\n00000\n00000\n;";
    let validation = validate_single_chart(notes, 15);
    assert!(
        validation.issues.is_empty(),
        "Silence row should prevent double-step detection, got {:?}",
        validation.issues
    );
}

#[test]
fn test_gemini_payload_difficulty_limits() {
    let m = measure(4, vec!["10000".to_string(); 4]);
    assert!(payload(15, PlayMode::Single, vec![m.clone()]).validate_structure().is_ok());
    assert!(payload(27, PlayMode::Single, vec![m.clone()]).validate_structure().is_err());
    let double = measure(4, vec!["1000000000".to_string(); 4]);
    assert!(payload(10, PlayMode::Double, vec![double]).validate_structure().is_err());
}

#[test]
fn test_gemini_payload_oversized_measures_rejected() {
    let mut state = empty_state();
    state.last_left_foot_lane = Some(1);
    state.last_right_foot_lane = Some(3);
    let m = measure(4, vec!["10000".to_string(); 4]);
    let p = GeminiChartSectionPayload {
        section_id: "test".to_string(),
        difficulty_level: 10,
        play_mode: PlayMode::Single,
        biomechanical_state: state,
        measures: vec![m; 17],
    };
    let err = p.validate_structure().unwrap_err();
    assert!(err.contains("supera el límite máximo"));
}

#[test]
fn test_gemini_payload_subdivision() {
    let p = payload(10, PlayMode::Single, vec![measure(12, vec!["10000".to_string(); 12])]);
    let err = p.validate_structure().unwrap_err();
    assert!(err.contains("subdivisión 12 no es válida"));
}

#[test]
fn test_gemini_payload_empty_measures() {
    let p = payload(10, PlayMode::Single, vec![]);
    let err = p.validate_structure().unwrap_err();
    assert!(err.contains("measures está vacío"));
}

#[test]
fn test_gemini_payload_row_count_mismatch() {
    let p = payload(10, PlayMode::Single, vec![measure(8, vec!["10000".to_string(); 4])]);
    let err = p.validate_structure().unwrap_err();
    assert!(err.contains("no coincide con la subdivisión"));
}

#[test]
fn test_gemini_payload_mina_rejected() {
    let rows = vec![
        "10000".to_string(),
        "00M00".to_string(),
        "00010".to_string(),
        "00001".to_string(),
    ];
    let p = payload(10, PlayMode::Single, vec![measure(4, rows)]);
    let err = p.validate_structure().unwrap_err();
    assert!(err.contains("carácter inválido 'M' en payload Gemini"));
}

#[test]
fn payload_messages_are_exact() {
    let p = payload(0, PlayMode::Single, vec![]);
    assert_eq!(
        p.validate_structure().unwrap_err(),
        "Nivel de dificultad Single (0) fuera de rango (1-26)."
    );
    let p = payload(10, PlayMode::Double, vec![]);
    assert_eq!(
        p.validate_structure().unwrap_err(),
        "Play mode Double is not supported in this phase."
    );
    let p = payload(10, PlayMode::Single, vec![measure(4, vec!["1000".to_string(); 4])]);
    assert_eq!(
        p.validate_structure().unwrap_err(),
        "Medida 0, fila 0: longitud incorrecta (4). Debe ser 5."
    );
    let m = measure(4, vec!["10000".to_string(); 4]);
    let p = payload(10, PlayMode::Single, vec![m.clone(); 17]);
    assert_eq!(
        p.validate_structure().unwrap_err(),
        "El payload de Gemini supera el límite máximo de 16 medidas (recibidas: 17)."
    );
}

#[test]
fn payload_to_ssc_notes_joins_rows_and_measures() {
    let a = measure(4, vec!["10000".into(), "01000".into(), "00100".into(), "00010".into()]);
    let b = measure(4, vec!["00001".into(), "00000".into(), "00000".into(), "00000".into()]);
    let p = payload(10, PlayMode::Single, vec![a, b]);
    assert_eq!(
        p.to_ssc_notes(),
        "10000\n01000\n00100\n00010,\n00001\n00000\n00000\n00000\n;"
    );
}

#[test]
fn double_mode_uses_ten_panels_and_severities() {
    let v = validate_chart(PlayMode::Double, 10, "1000000000\n00000\n;");
    assert_eq!(v.play_mode, PlayMode::Double);
    assert_eq!(v.issues.len(), 1);
    assert_eq!(v.issues[0].issue_type, ValidationIssueType::InvalidLength);
    assert_eq!(v.issues[0].severity, ValidationSeverity::Error);
    assert_eq!(v.issues[0].row_index, 1);
}
