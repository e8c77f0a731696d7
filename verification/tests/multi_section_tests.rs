use ai_step_gen_suite::biomechanics::{
    GeminiBiomechanicalState, GeminiChartSectionPayload, GeminiMeasure, PlayMode, ValidationIssue,
    ValidationIssueType, ValidationSeverity,
};
use ai_step_gen_suite::multi_section::{
    compute_abstract_summary, derive_multi_section_session_status, initial_queue_state,
    queue_after_section, queue_before_section, queue_finish, select_section_nodes,
    validate_section_request, FingerprintCheck, QueueState, SectionNode,
};

fn ids(v: &[&str]) -> Vec<String> {
    v.iter().map(|s| s.to_string()).collect()
}

fn node(id: &str, index: usize, enabled: bool, start: i32, end: i32) -> SectionNode {
    SectionNode {
        section_id: id.to_string(),
        section_index: index,
        enabled,
        start_measure: start,
        end_measure: end,
    }
}

fn plan() -> Vec<SectionNode> {
    vec![
        node("sec1", 0, true, 0, 7),
        node("sec2", 1, true, 8, 15),
        node("sec3", 2, false, 16, 23),
        node("sec4", 3, true, 24, 39),
    ]
}

#[test]
fn test_multi_section_rejects_empty_selection() {
    let e = validate_section_request(&vec![], None).unwrap_err();
    assert!(e.contains("vacía"));
    assert_eq!(e, "La selección de secciones no puede estar vacía.");
}

#[test]
fn test_multi_section_rejects_too_many_sections() {
    let e = validate_section_request(&ids(&["sec1", "sec2", "sec3", "sec4", "sec5"]), Some(4))
        .unwrap_err();
    assert!(e.contains("excedido el límite máximo"));
    assert_eq!(
        e,
        "Se ha excedido el límite máximo de secciones permitidas por lote (Límite: 4, Solicitadas: 5)."
    );
}

#[test]
fn test_multi_section_rejects_max_sections_overflow() {
    let e = validate_section_request(&ids(&["sec1"]), Some(99)).unwrap_err();
    assert!(e.contains("supera el límite"));
    assert_eq!(e, "El parámetro max_sections (99) supera el límite estricto permitido de 4.");
}

#[test]
fn rejects_duplicates_and_accepts_distinct() {
    assert_eq!(
        validate_section_request(&ids(&["sec1", "sec2", "sec1"]), None).unwrap_err(),
        "No se permiten secciones duplicadas en una solicitud."
    );
    assert_eq!(validate_section_request(&ids(&["sec1", "sec2"]), Some(4)), Ok(()));
}

#[test]
fn test_multi_section_rejects_disabled_section() {
    let mut p = plan();
    p[1].enabled = false;
    let e = select_section_nodes(&p, &ids(&["sec1", "sec2"])).unwrap_err();
    assert!(e.contains("deshabilitada"));
    assert_eq!(e, "La sección seleccionada 'sec2' está deshabilitada.");
}

#[test]
fn test_multi_section_rejects_unknown_section() {
    let e = select_section_nodes(&plan(), &ids(&["sec_nonexistent"])).unwrap_err();
    assert!(e.contains("no se encuentra en el plan"));
}

#[test]
fn test_multi_section_rejects_invalid_ranges() {
    let p = vec![node("sec1", 0, true, 10, 5), node("neg", 1, true, -1, 4), node("long", 2, true, 0, 16)];
    let e = select_section_nodes(&p, &ids(&["sec1"])).unwrap_err();
    assert!(e.contains("límites de compás inválidos"));
    assert_eq!(e, "La sección 'sec1' tiene límites de compás inválidos (inicio >= fin).");
    assert_eq!(
        select_section_nodes(&p, &ids(&["neg"])).unwrap_err(),
        "La sección 'neg' tiene límites de compás inválidos (valores negativos)."
    );
    assert_eq!(
        select_section_nodes(&p, &ids(&["long"])).unwrap_err(),
        "La sección 'long' supera el límite máximo de 16 compases (longitud: 17)."
    );
}

#[test]
fn rejects_unordered_and_oversized_batches() {
    assert_eq!(
        select_section_nodes(&plan(), &ids(&["sec2", "sec1"])).unwrap_err(),
        "Las secciones seleccionadas deben estar ordenadas cronológicamente por compás."
    );
    let big = vec![
        node("a", 0, true, 0, 15),
        node("b", 1, true, 16, 31),
        node("c", 2, true, 32, 47),
        node("d", 3, true, 48, 64),
    ];
    assert!(select_section_nodes(&big, &ids(&["a", "b", "c", "d"])).unwrap_err().contains("longitud: 17"));
    let big = vec![
        node("a", 0, true, 0, 15),
        node("b", 1, true, 16, 31),
        node("c", 2, true, 32, 47),
        node("d", 3, true, 47, 62),
        node("e", 4, true, 63, 64),
    ];
    assert!(select_section_nodes(&big, &ids(&["a", "b", "c", "d"])).is_ok());
    let big2 = vec![
        node("a", 0, true, 0, 15),
        node("b", 1, true, 16, 31),
        node("c", 2, true, 32, 47),
        node("d", 3, true, 48, 63),
    ];
    assert!(select_section_nodes(&big2, &ids(&["a", "b", "c", "d"])).is_ok());
}

#[test]
fn selection_keeps_request_order() {
    let ns = select_section_nodes(&plan(), &ids(&["sec1", "sec4"])).unwrap();
    assert_eq!(ns.len(), 2);
    assert_eq!(ns[0].section_id, "sec1");
    assert_eq!(ns[1].section_id, "sec4");
    assert_eq!(ns[1].section_index, 3);
}

fn issue(measure: usize, severity: ValidationSeverity, message: &str) -> ValidationIssue {
    ValidationIssue {
        measure_index: measure,
        row_index: 0,
        severity,
        issue_type: ValidationIssueType::DoubleStep,
        message: message.to_string(),
    }
}

#[test]
fn queue_runs_sections_in_turn() {
    let p = plan();
    let s = initial_queue_state();
    let (s, skip) = queue_before_section(s, &p[0], Some(FingerprintCheck::Unchanged));
    assert!(skip.is_none());
    let clean: Vec<ValidationIssue> = vec![];
    let (s, item) = queue_after_section(s, &p[0], Ok((&clean, None)));
    assert_eq!(item.status, "succeeded");
    assert_eq!(item.range_summary, "0-7");
    let warned = vec![issue(2, ValidationSeverity::Warning, "ojo")];
    let (s, item) = queue_after_section(s, &p[1], Ok((&warned, None)));
    assert_eq!(item.status, "warning");
    assert_eq!(item.validation_warnings, vec!["[Compás 2] ojo".to_string()]);
    assert_eq!(item.error_message, None);
    assert_eq!(s.sections_generated, 2);
    let s = queue_finish(s, true);
    let status = derive_multi_section_session_status(
        s.unsafe_to_append,
        s.fingerprint_match,
        s.sections_failed,
        s.sections_generated,
        &ids(&["succeeded", "warning"]),
    );
    assert_eq!(status, "warning");
}

#[test]
fn queue_returns_partial_results_on_item_failure() {
    let p = plan();
    let s = initial_queue_state();
    let clean: Vec<ValidationIssue> = vec![];
    let (s, _) = queue_after_section(s, &p[0], Ok((&clean, None)));
    let (s, item) = queue_after_section(s, &p[1], Err("Gemini API error".to_string()));
    assert_eq!(item.status, "failed");
    assert_eq!(item.error_message, Some("Gemini API error".to_string()));
    let bad = vec![issue(0, ValidationSeverity::Error, "mal")];
    let (s, item) = queue_after_section(s, &p[3], Ok((&bad, None)));
    assert_eq!(item.status, "failed");
    assert_eq!(item.validation_errors, vec!["[Compás 0] mal".to_string()]);
    assert_eq!(item.error_message, Some("Biomechanical validation detected errors.".to_string()));
    assert_eq!((s.sections_generated, s.sections_failed), (1, 2));
    let status = derive_multi_section_session_status(
        s.unsafe_to_append,
        s.fingerprint_match,
        s.sections_failed,
        s.sections_generated,
        &ids(&["succeeded", "failed", "failed"]),
    );
    assert_eq!(status, "partial_success");
    assert_eq!(derive_multi_section_session_status(false, true, 2, 0, &vec![]), "failed");
}

#[test]
fn queue_stops_on_fingerprint_mismatch() {
    let p = plan();
    let s = initial_queue_state();
    let clean: Vec<ValidationIssue> = vec![];
    let (s, _) = queue_after_section(s, &p[0], Ok((&clean, None)));
    let (s, skip) = queue_before_section(s, &p[1], Some(FingerprintCheck::Changed));
    let item = skip.unwrap();
    assert_eq!(item.status, "skipped");
    assert_eq!(
        item.error_message,
        Some("Fingerprint mismatch detected. Skipping remaining sections.".to_string())
    );
    assert_eq!(
        s,
        QueueState {
            stopped_early: true,
            fingerprint_match: false,
            unsafe_to_append: true,
            sections_generated: 1,
            sections_failed: 0,
        }
    );
    let (s2, skip) = queue_before_section(s, &p[3], None);
    assert_eq!(s2, s);
    assert_eq!(
        skip.unwrap().error_message,
        Some("Cancelado debido a un cambio en el fingerprint del archivo .ssc durante la sesión.".to_string())
    );
    let status = derive_multi_section_session_status(
        s2.unsafe_to_append,
        s2.fingerprint_match,
        s2.sections_failed,
        s2.sections_generated,
        &vec![],
    );
    assert_eq!(status, "unsafe_to_append");
}

#[test]
fn queue_stops_on_fingerprint_calculation_error() {
    let p = plan();
    let (s, skip) = queue_before_section(
        initial_queue_state(),
        &p[0],
        Some(FingerprintCheck::Failed("No such file".to_string())),
    );
    assert!(s.stopped_early);
    assert_eq!(
        skip.unwrap().error_message,
        Some("Failed to calculate fingerprint: No such file. Skipping remaining sections.".to_string())
    );
}

#[test]
fn fingerprint_mismatch_only_at_end() {
    let p = plan();
    let clean: Vec<ValidationIssue> = vec![];
    let (s, _) = queue_after_section(initial_queue_state(), &p[0], Ok((&clean, None)));
    let s = queue_finish(s, false);
    assert!(!s.stopped_early);
    assert!(!s.fingerprint_match);
    assert!(s.unsafe_to_append);
    assert_eq!(s.sections_generated, 1);
}

#[test]
fn summary_counts_of_a_section() {
    let payload = GeminiChartSectionPayload {
        section_id: "s".to_string(),
        difficulty_level: 10,
        play_mode: PlayMode::Single,
        biomechanical_state: GeminiBiomechanicalState {
            current_twist_debt: 0.0f64.to_bits(),
            current_stamina_debt: 0.0f64.to_bits(),
            last_left_foot_lane: None,
            last_right_foot_lane: None,
        },
        measures: vec![GeminiMeasure {
            measure_index: 0,
            subdivision: 4,
            rows: ids(&["10001", "00000", "02000", "11100"]),
        }],
    };
    let issues = vec![issue(0, ValidationSeverity::Warning, "w")];
    let c = compute_abstract_summary(&payload, &issues, "low".to_string(), "stream".to_string());
    assert_eq!(c.row_count, 4);
    assert_eq!(c.non_empty_row_count, 3);
    assert_eq!(c.jump_like_event_count, 1);
    assert_eq!(c.hold_like_event_count, 1);
    assert_eq!(c.bracket_like_event_count, 1);
    assert_eq!(c.issue_count, 1);
    assert_eq!(c.approximate_density_band, "low");
    assert_eq!(c.primary_family, "stream");
}

#[test]
fn section_bounds_are_checked_before_a_step() {
    assert!(ai_step_gen_suite::multi_section::node_has_valid_bounds(&node("a", 0, true, 0, 3)));
    assert!(!ai_step_gen_suite::multi_section::node_has_valid_bounds(&node("a", 0, true, -1, 3)));
    assert!(!ai_step_gen_suite::multi_section::node_has_valid_bounds(&node("a", 0, true, 2, -3)));
}

#[test]
fn a_run_stays_stopped_once_the_file_changes() {
    let nodes = vec![node("a", 0, true, 0, 3), node("b", 1, true, 4, 7), node("c", 2, true, 8, 11)];
    let no_issues: Vec<ValidationIssue> = Vec::new();
    let mut state = initial_queue_state();
    let mut statuses = Vec::new();
    let checks = [Some(FingerprintCheck::Unchanged), Some(FingerprintCheck::Changed), None];
    for (n, check) in nodes.iter().zip(checks) {
        let check = if state.stopped_early { None } else { check };
        let (next, skipped) = queue_before_section(state, n, check);
        state = next;
        match skipped {
            Some(item) => statuses.push(item.status),
            None => {
                let (next, item) = queue_after_section(state, n, Ok((&no_issues, None)));
                state = next;
                statuses.push(item.status);
            }
        }
    }
    assert_eq!(statuses, vec!["succeeded", "skipped", "skipped"]);
    assert!(state.stopped_early && state.unsafe_to_append && !state.fingerprint_match);
    assert_eq!(state.sections_generated + state.sections_failed, 1);
    let end = queue_finish(state, true);
    assert_eq!(end, state);
}
