use ai_step_gen_suite::biomechanics::{
    GeminiBiomechanicalState, GeminiChartSectionPayload, GeminiMeasure, PlayMode,
};
use ai_step_gen_suite::guardrail::{
    build_calibration_candidate_paths, calibration_level_confidence, calibration_missing_warning,
    check_calibration_text, compare_scores, family_level_mismatches, findings_summary, level_key,
    score_calibration_candidate, score_ranks_above, section_counts, select_best_candidate,
    validate_single_guardrail_calibration, CalibrationCandidateScore, FamilySignalEntry,
    LevelThresholdEntry, NonFiniteValue, SingleGuardrailCalibration, TypicalLevelRange,
};
use std::cmp::Ordering;

fn levels(keys: &[&str]) -> Vec<LevelThresholdEntry> {
    keys.iter()
        .map(|k| LevelThresholdEntry { key: k.to_string(), non_finite: None })
        .collect()
}

fn family(key: &str, min: u32, median: u32, max: u32) -> FamilySignalEntry {
    FamilySignalEntry { key: key.to_string(), typical_level_range: TypicalLevelRange { min, median, max } }
}

fn calibration(level_keys: &[&str], families: Vec<FamilySignalEntry>) -> SingleGuardrailCalibration {
    SingleGuardrailCalibration {
        schema_version: "single-guardrail-calibration.v0".to_string(),
        publicability_status: "private_derived".to_string(),
        play_mode: "Single".to_string(),
        level_thresholds: levels(level_keys),
        pattern_family_thresholds: families,
    }
}

fn payload(subdivision: u32, rows: Vec<&str>) -> GeminiChartSectionPayload {
    GeminiChartSectionPayload {
        section_id: "chorus_1".to_string(),
        difficulty_level: 14,
        play_mode: PlayMode::Single,
        biomechanical_state: GeminiBiomechanicalState {
            current_twist_debt: 0.0f64.to_bits(),
            current_stamina_debt: 0.0f64.to_bits(),
            last_left_foot_lane: None,
            last_right_foot_lane: None,
        },
        measures: vec![GeminiMeasure {
            measure_index: 0,
            subdivision,
            rows: rows.into_iter().map(|r| r.to_string()).collect(),
        }],
    }
}

#[test]
fn test_valid_calibration_parse() {
    let c = calibration(&["S14"], vec![family("stream", 10, 15, 20)]);
    assert_eq!(validate_single_guardrail_calibration(&c), Ok(()));
}

#[test]
fn test_rejects_incorrect_schema_version() {
    let mut c = calibration(&["S14"], vec![]);
    c.schema_version = "incorrect-schema".to_string();
    let e = validate_single_guardrail_calibration(&c).unwrap_err();
    assert!(e.contains("schema_version"));
    assert_eq!(
        e,
        "Invalid schema_version: expected 'single-guardrail-calibration.v0', got 'incorrect-schema'"
    );
}

#[test]
fn test_rejects_incorrect_publicability_status() {
    let mut c = calibration(&["S14"], vec![]);
    c.publicability_status = "public_exposed".to_string();
    assert!(validate_single_guardrail_calibration(&c).unwrap_err().contains("publicability_status"));
}

#[test]
fn test_rejects_non_single_play_mode() {
    let mut c = calibration(&["S14"], vec![]);
    c.play_mode = "Double".to_string();
    let e = validate_single_guardrail_calibration(&c).unwrap_err();
    assert!(e.contains("play_mode"));
    assert_eq!(e, "Invalid play_mode: expected 'Single', got 'Double'");
}

#[test]
fn level_keys_are_checked_in_order() {
    let c = calibration(&["S14", "X3", "S99"], vec![]);
    assert_eq!(validate_single_guardrail_calibration(&c).unwrap_err(), "Invalid level key format: 'X3'");
    let c = calibration(&["S1a"], vec![]);
    assert_eq!(
        validate_single_guardrail_calibration(&c).unwrap_err(),
        "Invalid numeric part in level key: 'S1a'"
    );
    let c = calibration(&["S0"], vec![]);
    assert_eq!(
        validate_single_guardrail_calibration(&c).unwrap_err(),
        "Level key 'S0' is out of range 1..=26"
    );
    let c = calibration(&["S27"], vec![]);
    assert!(validate_single_guardrail_calibration(&c).unwrap_err().contains("out of range"));
    let mut c = calibration(&["S14"], vec![]);
    c.level_thresholds[0].non_finite = Some(NonFiniteValue {
        threshold: "density".to_string(),
        key: "warning_p90".to_string(),
        value_text: "NaN".to_string(),
    });
    assert_eq!(
        validate_single_guardrail_calibration(&c).unwrap_err(),
        "Non-finite value found in density threshold for S14: warning_p90=NaN"
    );
}

#[test]
fn test_rejects_forbidden_strings() {
    assert_eq!(check_calibration_text("{\"notes\": [\"Stream sections\"]}"), Ok(()));
    let e = check_calibration_text("Stream sections in C:\\Users\\user").unwrap_err();
    assert!(e.contains("Privacy Violation"));
    assert_eq!(
        e,
        "Privacy Violation: Forbidden pattern 'C:\\' detected in calibration JSON file."
    );
    // The first pattern of the list wins, not the first in the text.
    let e = check_calibration_text("x.ogg then #TITLE:").unwrap_err();
    assert!(e.contains("'#TITLE:'"));
    // Case matters.
    assert_eq!(check_calibration_text("#title:"), Ok(()));
}

#[test]
fn scores_count_levels_and_families() {
    let all: Vec<String> = (1..=26).map(|l| format!("S{}", l)).collect();
    let all_refs: Vec<&str> = all.iter().map(|s| s.as_str()).collect();
    let c = calibration(
        &all_refs,
        vec![family("stream", 1, 2, 3), family("mystery", 1, 2, 3), family("balanced", 1, 2, 3)],
    );
    let s = score_calibration_candidate(&c);
    assert_eq!(
        s,
        CalibrationCandidateScore {
            has_all_single_levels: true,
            known_family_count: 2,
            level_count: 26,
            unknown_family_count: 1,
        }
    );
    let c = calibration(&["S14", "S15"], vec![]);
    let s = score_calibration_candidate(&c);
    assert!(!s.has_all_single_levels);
    assert_eq!(s.level_count, 2);
}

fn score(levels: usize) -> Option<CalibrationCandidateScore> {
    Some(CalibrationCandidateScore {
        has_all_single_levels: false,
        known_family_count: 0,
        level_count: levels,
        unknown_family_count: 0,
    })
}

#[test]
fn test_resolver_priority_equal_score_tiebreaker() {
    assert_eq!(select_best_candidate(&vec![score(1), score(1)]), Some(0));
}

#[test]
fn test_resolver_invalid_earlier_valid_later() {
    assert_eq!(select_best_candidate(&vec![None, score(1)]), Some(1));
}

#[test]
fn test_resolver_later_better_score_wins() {
    assert_eq!(select_best_candidate(&vec![score(1), score(2)]), Some(1));
}

#[test]
fn test_resolver_priority_multiple_best_score_ties() {
    assert_eq!(select_best_candidate(&vec![score(1), score(2), score(2)]), Some(1));
    assert_eq!(select_best_candidate(&vec![None, None]), None);
    assert_eq!(select_best_candidate(&vec![]), None);
}

#[test]
fn score_order_ranks_fields_in_turn() {
    let a = CalibrationCandidateScore {
        has_all_single_levels: true,
        known_family_count: 0,
        level_count: 0,
        unknown_family_count: 9,
    };
    let b = CalibrationCandidateScore {
        has_all_single_levels: false,
        known_family_count: 9,
        level_count: 9,
        unknown_family_count: 0,
    };
    assert!(score_ranks_above(&a, &b));
    assert_eq!(compare_scores(&a, &b), Ordering::Greater);
    assert_eq!(compare_scores(&b, &a), Ordering::Less);
    assert_eq!(compare_scores(&a, &a), Ordering::Equal);
    let fewer_unknown = CalibrationCandidateScore { unknown_family_count: 1, ..a };
    assert!(score_ranks_above(&fewer_unknown, &a));
}

#[test]
fn candidate_paths_follow_priority() {
    let explicit = build_calibration_candidate_paths(Some("/tmp/c.json"), &vec!["/a".to_string()]);
    assert_eq!(explicit, vec!["/tmp/c.json".to_string()]);
    let paths = build_calibration_candidate_paths(None, &vec!["/root1".to_string(), "/root2".to_string()]);
    assert_eq!(paths.len(), 9);
    assert!(paths[0].starts_with("/root1"));
    assert!(paths[0].ends_with("official-corpus-profiles-v0-runtime-check/single-guardrail-calibration.v0.json"));
    assert!(paths[4].starts_with("/root2"));
    assert!(paths[4].ends_with("official-corpus-profiles-v0/single-guardrail-calibration.v0.json"));
    assert_eq!(
        paths[8],
        ".ai-step-gen-private-datasets/official-corpus-profiles-v0-fixes-audit/single-guardrail-calibration.v0.json"
    );
}

#[test]
fn section_counts_of_a_jump_stream() {
    let p = payload(32, vec!["10001"; 32]);
    let c = section_counts(&p);
    assert_eq!(c.row_count, 32);
    assert_eq!(c.active_row_count, 32);
    assert_eq!(c.tap_count, 64);
    assert_eq!(c.jump_count, 32);
    assert_eq!(c.center_note_count, 0);
    assert_eq!(c.bracket_candidate_count, 0);
    assert_eq!(c.twist_candidates, 0);
}

#[test]
fn section_counts_of_singles_brackets_and_twists() {
    let p = payload(8, vec!["10000", "00100", "00010", "00000", "00120", "22200", "01000", "00300"]);
    let c = section_counts(&p);
    assert_eq!(c.row_count, 8);
    assert_eq!(c.active_row_count, 6);
    assert_eq!(c.tap_count, 5);
    assert_eq!(c.hold_start_count, 4);
    assert_eq!(c.jump_count, 1);
    assert_eq!(c.center_note_count, 3);
    // "00120" (centre and a corner) and "22200" (three steps).
    assert_eq!(c.bracket_candidate_count, 2);
    // Single steps on panels 0, 2, 3, 1: one left-centre-right turn.
    assert_eq!(c.twist_candidates, 1);
    assert_eq!(c.total_triplets, 2);
}

#[test]
fn level_keys_and_confidence() {
    assert_eq!(level_key(14), "S14");
    assert_eq!(calibration_level_confidence(24), "high");
    assert_eq!(calibration_level_confidence(25), "low");
    let w = calibration_missing_warning(14);
    assert_eq!(w.issue_type, "CalibrationMissing");
    assert_eq!(w.message, "La calibración para el nivel S14 no está disponible.");
}

#[test]
fn family_mismatches_name_the_typical_range() {
    let c = calibration(&["S4"], vec![family("stream", 10, 15, 20), family("jump_accent", 1, 3, 5)]);
    let ws = family_level_mismatches(
        &vec!["stream".to_string(), "jump_accent".to_string(), "stamina".to_string()],
        &c,
        4,
    );
    assert_eq!(ws.len(), 1);
    assert_eq!(ws[0].issue_type, "PatternFamilyLevelMismatch");
    assert_eq!(
        ws[0].message,
        "La familia de patrones 'stream' se detectó en el preview, pero típicamente se usa en niveles del 10 al 20 (Nivel solicitado: S4)."
    );
}

#[test]
fn summary_counts_findings() {
    assert_eq!(
        findings_summary(2, 1, 14),
        "Se encontraron 2 advertencias y 1 errores estadísticos de calibración para S14."
    );
}
