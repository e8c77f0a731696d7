use ai_step_gen_suite::biomechanics::{
    read_chart_measures, validate_chart, GeminiBiomechanicalState, GeminiChartSectionPayload,
    GeminiMeasure, PlayMode, ValidationSeverity,
};
use ai_step_gen_suite::commands::{
    chart_details_from_tags, new_chart_tags, sanitize_gemini_json_payload, validate_folder_name_rules,
};
use ai_step_gen_suite::guardrail::{
    level_key, validate_single_guardrail_calibration, LevelThresholdEntry,
    SingleGuardrailCalibration,
};
use ai_step_gen_suite::profiles::{family_level_range, group_by_level, parse_level_range};

#[test]
fn appended_chart_tags_read_back() {
    for (mode, steps) in [(PlayMode::Single, "pump-single"), (PlayMode::Double, "pump-double")] {
        let tags = new_chart_tags(mode, 17, "AI chorus S17", "Gemini");
        let d = chart_details_from_tags(&tags);
        assert_eq!(d.steps_type, steps);
        assert_eq!(d.difficulty, "Edit");
        assert_eq!(d.meter, 17);
        assert_eq!(d.description, "AI chorus S17");
        assert_eq!(d.credit, "Gemini");
    }
}

#[test]
fn written_level_ranges_read_back() {
    for (lo, hi) in [(1u32, 26u32), (5, 5), (0, 4294967295)] {
        assert_eq!(parse_level_range(&format!("{}-{}", lo, hi)), Ok((lo, hi)));
    }
    assert_eq!(
        parse_level_range(&format!("{}-{}", 9, 3)).unwrap_err(),
        "Min level cannot be greater than max level"
    );
}

#[test]
fn level_keys_pass_validation_only_for_single_levels() {
    for level in [0u32, 1, 14, 26, 27, 100] {
        let c = SingleGuardrailCalibration {
            schema_version: "single-guardrail-calibration.v0".to_string(),
            publicability_status: "private_derived".to_string(),
            play_mode: "Single".to_string(),
            level_thresholds: vec![LevelThresholdEntry { key: level_key(level), non_finite: None }],
            pattern_family_thresholds: vec![],
        };
        assert_eq!(validate_single_guardrail_calibration(&c).is_ok(), (1..=26).contains(&level));
    }
}

#[test]
fn accepted_folder_names_validate_again_unchanged() {
    for name in ["  My Song \t", "Song", "\u{3000}Tokyo Drift\u{3000}"] {
        let once = validate_folder_name_rules(name).unwrap();
        assert_eq!(validate_folder_name_rules(&once).unwrap(), once);
    }
}

#[test]
fn written_note_text_reads_back_as_the_payload_rows() {
    let rows_a = vec!["10000", "01000", "00100", "00010"];
    let rows_b = vec!["00001", "0M000", "000F0"];
    let rows_c = vec!["11000"];
    let measures: Vec<GeminiMeasure> = [rows_a.clone(), rows_b.clone(), rows_c.clone()]
        .iter()
        .enumerate()
        .map(|(i, rows)| GeminiMeasure {
            measure_index: i as u32,
            subdivision: rows.len() as u32,
            rows: rows.iter().map(|r| r.to_string()).collect(),
        })
        .collect();
    let payload = GeminiChartSectionPayload {
        section_id: "verse".to_string(),
        difficulty_level: 12,
        play_mode: PlayMode::Single,
        biomechanical_state: GeminiBiomechanicalState {
            current_twist_debt: 0.0f64.to_bits(),
            current_stamina_debt: 0.0f64.to_bits(),
            last_left_foot_lane: None,
            last_right_foot_lane: None,
        },
        measures,
    };
    let notes: Vec<char> = payload.to_ssc_notes().chars().collect();
    let read = read_chart_measures(&notes);
    let expected: Vec<Vec<Vec<char>>> = [rows_a, rows_b, rows_c]
        .iter()
        .map(|rows| rows.iter().map(|r| r.chars().collect()).collect())
        .collect();
    assert_eq!(read, expected);
}

fn section(measures: Vec<Vec<&str>>) -> GeminiChartSectionPayload {
    GeminiChartSectionPayload {
        section_id: "chorus".to_string(),
        difficulty_level: 8,
        play_mode: PlayMode::Single,
        biomechanical_state: GeminiBiomechanicalState {
            current_twist_debt: 0.0f64.to_bits(),
            current_stamina_debt: 0.0f64.to_bits(),
            last_left_foot_lane: None,
            last_right_foot_lane: None,
        },
        measures: measures
            .into_iter()
            .enumerate()
            .map(|(i, rows)| GeminiMeasure {
                measure_index: i as u32,
                subdivision: rows.len() as u32,
                rows: rows.into_iter().map(String::from).collect(),
            })
            .collect(),
    }
}

#[test]
fn well_formed_section_notes_raise_only_warnings_inside_the_section() {
    let p = section(vec![
        vec!["11100", "11000", "11000", "11000"],
        vec!["10000", "10000", "00000", "00000"],
    ]);
    assert!(p.validate_structure().is_ok());
    let v = validate_chart(p.play_mode, p.difficulty_level, &p.to_ssc_notes());
    assert!(!v.issues.is_empty());
    for issue in &v.issues {
        assert_eq!(issue.severity, ValidationSeverity::Warning);
        assert!(issue.measure_index < p.measures.len());
        assert!(issue.row_index < p.measures[issue.measure_index].rows.len());
    }
}

#[test]
fn unwrapping_a_reply_twice_is_unwrapping_it_once() {
    for raw in [
        "  ```json\n{\"a\": 1}\n```  ",
        "```\n{\"b\": 2}\n``` trailing",
        "```json never closed",
        "{\"plain\": true}",
    ] {
        let once = sanitize_gemini_json_payload(raw);
        assert_eq!(sanitize_gemini_json_payload(&once), once);
        if once != raw.trim() {
            assert!(!once.contains("```"));
            assert!(once.chars().count() + 6 <= raw.trim().chars().count());
        }
    }
}

#[test]
fn folder_names_are_accepted_by_the_stated_rules() {
    assert_eq!(validate_folder_name_rules("  Song A ").unwrap(), "Song A");
    assert!(validate_folder_name_rules("Song.").is_err());
    assert!(validate_folder_name_rules(" com1 ").is_err());
    assert!(validate_folder_name_rules("a|b").is_err());
    assert!(validate_folder_name_rules("   ").is_err());
}

#[test]
fn records_are_grouped_by_level_in_order() {
    let g = group_by_level(&vec![7, 9, 7, 12, 9], 7, 10);
    assert_eq!(g, vec![vec![0, 2], vec![], vec![1, 4], vec![]]);
}

#[test]
fn family_level_range_takes_lowest_median_and_highest() {
    let r = family_level_range(&vec![14, 9, 20, 11]);
    assert_eq!((r.min, r.median, r.max), (9, 12, 20));
    let r = family_level_range(&vec![5, 3, 8]);
    assert_eq!((r.min, r.median, r.max), (3, 5, 8));
    let r = family_level_range(&vec![]);
    assert_eq!((r.min, r.median, r.max), (0, 0, 0));
}
