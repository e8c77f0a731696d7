use ai_step_gen_suite::biomechanics::PlayMode;
use ai_step_gen_suite::generation_context::{
    resolve_pattern_family_targeting, targeting_level_ok, ChoreographicIntentSignal, MusicAnalysisSignals,
    PatternFamily, PatternFamilyTargetMode, SectionRoleSignal,
};
use ai_step_gen_suite::guardrail::{
    FamilySignalEntry, LevelThresholdEntry, SingleGuardrailCalibration, TypicalLevelRange,
};

fn strings(v: &[&str]) -> Vec<String> {
    v.iter().map(|s| s.to_string()).collect()
}

fn intent(
    confidence: f64,
    recommended: &[&str],
    avoid: &[&str],
) -> ChoreographicIntentSignal {
    ChoreographicIntentSignal {
        section_id: "sec1".to_string(),
        confidence_text: format!("{:.2}", confidence),
        confidence_below_half: confidence < 0.5,
        density_target: "moderate".to_string(),
        recommended_pattern_families: strings(recommended),
        avoid_pattern_families: strings(avoid),
    }
}

fn analysis(intents: Vec<ChoreographicIntentSignal>, piu_role: &str) -> MusicAnalysisSignals {
    MusicAnalysisSignals {
        choreographic_intent: intents,
        sections: vec![SectionRoleSignal { section_id: "sec1".to_string(), piu_role: piu_role.to_string() }],
    }
}

fn calibration(families: Vec<FamilySignalEntry>) -> SingleGuardrailCalibration {
    SingleGuardrailCalibration {
        schema_version: "single-guardrail-calibration.v0".to_string(),
        publicability_status: "private_derived".to_string(),
        play_mode: "Single".to_string(),
        level_thresholds: vec![LevelThresholdEntry { key: "S14".to_string(), non_finite: None }],
        pattern_family_thresholds: families,
    }
}

fn family(key: &str, min: u32, max: u32) -> FamilySignalEntry {
    FamilySignalEntry {
        key: key.to_string(),
        typical_level_range: TypicalLevelRange { min, median: (min + max) / 2, max },
    }
}

#[test]
fn test_auto_target_defaults_to_balanced_without_signals() {
    let report = resolve_pattern_family_targeting(
        10,
        PlayMode::Single,
        PatternFamilyTargetMode::Auto,
        None,
        "sec1",
        None,
        None,
    );
    assert_eq!(report.primary_family, "balanced");
    assert_eq!(report.confidence, "low");
}

#[test]
fn test_manual_pattern_family_override_sets_primary() {
    let report = resolve_pattern_family_targeting(
        12,
        PlayMode::Single,
        PatternFamilyTargetMode::Specific(PatternFamily::Stream),
        None,
        "sec1",
        None,
        None,
    );
    assert_eq!(report.primary_family, "stream");
}

#[test]
fn test_low_level_avoids_bracket_and_heavy_twist() {
    let report = resolve_pattern_family_targeting(
        5,
        PlayMode::Single,
        PatternFamilyTargetMode::Auto,
        None,
        "sec1",
        None,
        None,
    );
    assert!(report.avoid_families.contains(&"bracket_technical".to_string()));
    assert!(report.avoid_families.contains(&"twist_technical".to_string()));
    assert!(report.avoid_families.contains(&"stamina".to_string()));
}

#[test]
fn test_music_analysis_stream_signal_prefers_stream() {
    let ma = analysis(vec![intent(0.8, &["stream"], &["jump_accent"])], "stream_opportunity");
    let report = resolve_pattern_family_targeting(
        12,
        PlayMode::Single,
        PatternFamilyTargetMode::Auto,
        Some(&ma),
        "sec1",
        None,
        None,
    );
    assert_eq!(report.primary_family, "stream");
    assert!(report.avoid_families.contains(&"jump_accent".to_string()));
}

#[test]
fn test_jump_accent_signal_prefers_jump_accent() {
    let ma = analysis(vec![], "accent_drop");
    let report = resolve_pattern_family_targeting(
        12,
        PlayMode::Single,
        PatternFamilyTargetMode::Auto,
        Some(&ma),
        "sec1",
        None,
        None,
    );
    assert_eq!(report.primary_family, "jump_accent");
}

#[test]
fn test_low_confidence_music_analysis_lowers_targeting_confidence() {
    let ma = analysis(vec![intent(0.3, &["stream"], &[])], "stream_opportunity");
    let report = resolve_pattern_family_targeting(
        12,
        PlayMode::Single,
        PatternFamilyTargetMode::Auto,
        Some(&ma),
        "sec1",
        None,
        None,
    );
    assert_eq!(report.confidence, "low");
}

#[test]
fn test_missing_calibration_still_builds_prompt_context() {
    let report = resolve_pattern_family_targeting(
        12,
        PlayMode::Single,
        PatternFamilyTargetMode::Auto,
        None,
        "sec1",
        None,
        None,
    );
    assert_eq!(report.confidence, "low");
}

#[test]
fn test_calibration_thresholds_are_included_when_available() {
    let calib = calibration(vec![]);
    let report = resolve_pattern_family_targeting(
        14,
        PlayMode::Single,
        PatternFamilyTargetMode::Auto,
        None,
        "sec1",
        Some(&calib),
        None,
    );
    assert_eq!(report.confidence, "high");
}

#[test]
fn stream_signal_report_in_full() {
    let ma = analysis(vec![intent(0.8, &["stream"], &["jump_accent"])], "stream_opportunity");
    let r = resolve_pattern_family_targeting(12, PlayMode::Single, PatternFamilyTargetMode::Auto, Some(&ma), "sec1", None, None);
    assert_eq!(r.requested_mode, "auto");
    assert_eq!(r.confidence, "medium");
    assert_eq!(r.secondary_families, Vec::<String>::new());
    assert_eq!(r.avoid_families, strings(&["jump_accent"]));
    let scores: Vec<i128> = r.candidates.iter().map(|c| c.score_halves).collect();
    assert_eq!(scores, vec![5, -20, 0, 0, 0, 0, 0, 2]);
    assert_eq!(r.candidates[0].family, PatternFamily::Stream);
    assert_eq!(
        r.candidates[0].evidence,
        strings(&["Recomendado por Music Analysis (Intent Density: moderate)"])
    );
    assert_eq!(r.candidates[1].evidence, strings(&["Evitado explícitamente por Music Analysis"]));
    assert_eq!(
        r.evidence,
        strings(&[
            "Análisis musical disponible con confianza 0.80 para la sección 'sec1'.",
            "Auto seleccionó 'stream' con score 2.50.",
        ])
    );
    assert!(r.warnings.is_empty());
}

#[test]
fn low_confidence_shifts_weight_to_balanced() {
    let ma = analysis(vec![intent(0.3, &["stream"], &[])], "none");
    let r = resolve_pattern_family_targeting(12, PlayMode::Single, PatternFamilyTargetMode::Auto, Some(&ma), "sec1", None, None);
    let scores: Vec<i128> = r.candidates.iter().map(|c| c.score_halves).collect();
    assert_eq!(scores, vec![2, -3, -3, -3, -3, -3, -3, 6]);
    assert_eq!(r.primary_family, "balanced");
    assert_eq!(r.secondary_families, strings(&["stream"]));
    assert_eq!(
        r.warnings,
        strings(&["La confianza del análisis musical es baja (0.30). Se prioriza 'balanced'."])
    );
    assert_eq!(r.evidence[1], "Auto seleccionó 'balanced' con score 3.00.");
}

#[test]
fn low_level_scores_avoided_families_at_minus_999() {
    let r = resolve_pattern_family_targeting(5, PlayMode::Single, PatternFamilyTargetMode::Auto, None, "sec1", None, None);
    let scores: Vec<i128> = r.candidates.iter().map(|c| c.score_halves).collect();
    assert_eq!(scores, vec![0, 0, -1998, -1998, 0, 0, -1998, 2]);
    assert_eq!(r.primary_family, "balanced");
    assert_eq!(r.evidence, strings(&["Auto seleccionó 'balanced' con score 1.00."]));
    assert_eq!(r.candidates[2].warnings, strings(&["Evitado para niveles bajos (S1-S6/S10)"]));
    assert_eq!(r.candidates[2].confidence, "medium");
    assert_eq!(r.candidates[0].confidence, "high");
    // Double has no level limits.
    let d = resolve_pattern_family_targeting(5, PlayMode::Double, PatternFamilyTargetMode::Auto, None, "sec1", None, None);
    assert!(d.avoid_families.is_empty());
}

#[test]
fn requested_family_too_hard_for_the_level_falls_back() {
    let r = resolve_pattern_family_targeting(
        5,
        PlayMode::Single,
        PatternFamilyTargetMode::Specific(PatternFamily::BracketTechnical),
        None,
        "sec1",
        None,
        None,
    );
    assert_eq!(r.primary_family, "balanced");
    assert_eq!(r.requested_mode, "bracket_technical");
    assert_eq!(
        r.warnings,
        strings(&["La familia de patrones requested 'bracket_technical' es incompatible con el nivel bajo S5 y ha sido evitada."])
    );
    assert_eq!(r.evidence, strings(&["Fallback a 'balanced' debido a incompatibilidad con 'bracket_technical'."]));
    // Specific mode does not score avoided families at -999, but still lists them.
    assert_eq!(r.candidates[3].score_halves, 0);
    assert!(r.avoid_families.contains(&"bracket_technical".to_string()));
}

#[test]
fn requested_family_far_below_its_calibrated_range_falls_back() {
    let calib = calibration(vec![family("stamina", 18, 24)]);
    let r = resolve_pattern_family_targeting(
        14,
        PlayMode::Single,
        PatternFamilyTargetMode::Specific(PatternFamily::Stamina),
        None,
        "sec1",
        Some(&calib),
        None,
    );
    assert_eq!(r.primary_family, "balanced");
    assert_eq!(
        r.warnings,
        strings(&["La familia requested 'stamina' tiene un rango mínimo calibrado de S18, lo cual es demasiado alto para S14."])
    );
    // Four levels below the range: minus 6 points.
    assert_eq!(r.candidates[6].score_halves, -12);
    assert_eq!(
        r.candidates[6].warnings,
        strings(&["Nivel solicitado S14 es menor que el mínimo calibrado (S18) para stamina"])
    );
    let near = resolve_pattern_family_targeting(
        15,
        PlayMode::Single,
        PatternFamilyTargetMode::Specific(PatternFamily::Stamina),
        None,
        "sec1",
        Some(&calib),
        None,
    );
    assert_eq!(near.primary_family, "stamina");
    assert_eq!(near.evidence, strings(&["Selección manual del usuario para focus: 'stamina'."]));
}

#[test]
fn calibration_ranges_adjust_scores() {
    let calib = calibration(vec![family("stream", 10, 20), family("hold_control", 1, 8)]);
    let r = resolve_pattern_family_targeting(14, PlayMode::Single, PatternFamilyTargetMode::Auto, None, "sec1", Some(&calib), None);
    assert_eq!(r.candidates[0].score_halves, 2);
    assert_eq!(r.candidates[4].score_halves, 1);
    assert_eq!(
        r.candidates[0].evidence,
        strings(&["Nivel solicitado S14 está dentro del rango típico de calibración para stream (S10-S20)"])
    );
    assert_eq!(
        r.candidates[4].evidence,
        strings(&["Nivel solicitado S14 es mayor que el máximo calibrado (S8) para hold_control"])
    );
    // Stream and balanced tie at 1.0: the earlier family wins.
    assert_eq!(r.primary_family, "stream");
    assert_eq!(r.secondary_families, strings(&["hold_control"]));
    assert_eq!(r.confidence, "high");
    let high = resolve_pattern_family_targeting(25, PlayMode::Single, PatternFamilyTargetMode::Auto, None, "sec1", Some(&calib), None);
    assert_eq!(high.confidence, "medium");
}

#[test]
fn section_roles_add_points() {
    let ma = analysis(vec![], "Climax_Run");
    let r = resolve_pattern_family_targeting(16, PlayMode::Single, PatternFamilyTargetMode::Auto, Some(&ma), "sec1", None, None);
    let scores: Vec<i128> = r.candidates.iter().map(|c| c.score_halves).collect();
    assert_eq!(scores, vec![3, 0, 2, 0, 0, 0, 3, 2]);
    assert_eq!(r.primary_family, "stream");
    assert_eq!(r.secondary_families, strings(&["twist_technical", "stamina"]));
    // A role without an intent is no analysis signal.
    assert_eq!(r.confidence, "low");
    let ma = analysis(vec![], "twist_train");
    let r = resolve_pattern_family_targeting(8, PlayMode::Single, PatternFamilyTargetMode::Auto, Some(&ma), "sec1", None, None);
    assert_eq!(r.candidates[2].evidence, strings(&["PIU Role 'twist_train' detectado"]));
    assert_eq!(r.primary_family, "twist_technical");
    let ma = analysis(vec![], "final_burst");
    let r = resolve_pattern_family_targeting(16, PlayMode::Single, PatternFamilyTargetMode::Auto, Some(&ma), "sec1", None, None);
    assert_eq!(r.primary_family, "stamina");
    assert_eq!(
        r.candidates[6].evidence,
        strings(&["Sección final burst a nivel alto (S15+), se sugiere resistencia"])
    );
}

#[test]
fn other_sections_signals_are_ignored() {
    let ma = analysis(vec![intent(0.8, &["stream"], &[])], "accent_drop");
    let r = resolve_pattern_family_targeting(12, PlayMode::Single, PatternFamilyTargetMode::Auto, Some(&ma), "sec2", None, None);
    assert_eq!(r.primary_family, "balanced");
    assert_eq!(r.confidence, "low");
    assert_eq!(r.evidence, strings(&["Auto seleccionó 'balanced' con score 1.00."]));
}

#[test]
fn only_a_specific_family_with_a_signal_limits_the_level() {
    let cal = calibration(vec![FamilySignalEntry {
        key: "stream".to_string(),
        typical_level_range: TypicalLevelRange { min: 10, median: 15, max: 20 },
    }]);
    let top = u32::MAX;
    assert!(targeting_level_ok(top, PlayMode::Single, PatternFamilyTargetMode::Auto, Some(&cal)));
    assert!(!targeting_level_ok(top, PlayMode::Single, PatternFamilyTargetMode::Specific(PatternFamily::Stream), Some(&cal)));
    assert!(targeting_level_ok(top, PlayMode::Single, PatternFamilyTargetMode::Specific(PatternFamily::Stream), None));
    assert!(targeting_level_ok(top, PlayMode::Single, PatternFamilyTargetMode::Specific(PatternFamily::Stamina), Some(&cal)));
    assert!(targeting_level_ok(20, PlayMode::Single, PatternFamilyTargetMode::Specific(PatternFamily::Stream), Some(&cal)));
}
