use ai_step_gen_suite::commands::{
    check_fingerprint_extension, check_ssc_extension, file_fingerprint, FileFingerprint, SscTag,
};
use ai_step_gen_suite::corpus::{flag_metrics, stream_metrics};
use ai_step_gen_suite::guardrail::{
    bracket_finding, has_level_thresholds, metric_finding, CalibrationFinding,
    LevelThresholdEntry, LimitExceedance, SingleGuardrailCalibration,
};
use ai_step_gen_suite::multi_section::{
    compare_fingerprint, final_fingerprint_matches, FingerprintCheck,
};
use ai_step_gen_suite::profiles::generation_guidance;

fn measure(rows: &[&str]) -> Vec<String> {
    rows.iter().map(|r| r.to_string()).collect()
}

fn tag(k: &str, v: &str) -> SscTag {
    SscTag { key: Some(k.to_string()), value: v.to_string(), is_comment: false }
}

#[test]
fn stream_windows_need_24_active_rows() {
    let busy = measure(&["10000", "01000", "00100", "00010", "00001", "10000", "01000", "00100"]);
    let calm = measure(&["10000", "00000", "00000", "00000"]);
    // Window 0: four busy measures (32 active rows); window 1: two busy, two
    // calm (18 active rows); the ninth measure is not in a whole window.
    let ms = vec![
        busy.clone(), busy.clone(), busy.clone(), busy.clone(),
        busy.clone(), busy.clone(), calm.clone(), calm.clone(),
        busy.clone(),
    ];
    let s = stream_metrics(&ms);
    assert_eq!(s.estimated_stream_windows, 1);
    // Six busy measures and the first row of the calm one.
    assert_eq!(s.max_consecutive_active_rows, 49);
    let empty: Vec<Vec<String>> = vec![];
    assert_eq!(stream_metrics(&empty).estimated_stream_windows, 0);
}

#[test]
fn flags_from_rows_and_timing_tags() {
    let ms = vec![measure(&["1000M", "00000"])];
    let f = flag_metrics(&ms, &vec![], 1);
    assert!(f.has_mines);
    assert!(!f.has_unsupported_rows);
    assert!(!f.has_timing_gimmicks);
    let ms = vec![measure(&["10X00"])];
    let tags = vec![tag("STOPS", " ; "), tag("WARPS", "")];
    let f = flag_metrics(&ms, &tags, 1);
    assert!(f.has_unsupported_rows);
    assert!(!f.has_timing_gimmicks);
    let tags = vec![tag("SCROLLS", "0.000=1.000")];
    assert!(flag_metrics(&ms, &tags, 1).has_timing_gimmicks);
    assert!(flag_metrics(&ms, &vec![], 2).has_timing_gimmicks);
}

fn parts(f: CalibrationFinding) -> (bool, String, String) {
    match f {
        CalibrationFinding::Warning(w) => (false, w.issue_type, w.message),
        CalibrationFinding::Error(e) => (true, e.issue_type, e.message),
    }
}

#[test]
fn metric_findings_by_exceedance() {
    let label = "densidad de notas por compás";
    assert!(metric_finding("Density", label, "10.00", "22.00", "25.00", 14, LimitExceedance::Within).is_none());
    let (is_error, kind, message) =
        parts(metric_finding("Density", label, "64.00", "22.00", "25.00", 14, LimitExceedance::OverHardLimit).unwrap());
    assert!(is_error);
    assert_eq!(kind, "DensityLimitExceeded");
    assert_eq!(
        message,
        "La densidad de notas por compás (64.00) excede el límite estricto p95 (25.00) para S14."
    );
    let (is_error, kind, message) =
        parts(metric_finding("Density", label, "32.00", "15.00", "20.00", 25, LimitExceedance::OverHardLimit).unwrap());
    assert!(!is_error);
    assert_eq!(kind, "DensityLimitExceeded");
    assert!(message.contains("confianza baja"));
    let (is_error, kind, message) =
        parts(metric_finding("JumpRate", "tasa de saltos (jumps)", "0.18", "0.15", "0.20", 14, LimitExceedance::OverWarning).unwrap());
    assert!(!is_error);
    assert_eq!(kind, "JumpRateWarningExceeded");
    assert_eq!(
        message,
        "La tasa de saltos (jumps) (0.18) excede el umbral de advertencia p90 (0.15) para S14."
    );
}

#[test]
fn bracket_findings_by_exceedance() {
    let (is_error, kind, message) =
        parts(bracket_finding("50.0", "30.0", "40.0", 14, LimitExceedance::OverHardLimit).unwrap());
    assert!(is_error);
    assert_eq!(kind, "BracketLimitExceeded");
    assert_eq!(
        message,
        "La cantidad de brackets (equiv. 50.0 en 100 compases) excede el límite estricto p95 (40.0) para S14."
    );
    let (is_error, kind, _) =
        parts(bracket_finding("35.0", "30.0", "40.0", 26, LimitExceedance::OverWarning).unwrap());
    assert!(!is_error);
    assert_eq!(kind, "BracketWarningExceeded");
    assert!(bracket_finding("1.0", "30.0", "40.0", 26, LimitExceedance::Within).is_none());
}

#[test]
fn level_thresholds_are_found_by_key() {
    let c = SingleGuardrailCalibration {
        schema_version: "single-guardrail-calibration.v0".to_string(),
        publicability_status: "private_derived".to_string(),
        play_mode: "Single".to_string(),
        level_thresholds: vec![LevelThresholdEntry { key: "S14".to_string(), non_finite: None }],
        pattern_family_thresholds: vec![],
    };
    assert!(has_level_thresholds(&c, 14));
    assert!(!has_level_thresholds(&c, 1));
    assert!(!has_level_thresholds(&c, 140));
}

#[test]
fn guidance_per_family() {
    let g = generation_guidance("stream");
    assert_eq!(
        g.recommended_when,
        vec!["Building running streams".to_string(), "Increasing stamina requirements".to_string()]
    );
    assert_eq!(g.guardrail_notes, vec!["Keep streams uninterrupted under 16 active rows at lower levels".to_string()]);
    assert_eq!(generation_guidance("stamina").avoid_when, vec!["Low difficulty levels under S15".to_string()]);
    let g = generation_guidance("balanced");
    assert_eq!(g.recommended_when, vec!["Standard chart progression".to_string()]);
    assert_eq!(g.avoid_when, vec!["Highly specialized technical styles".to_string()]);
    assert_eq!(g.guardrail_notes, vec!["Maintains average baseline metrics".to_string()]);
}

#[test]
fn test_get_file_fingerprint_invalid_extension() {
    assert_eq!(
        check_fingerprint_extension("/tmp/song.txt").unwrap_err(),
        "Solo se permite calcular el fingerprint de archivos con extensión .ssc"
    );
    assert!(check_fingerprint_extension("/tmp/song").is_err());
    assert!(check_fingerprint_extension("/tmp/song.ssc").is_ok());
    assert!(check_fingerprint_extension("/tmp/SONG.SsC").is_ok());
}

#[test]
fn fingerprints_hash_the_bytes() {
    let f = file_fingerprint(b"abc", 3, 1700000000);
    assert_eq!(f.file_size, 3);
    assert_eq!(f.modified_time, 1700000000);
    assert_eq!(f.sha256, "ba7816bf8f01cfea414140de5dae2223b00361a396177a9cb410ff61f20015ad");
    let e = file_fingerprint(b"", 0, 0);
    assert_eq!(e.sha256, "e3b0c44298fc1c149afbf4c8996fb92427ae41e4649b934ca495991b7852b855");
}

#[test]
fn fingerprint_comparison_uses_the_hash() {
    let before = file_fingerprint(b"abc", 3, 1);
    let touched = FileFingerprint { modified_time: 2, ..before.clone() };
    assert!(matches!(compare_fingerprint(&before, Ok(touched.clone())), FingerprintCheck::Unchanged));
    let edited = file_fingerprint(b"abd", 3, 2);
    assert!(matches!(compare_fingerprint(&before, Ok(edited.clone())), FingerprintCheck::Changed));
    match compare_fingerprint(&before, Err("gone".to_string())) {
        FingerprintCheck::Failed(e) => assert_eq!(e, "gone"),
        _ => panic!("expected a failed check"),
    }
    assert!(final_fingerprint_matches(&before, &Ok(touched)));
    assert!(!final_fingerprint_matches(&before, &Ok(edited)));
    assert!(!final_fingerprint_matches(&before, &Err("gone".to_string())));
}

#[test]
fn ssc_extension_in_any_ascii_case() {
    assert!(check_ssc_extension(Some("ssc")).is_ok());
    assert!(check_ssc_extension(Some("sSC")).is_ok());
    assert_eq!(
        check_ssc_extension(Some("ssc2")).unwrap_err(),
        "Solo se permite calcular el fingerprint de archivos con extensión .ssc"
    );
    assert!(check_ssc_extension(Some("")).is_err());
    assert!(check_ssc_extension(None).is_err());
}

#[test]
fn trailing_separators_keep_the_extension() {
    assert!(check_fingerprint_extension("/tmp/song.ssc/").is_ok());
    assert!(check_fingerprint_extension("/tmp/song.ssc/.").is_ok());
}

#[test]
fn one_component_ssc_paths() {
    assert!(check_fingerprint_extension("song.SSC").is_ok());
    assert!(check_fingerprint_extension("song.ssc.bak").is_err());
    assert!(check_fingerprint_extension(".ssc").is_err());
}
