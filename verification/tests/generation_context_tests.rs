use ai_step_gen_suite::generation_context::{
    classify_browser_bpm_reconciliation_status, self_audit_prompt_context, PatternFamily,
    PatternFamilyTargetMode,
};

#[test]
fn test_prompt_context_contains_no_private_paths_or_raw_tags() {
    assert!(self_audit_prompt_context("Normal prompt here with no private details").is_ok());
    assert!(self_audit_prompt_context("Forbidden #NOTEDATA raw tag").is_err());
    assert!(self_audit_prompt_context("Forbidden #notedata lowercase tag").is_err());
    assert!(self_audit_prompt_context("C:\\Users\\Desktop").is_err());
    assert!(self_audit_prompt_context("d:\\SomeFolder").is_err());
    assert!(self_audit_prompt_context("e:/SomeFolder").is_err());
    assert!(self_audit_prompt_context("/Users/admin/file.ssc").is_err());
    assert!(self_audit_prompt_context("/home/user/workspace").is_err());
    assert!(self_audit_prompt_context("dataset in .ai-step-gen-private-datasets folder").is_err());
    assert!(self_audit_prompt_context("contains official_songs reference").is_err());
    assert!(self_audit_prompt_context("contains base64 data").is_err());
    assert!(self_audit_prompt_context("contains data:audio stream").is_err());
    assert!(self_audit_prompt_context("contains file.mp3").is_err());
    assert!(self_audit_prompt_context("contains file.ogg").is_err());
    assert!(self_audit_prompt_context("contains file.wav").is_err());
    assert!(self_audit_prompt_context("contains file.png").is_err());
    assert!(self_audit_prompt_context("contains #TITLE tag").is_err());
    assert!(self_audit_prompt_context("contains #ARTIST tag").is_err());
    assert!(self_audit_prompt_context("contains #BPMS tag").is_err());
    assert!(self_audit_prompt_context("contains #OFFSET tag").is_err());
    assert!(self_audit_prompt_context("contains #STOPS tag").is_err());
    assert!(self_audit_prompt_context("contains #DELAYS tag").is_err());
    assert!(self_audit_prompt_context("contains #WARPS tag").is_err());
    assert!(self_audit_prompt_context("contains Canonical BPM").is_err());
    assert!(self_audit_prompt_context("contains Browser BPM").is_err());
    assert!(self_audit_prompt_context("contains Candidates:").is_err());
    assert!(self_audit_prompt_context("contains Duración:").is_err());
    assert!(self_audit_prompt_context("contains segundos").is_err());
}

#[test]
fn test_classify_browser_bpm_reconciliation_status_all_cases() {
    assert_eq!(
        classify_browser_bpm_reconciliation_status("Status: agrees, Canonical BPM: 120"),
        Some(true)
    );
    assert_eq!(
        classify_browser_bpm_reconciliation_status("Status: disagrees, Canonical BPM: 120"),
        Some(false)
    );
    assert_eq!(classify_browser_bpm_reconciliation_status("Status: no_browser_evidence"), None);
    assert_eq!(classify_browser_bpm_reconciliation_status("Status: unsupported"), None);
    assert_eq!(classify_browser_bpm_reconciliation_status("status: DISAGREES"), Some(false));
    assert_eq!(
        classify_browser_bpm_reconciliation_status("Mismatch or manual review suggested"),
        Some(false)
    );
    assert_eq!(classify_browser_bpm_reconciliation_status("Agreed with sheet timing"), Some(true));
    assert_eq!(
        classify_browser_bpm_reconciliation_status("Some text with disagrees in it"),
        Some(false)
    );
    assert_eq!(classify_browser_bpm_reconciliation_status(""), None);
    assert_eq!(classify_browser_bpm_reconciliation_status("   "), None);
}

#[test]
fn audit_names_the_first_forbidden_pattern() {
    assert_eq!(
        self_audit_prompt_context("see #Title and C:/x").unwrap_err(),
        "Privacy Violation: Forbidden StepMania tag '#title' detected in prompt context."
    );
    assert_eq!(
        self_audit_prompt_context("Z:\\data").unwrap_err(),
        "Privacy Violation: Forbidden Windows path prefix 'z:\\' detected in prompt context."
    );
    assert_eq!(
        self_audit_prompt_context("in /tmp/x").unwrap_err(),
        "Privacy Violation: Forbidden Unix path prefix '/tmp/' detected in prompt context."
    );
    assert_eq!(
        self_audit_prompt_context("song.JPEG here").unwrap_err(),
        "Privacy Violation: Forbidden extension '.jpeg' detected in prompt context."
    );
    assert_eq!(
        self_audit_prompt_context("a.JPG.jpeg").unwrap_err(),
        "Privacy Violation: Forbidden extension '.jpg' detected in prompt context."
    );
}

#[test]
fn family_keys_round_trip() {
    let all = [
        PatternFamily::Stream,
        PatternFamily::JumpAccent,
        PatternFamily::TwistTechnical,
        PatternFamily::BracketTechnical,
        PatternFamily::HoldControl,
        PatternFamily::CenterControl,
        PatternFamily::Stamina,
        PatternFamily::Balanced,
        PatternFamily::Unknown,
    ];
    for f in all {
        assert_eq!(PatternFamily::from_str(&f.to_string_key()), f);
    }
    assert_eq!(PatternFamily::Stream.to_string_key(), "stream");
    assert_eq!(PatternFamily::JumpAccent.to_string_key(), "jump_accent");
}

#[test]
fn family_aliases_and_case() {
    assert_eq!(PatternFamily::from_str("Jump Accent"), PatternFamily::JumpAccent);
    assert_eq!(PatternFamily::from_str("JUMPS"), PatternFamily::JumpAccent);
    assert_eq!(PatternFamily::from_str("twist tech"), PatternFamily::TwistTechnical);
    assert_eq!(PatternFamily::from_str("Brackets"), PatternFamily::BracketTechnical);
    assert_eq!(PatternFamily::from_str("hold ctrl"), PatternFamily::HoldControl);
    assert_eq!(PatternFamily::from_str("Center"), PatternFamily::CenterControl);
    assert_eq!(PatternFamily::from_str("something"), PatternFamily::Unknown);
    assert_eq!(PatternFamilyTargetMode::from_str("AUTO"), PatternFamilyTargetMode::Auto);
    assert_eq!(
        PatternFamilyTargetMode::from_str("stamina"),
        PatternFamilyTargetMode::Specific(PatternFamily::Stamina)
    );
}
