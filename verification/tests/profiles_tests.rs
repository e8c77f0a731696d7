use ai_step_gen_suite::profiles::{archetype_pattern_families, StyleArchetypeBias};
use ai_step_gen_suite::profiles::{
    audit_output_line, get_level_band, level_confidence, low_sample_message, parse_level_range,
    validate_input_record, BaseRecordHeader, ProfileDiagnostic,
};

#[test]
fn level_ranges() {
    assert_eq!(parse_level_range("1-26").unwrap(), (1, 26));
    assert_eq!(parse_level_range("5-5").unwrap(), (5, 5));
    assert_eq!(
        parse_level_range("126").unwrap_err(),
        "Level range must be in format 'MIN-MAX', e.g. '1-26'"
    );
    assert_eq!(parse_level_range("a-3").unwrap_err(), "Invalid min level");
    assert_eq!(parse_level_range("3-").unwrap_err(), "Invalid max level");
    assert_eq!(parse_level_range("9-3").unwrap_err(), "Min level cannot be greater than max level");
}

#[test]
fn level_bands() {
    assert_eq!(get_level_band(1), "S1-S6");
    assert_eq!(get_level_band(10), "S7-S10");
    assert_eq!(get_level_band(14), "S11-S14");
    assert_eq!(get_level_band(22), "S19-S22");
    assert_eq!(get_level_band(26), "S23-S26");
    assert_eq!(get_level_band(0), "S15-S18");
    assert_eq!(get_level_band(40), "S15-S18");
}

#[test]
fn confidence_policy() {
    assert_eq!(level_confidence(50, 10), "high");
    assert_eq!(level_confidence(11, 10), "medium");
    assert_eq!(level_confidence(9, 10), "low");
    assert_eq!(low_sample_message(26, 1), "Level S26 has only 1 charts; profile confidence is low.");
}

#[test]
fn record_headers() {
    let mut diags: Vec<ProfileDiagnostic> = Vec::new();
    let mut missing = 0usize;
    let mut invalid = 0usize;
    let ok = BaseRecordHeader {
        schema_version: Some("expected-schema.v0".into()),
        publicability_status: Some("private_derived".into()),
    };
    assert_eq!(
        validate_input_record(1, "f.jsonl", &ok, "expected-schema.v0", "private_derived", false, &mut diags, &mut missing, &mut invalid),
        Ok(true)
    );
    let wrong = BaseRecordHeader {
        schema_version: Some("incorrect-schema.v0".into()),
        publicability_status: Some("private_derived".into()),
    };
    assert_eq!(
        validate_input_record(2, "test_file.jsonl", &wrong, "expected-schema.v0", "private_derived", false, &mut diags, &mut missing, &mut invalid),
        Ok(false)
    );
    assert_eq!(diags.len(), 1);
    assert_eq!(diags[0].code, "UNSUPPORTED_SCHEMA_VERSION");
    let err = validate_input_record(3, "test_file.jsonl", &wrong, "expected-schema.v0", "private_derived", true, &mut diags, &mut missing, &mut invalid).unwrap_err();
    assert!(err.contains("Incorrect schema_version"));
    assert_eq!(err, "Incorrect schema_version in test_file.jsonl at line 3: expected expected-schema.v0, got incorrect-schema.v0");
    let no_status = BaseRecordHeader { schema_version: Some("expected-schema.v0".into()), publicability_status: None };
    assert_eq!(
        validate_input_record(4, "f", &no_status, "expected-schema.v0", "private_derived", false, &mut diags, &mut missing, &mut invalid),
        Ok(false)
    );
    assert_eq!(missing, 1);
    let bad_status = BaseRecordHeader { schema_version: Some("expected-schema.v0".into()), publicability_status: Some("public_derived".into()) };
    let _ = validate_input_record(5, "f", &bad_status, "expected-schema.v0", "private_derived", false, &mut diags, &mut missing, &mut invalid);
    assert_eq!(invalid, 1);
    assert_eq!(diags.last().unwrap().code, "INVALID_PUBLICABILITY_STATUS");
}

#[test]
fn output_audit() {
    assert!(audit_output_line("m.json", 0, "{\"ok\": true}").is_ok());
    assert_eq!(
        audit_output_line("m.json", 0, "some prefix #title: forbidden suffix").unwrap_err(),
        "PRIVACY VIOLATION: Output file m.json contains forbidden pattern '#TITLE:' at line 1!"
    );
    assert!(audit_output_line("m.json", 4, "see c:\\x").unwrap_err().contains("'C:\\' at line 5"));
    assert!(audit_output_line("m.json", 0, "file.OGG").unwrap_err().contains("'.ogg'"));
}

#[test]
fn test_schema_mismatch_skips_record() {
    let val = BaseRecordHeader {
        schema_version: Some("incorrect-schema.v0".to_string()),
        publicability_status: Some("private_derived".to_string()),
    };
    let mut diagnostics = Vec::new();
    let mut missing_fields = 0;
    let mut invalid_status = 0;

    let result = validate_input_record(
        1,
        "test_file.jsonl",
        &val,
        "expected-schema.v0",
        "private_derived",
        false,
        &mut diagnostics,
        &mut missing_fields,
        &mut invalid_status,
    );

    assert_eq!(result, Ok(false));
    assert_eq!(diagnostics.len(), 1);
    assert_eq!(diagnostics[0].code, "UNSUPPORTED_SCHEMA_VERSION");
}

#[test]
fn test_schema_mismatch_aborts_immediately() {
    let val = BaseRecordHeader {
        schema_version: Some("incorrect-schema.v0".to_string()),
        publicability_status: Some("private_derived".to_string()),
    };
    let mut diagnostics = Vec::new();
    let mut missing_fields = 0;
    let mut invalid_status = 0;

    let result = validate_input_record(
        1,
        "test_file.jsonl",
        &val,
        "expected-schema.v0",
        "private_derived",
        true,
        &mut diagnostics,
        &mut missing_fields,
        &mut invalid_status,
    );

    assert!(result.is_err());
    assert!(result.unwrap_err().contains("Incorrect schema_version"));
}

#[test]
fn archetype_biases_point_to_families() {
    let b = StyleArchetypeBias {
        density_bias: "very_high".into(),
        accent_bias: "high".into(),
        twist_bias: "medium".into(),
        bracket_bias: "high".into(),
        rest_bias: "low".into(),
    };
    assert_eq!(archetype_pattern_families(&b), vec!["stream", "jump_accent", "bracket_technical", "stamina"]);
    let none = StyleArchetypeBias {
        density_bias: "medium".into(),
        accent_bias: "low".into(),
        twist_bias: "low".into(),
        bracket_bias: "low".into(),
        rest_bias: "high".into(),
    };
    assert!(archetype_pattern_families(&none).is_empty());
}

#[test]
fn factory_schema_versions_are_fixed() {
    let v = ai_step_gen_suite::corpus::factory_schema_versions();
    assert_eq!(v.catalog, "official-corpus-catalog.v0");
    assert_eq!(v.chart_features, "single-chart-features.v0");
    assert_eq!(v.window_features, "single-window-features.v0");
    assert_eq!(v.error, "official-corpus-error.v0");
}
