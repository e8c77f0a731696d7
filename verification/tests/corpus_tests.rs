use ai_step_gen_suite::commands::SscTag;
use ai_step_gen_suite::corpus::{
    bad_row_length_message, catalog_chart_info, chart_counts, classify_chart_exclusion, compute_hash, compute_sha256_hex, find_bad_row_length,
    get_tag_value, has_gimmick_content, is_active_row, mirror_invariant_signature,
    parse_notes_block, smaller_text, window_counts,
};

fn tag(k: &str, v: &str) -> SscTag {
    SscTag { key: Some(k.to_string()), value: v.to_string(), is_comment: false }
}

#[test]
fn test_parse_notes_block_valid() {
    let notes_raw = "00000\n10001\n02000\n00000\n,\n10000\n00000\n00100\n00000\n;";
    let parsed = parse_notes_block(notes_raw).unwrap();
    assert_eq!(parsed.len(), 2);
    assert_eq!(parsed[0].len(), 4);
    assert_eq!(parsed[0][1], "10001");
    assert_eq!(parsed[1].len(), 4);
    assert_eq!(parsed[1][2], "00100");
}

#[test]
fn test_is_active_row() {
    assert!(is_active_row("10001"));
    assert!(is_active_row("00200"));
    assert!(!is_active_row("00000"));
    assert!(!is_active_row("00300"));
}

#[test]
fn notes_block_edge_cases() {
    assert_eq!(parse_notes_block("").unwrap_err(), "No measures found in notes block");
    assert_eq!(parse_notes_block(" ;").unwrap_err(), "No measures found in notes block");
    let p = parse_notes_block("10000 // c\n01000;\n,\n,\n00100\n").unwrap();
    assert_eq!(p.len(), 3);
    assert_eq!(p[0], vec!["10000".to_string(), "01000".to_string()]);
    assert!(p[1].is_empty());
    assert_eq!(p[2], vec!["00100".to_string()]);
}

#[test]
fn gimmicks_and_tags() {
    assert!(!has_gimmick_content("  "));
    assert!(!has_gimmick_content(" ; "));
    assert!(!has_gimmick_content(","));
    assert!(has_gimmick_content("1.000=0.5"));
    let tags = vec![tag("TITLE", "A"), tag("TITLE", "B")];
    assert_eq!(get_tag_value(&tags, "TITLE"), Some("A".to_string()));
    assert_eq!(get_tag_value(&tags, "ARTIST"), None);
}

#[test]
fn chart_exclusions() {
    let ok = vec![tag("DESCRIPTION", "s14"), tag("NOTES", "UCS inside notes")];
    assert_eq!(classify_chart_exclusion("pump-single", Some(14), &ok), None);
    assert_eq!(
        classify_chart_exclusion("pump-double", Some(14), &ok).unwrap(),
        "Only pump-single is supported in feature extraction v0"
    );
    let ucs = vec![tag("DESCRIPTION", "my ucs chart")];
    assert_eq!(classify_chart_exclusion("pump-single", Some(14), &ucs).unwrap(), "Excluded UCS chart");
    let coop = vec![tag("CHARTNAME", "Co-op x2")];
    assert_eq!(classify_chart_exclusion("pump-single", Some(14), &coop).unwrap(), "Excluded COOP chart");
    let quest = vec![tag("CHARTNAME", "quest")];
    assert_eq!(classify_chart_exclusion("pump-single", Some(14), &quest).unwrap(), "Excluded QUEST chart");
    let train = vec![tag("DESCRIPTION", "Train")];
    assert_eq!(classify_chart_exclusion("pump-single", Some(14), &train).unwrap(), "Excluded TRAIN chart");
    let comment = vec![SscTag { key: Some("DESCRIPTION".into()), value: "UCS".into(), is_comment: true }];
    assert_eq!(classify_chart_exclusion("pump-single", Some(3), &comment), None);
    assert_eq!(
        classify_chart_exclusion("pump-single", Some(0), &ok).unwrap(),
        "Meter missing or unparseable"
    );
    assert_eq!(classify_chart_exclusion("pump-single", None, &ok).unwrap(), "Meter missing or unparseable");
}

#[test]
fn hashes_are_hex_of_sha256() {
    assert_eq!(
        compute_sha256_hex("abc"),
        "ba7816bf8f01cfea414140de5dae2223b00361a396177a9cb410ff61f20015ad"
    );
    assert_eq!(compute_hash("abc"), "ba7816bf8f01cfea");
    assert_eq!(smaller_text("b", "a"), "a");
    assert_eq!(smaller_text("ab", "abc"), "ab");
    let (h1, sig) = mirror_invariant_signature("abc", "abc");
    assert_eq!(h1, sig);
}

fn block(s: &str) -> Vec<Vec<String>> {
    parse_notes_block(s).unwrap()
}

#[test]
fn chart_feature_counts() {
    let ms = block("10000\n01000\n00100\n00010\n,\n11000\n00200\n00300\n10101\n,\n00000\n00000\n00000\n00000\n;");
    let c = chart_counts(&ms);
    assert_eq!(c.measure_count, 3);
    assert_eq!(c.rows.row_count, 12);
    assert_eq!(c.rows.active_row_count, 7);
    assert_eq!(c.rows.tap_count, 9);
    assert_eq!(c.rows.hold_start_count, 1);
    assert_eq!(c.rows.hold_end_count, 1);
    assert_eq!(c.rows.jump_count, 1);
    assert_eq!(c.rows.triple_count, 1);
    assert_eq!(c.rows.center_note_count, 3);
    assert_eq!(c.rows.panel_counts, [3, 2, 3, 1, 1]);
    assert_eq!(c.rows.bracket_candidate_count, 1);
    assert_eq!(c.max_consecutive_active_rows, 6);
    assert_eq!(c.empty_measure_count, 1);
    assert_eq!(c.max_consecutive_empty_measures, 1);
    assert_eq!(c.total_triplets, 3);
    assert_eq!(c.twist_candidates, 1);
    assert!(!c.rows.has_mines);
}

#[test]
fn window_features() {
    let ms = block("10000\n00000\n,\n10000\n00000\n,\n01000\n,\n00001\n,\n00100\n;");
    let w = window_counts(&ms, 0);
    assert_eq!(w.start_measure, 0);
    assert_eq!(w.end_measure, 3);
    assert_eq!(w.rows.row_count, 6);
    assert_eq!(w.rows.active_row_count, 4);
    assert_eq!(w.distinct_active_rows, 3);
    assert_eq!(w.normalized_text, "10000|00000|10000|00000|01000|00001");
    assert_eq!(w.mirrored_text, "00001|00000|00001|00000|00010|10000");
}

#[test]
fn bad_row_length_is_found() {
    let ms = block("10000\n00000\n,\n1000\n;");
    assert_eq!(find_bad_row_length(&ms), Some((1, 0, 4)));
    let ok = block("10000\n;");
    assert_eq!(find_bad_row_length(&ok), None);
}

#[test]
fn mirrored_window_has_the_same_signature() {
    let rows = |v: &[&str]| -> Vec<String> { v.iter().map(|r| r.to_string()).collect() };
    let chart = vec![
        rows(&["10000", "01000", "00100", "00012"]),
        rows(&["00000", "10001", "00300", "01000"]),
        rows(&["00010", "00000", "00000", "00000"]),
        rows(&["11000", "00000", "00001", "00000"]),
    ];
    let mirror: Vec<Vec<String>> = chart
        .iter()
        .map(|m| m.iter().map(|r| r.chars().rev().collect::<String>()).collect())
        .collect();
    let w = window_counts(&chart, 0);
    let wm = window_counts(&mirror, 0);
    assert_eq!(w.normalized_text, wm.mirrored_text);
    assert_eq!(w.mirrored_text, wm.normalized_text);
    let (_, sig) = mirror_invariant_signature(&w.normalized_text, &w.mirrored_text);
    let (_, sig_m) = mirror_invariant_signature(&wm.normalized_text, &wm.mirrored_text);
    assert_eq!(sig, sig_m);
    assert_eq!(sig.len(), 16);
}

#[test]
fn bad_row_length_warning_text() {
    let ms = vec![vec!["10000".to_string()], vec!["10000".to_string(), "1000".to_string()]];
    let (m, r, len) = find_bad_row_length(&ms).unwrap();
    assert_eq!(
        bad_row_length_message(m, r, len),
        "Invalid row length at measure 1, row 1: expected 5, got 4"
    );
}

#[test]
fn catalog_entry_of_a_clean_single_chart() {
    let tags = vec![
        tag("STEPSTYPE", "pump-single"),
        tag("DESCRIPTION", "Easy"),
        tag("METER", " 10 "),
        tag("CREDIT", "Someone"),
    ];
    let c = catalog_chart_info("song1", &tags, "10000\n00000\n00100\n00000\n,\n00001\n00000\n00000\n00000\n;");
    assert_eq!(c.chart_id, "c5501fe2400aa091c9f7b5344d033d25abdd9402d6feafdc2cefec1f9922ad4e");
    assert_eq!(c.mode, "Single");
    assert_eq!(c.meter, 10);
    assert_eq!(c.credit, "Someone");
    assert_eq!(c.measure_count, 2);
    assert!(!c.is_excluded);
    assert_eq!(c.exclusion_reason, None);
    assert_eq!(c.stepmaker_candidate, "");
}

#[test]
fn catalog_entries_record_why_a_chart_is_left_out() {
    let double = vec![tag("STEPSTYPE", "pump-double")];
    let c = catalog_chart_info("song1", &double, "");
    assert_eq!(c.chart_id, "7b82b59d3c6fa46f1ce05894391df3119c465ebc4afa9f1b481c97dd03a17964");
    assert_eq!(c.mode, "Double");
    assert_eq!(c.meter, 0);
    assert!(c.is_excluded);
    assert_eq!(c.exclusion_reason.as_deref(), Some("Only pump-single is supported in feature extraction v0"));
    let single = vec![tag("STEPSTYPE", "pump-single"), tag("METER", "7")];
    let empty = catalog_chart_info("song1", &single, "   ");
    assert_eq!(
        empty.exclusion_reason.as_deref(),
        Some("Parsing notes block failed: No measures found in notes block")
    );
    assert_eq!(empty.measure_count, 0);
    let short = catalog_chart_info("song1", &single, "10000\n1000\n;");
    assert_eq!(short.measure_count, 1);
    assert_eq!(
        short.exclusion_reason.as_deref(),
        Some("Invalid row length at measure 0, row 1: expected 5, got 4")
    );
}
