use ai_step_gen_suite::biomechanics::{
    GeminiBiomechanicalState, GeminiChartSectionPayload, GeminiMeasure, PlayMode,
    ValidationIssueType, ValidationSeverity,
};
use ai_step_gen_suite::commands::{
    determine_asset_status, chart_details_from_tags, check_approved_payload, check_audio_file,
    check_chart_append, check_collisions, check_create_song, check_fingerprint,
    find_asset_candidate, new_chart_tags, new_song_tags, parse_u32, preview_message_for,
    preview_mismatches, preview_validation, resolve_preview_range, sanitize_gemini_json_payload,
    validate_folder_name_rules, validate_metadata_field, validate_preview_write_mode,
    CreateSongFacts, SectionBounds, SourceFileFacts, SscTag,
};
use ai_step_gen_suite::gemini::GeminiWriteMode;

fn state() -> GeminiBiomechanicalState {
    GeminiBiomechanicalState {
        current_twist_debt: 0.0f64.to_bits(),
        current_stamina_debt: 0.3f64.to_bits(),
        last_left_foot_lane: None,
        last_right_foot_lane: None,
    }
}

fn payload(section: &str, level: u32, measures: Vec<GeminiMeasure>) -> GeminiChartSectionPayload {
    GeminiChartSectionPayload {
        section_id: section.to_string(),
        difficulty_level: level,
        play_mode: PlayMode::Single,
        biomechanical_state: state(),
        measures,
    }
}

fn m(index: u32, rows: &[&str]) -> GeminiMeasure {
    GeminiMeasure {
        measure_index: index,
        subdivision: rows.len() as u32,
        rows: rows.iter().map(|r| r.to_string()).collect(),
    }
}

#[test]
fn test_validate_preview_write_mode() {
    let result_ok = validate_preview_write_mode("PreviewOnly");
    assert!(result_ok.is_ok());
    assert_eq!(result_ok.unwrap(), GeminiWriteMode::PreviewOnly);
    let result_err1 = validate_preview_write_mode("AppendIfValid");
    assert!(result_err1.is_err());
    assert!(result_err1.unwrap_err().contains("only supports 'PreviewOnly'"));
    let result_err2 = validate_preview_write_mode("SomeOtherMode");
    assert!(result_err2.is_err());
    assert!(result_err2.unwrap_err().contains("only supports 'PreviewOnly'"));
}

#[test]
fn test_validate_folder_name_rules() {
    assert!(validate_folder_name_rules("My New Song").is_ok());
    assert_eq!(validate_folder_name_rules("  Trimmed Song  ").unwrap(), "Trimmed Song");
    assert!(validate_folder_name_rules("Song?").is_err());
    assert!(validate_folder_name_rules("Song*").is_err());
    assert!(validate_folder_name_rules("Song/Backslash").is_err());
    assert!(validate_folder_name_rules("Song\\Backslash").is_err());
    assert!(validate_folder_name_rules("con").is_err());
    assert!(validate_folder_name_rules("PRN").is_err());
    assert!(validate_folder_name_rules("LPT3").is_err());
    assert!(validate_folder_name_rules("Song.").is_err());
    assert!(validate_folder_name_rules("Song. ").is_err());
    assert!(validate_folder_name_rules("").is_err());
}

#[test]
fn folder_name_messages() {
    assert_eq!(validate_folder_name_rules("   ").unwrap_err(), "Folder name cannot be empty.");
    assert_eq!(
        validate_folder_name_rules("a<b").unwrap_err(),
        "Folder name contains invalid characters: < > : \" / \\ | ? *"
    );
    assert_eq!(
        validate_folder_name_rules("a\u{7}b").unwrap_err(),
        "Folder name contains control characters."
    );
    assert_eq!(
        validate_folder_name_rules(" com1 ").unwrap_err(),
        "Folder name 'com1' is a Windows reserved name."
    );
    assert_eq!(
        validate_folder_name_rules("Song.").unwrap_err(),
        "Folder name cannot end with a dot or space."
    );
}

#[test]
fn metadata_field_errors() {
    assert!(validate_metadata_field("Plain title", "Title").is_ok());
    assert_eq!(
        validate_metadata_field("a;b", "Title").unwrap_err(),
        "Field 'Title' cannot contain semicolons (';')."
    );
    assert_eq!(
        validate_metadata_field("a\nb", "Artist").unwrap_err(),
        "Field 'Artist' cannot contain newlines."
    );
    assert_eq!(
        validate_metadata_field("a\u{1b}b", "Genre").unwrap_err(),
        "Field 'Genre' cannot contain control characters."
    );
    assert_eq!(
        validate_metadata_field("a\u{85}b", "Genre").unwrap_err(),
        "Field 'Genre' cannot contain control characters."
    );
}

#[test]
fn sanitize_unwraps_fences() {
    assert_eq!(sanitize_gemini_json_payload("  {\"a\":1}  "), "{\"a\":1}");
    assert_eq!(sanitize_gemini_json_payload("```json\n{\"a\":1}\n```"), "{\"a\":1}");
    assert_eq!(sanitize_gemini_json_payload("text ```\n {\"b\":2} \n``` more"), "{\"b\":2}");
    assert_eq!(sanitize_gemini_json_payload("```json {\"c\":3}"), "```json {\"c\":3}");
}

#[test]
fn preview_range_defaults_and_errors() {
    let none: Vec<SectionBounds> = vec![];
    assert_eq!(resolve_preview_range(None, None, &none, "x").unwrap(), (0, 7, 8));
    let secs = vec![SectionBounds { section_id: "sec1".into(), start_measure: 4, end_measure: 11 }];
    assert_eq!(resolve_preview_range(None, None, &secs, "sec1").unwrap(), (4, 11, 8));
    assert_eq!(resolve_preview_range(Some(2), None, &secs, "sec1").unwrap(), (2, 11, 10));
    assert_eq!(
        resolve_preview_range(Some(5), Some(3), &none, "x").unwrap_err(),
        "El compás de fin (3) no puede ser menor que el compás de inicio (5)"
    );
    assert_eq!(
        resolve_preview_range(Some(0), Some(u32::MAX), &none, "x").unwrap_err(),
        "Measure range calculation overflowed"
    );
}

#[test]
fn preview_mismatches_are_listed() {
    let p = payload("other", 12, vec![m(0, &["10000", "00100", "00001", "00100"]), m(5, &["00000", "00000", "00000", "00000"])]);
    let issues = preview_mismatches(&p, "sec1", PlayMode::Single, 10, 0, 2, 3);
    assert_eq!(issues.len(), 4);
    assert_eq!(
        issues[0].message,
        "El ID de sección en la respuesta (other) no coincide con el solicitado (sec1)."
    );
    assert_eq!(
        issues[1].message,
        "El nivel de dificultad en la respuesta (12) no coincide con el solicitado (10)."
    );
    assert_eq!(issues[2].message, "Gemini returned 2 measures, expected 3 for requested range 0-2.");
    assert_eq!(
        issues[3].message,
        "La medida en la posición 1 tiene un índice de compás incorrecto (5). Se esperaba el índice absoluto 1."
    );
    assert_eq!(issues[3].measure_index, 5);
    assert!(issues.iter().all(|i| i.issue_type == ValidationIssueType::InvalidGeminiStructure));
    let good = payload("sec1", 10, vec![m(0, &["10000", "00100", "00001", "00100"])]);
    assert!(preview_mismatches(&good, "sec1", PlayMode::Single, 10, 0, 0, 1).is_empty());
}

#[test]
fn preview_validation_and_message() {
    let bad = payload("sec1", 10, vec![m(0, &["10000", "00M00", "00001", "00100"])]);
    let v = preview_validation(&bad);
    assert_eq!(v.issues.len(), 1);
    assert_eq!(v.issues[0].issue_type, ValidationIssueType::InvalidGeminiStructure);
    assert_eq!(preview_message_for(&v), "preview generado pero inválido; no se escribió en disco");
    let good = payload("sec1", 10, vec![m(0, &["10000", "00100", "00001", "00100"])]);
    let v = preview_validation(&good);
    assert!(v.issues.is_empty());
    assert_eq!(
        preview_message_for(&v),
        "Preview content generated and validated successfully without writing to disk."
    );
}

#[test]
fn approved_payload_checks() {
    let good = payload("chorus_approved", 12, vec![m(0, &["10000", "00100", "00001", "00100"])]);
    let (notes, desc) = check_approved_payload(&good).unwrap();
    assert_eq!(notes, "10000\n00100\n00001\n00100\n;");
    assert_eq!(desc, "AI chorus_approved S12");
    let bad = payload("x", 30, vec![m(0, &["10000", "00100", "00001", "00100"])]);
    assert_eq!(
        check_approved_payload(&bad).unwrap_err(),
        "Approved payload structural validation failed: Nivel de dificultad Single (30) fuera de rango (1-26)."
    );
    let triple = payload("x", 10, vec![m(0, &["11100", "00000", "00000", "00000"])]);
    let (notes, desc) = check_approved_payload(&triple).unwrap();
    assert_eq!(notes, "11100\n00000\n00000\n00000\n;");
    assert_eq!(desc, "AI x S10");
}

#[test]
fn fingerprint_must_match() {
    assert!(check_fingerprint("abc", "abc").is_ok());
    let err = check_fingerprint("incorrect_sha256_hash_value_here", "abc").unwrap_err();
    assert!(err.contains("fingerprint del archivo .ssc ha cambiado"));
}

#[test]
fn chart_append_gate() {
    assert_eq!(
        check_chart_append(PlayMode::Single, 10, "10000\n;", "Desc", "Me;").unwrap_err(),
        "Field 'Author/Credit' cannot contain semicolons (';')."
    );
    let (v, ok) = check_chart_append(PlayMode::Single, 10, "10000\n;", "Desc", "Me").unwrap();
    assert!(ok);
    assert!(v.issues.is_empty());
    let (v, ok) = check_chart_append(PlayMode::Single, 10, "1000\n;", "Desc", "Me").unwrap();
    assert!(!ok);
    assert_eq!(v.issues[0].severity, ValidationSeverity::Error);
}

#[test]
fn chart_tags_round_trip_through_details() {
    let tags = new_chart_tags(PlayMode::Single, 14, "AI sec S14", "Tester");
    assert_eq!(tags.len(), 7);
    assert_eq!(tags[4].key.as_deref(), Some("METER"));
    assert_eq!(tags[4].value, "14");
    let d = chart_details_from_tags(&tags);
    assert_eq!(d.steps_type, "pump-single");
    assert_eq!(d.difficulty, "Edit");
    assert_eq!(d.meter, 14);
    assert_eq!(d.description, "AI sec S14");
    assert_eq!(d.credit, "Tester");
}

#[test]
fn meter_keeps_last_readable_value() {
    let t = |k: &str, v: &str| SscTag { key: Some(k.into()), value: v.into(), is_comment: false };
    let tags = vec![t("METER", "12"), t("METER", "x"), t("CREDIT", "a"), t("CREDIT", "b")];
    let d = chart_details_from_tags(&tags);
    assert_eq!(d.meter, 12);
    assert_eq!(d.credit, "b");
    assert_eq!(parse_u32(&['+', '7']), Some(7));
    assert_eq!(parse_u32(&['4', '2', '9', '4', '9', '6', '7', '2', '9', '6']), None);
    assert_eq!(parse_u32(&['+']), None);
    assert_eq!(parse_u32(&[]), None);
}

#[test]
fn audio_file_checks() {
    let mut h = [0u8; 12];
    h[..3].copy_from_slice(b"ID3");
    assert!(check_audio_file(10, &h, 12).is_ok());
    assert!(check_audio_file(104857601, &h, 12).unwrap_err().contains("100 MB"));
    assert!(check_audio_file(10, &h, 3).unwrap_err().contains("demasiado pequeño"));
    let mut w = [0u8; 12];
    w[..4].copy_from_slice(b"RIFF");
    w[8..].copy_from_slice(b"WAVE");
    assert!(check_audio_file(10, &w, 12).is_ok());
    assert!(check_audio_file(10, &w, 8).is_err());
    let z = [0u8; 12];
    assert!(check_audio_file(10, &z, 12).unwrap_err().contains("bytes mágicos"));
}

#[test]
fn asset_candidates_and_status() {
    let files = vec![
        ("notes.txt".to_string(), "/s/notes.txt".to_string()),
        ("song-bg.png".to_string(), "/s/song-bg.png".to_string()),
        ("song.ogg".to_string(), "/s/song.ogg".to_string()),
    ];
    assert_eq!(find_asset_candidate("audio", &files), Some(2));
    assert_eq!(find_asset_candidate("background", &files), Some(1));
    assert_eq!(find_asset_candidate("banner", &files), None);
    assert_eq!(find_asset_candidate("other", &files), None);
    let a = determine_asset_status("audio", None, None, &files);
    assert_eq!(a.status_type, "FoundButNotDeclared");
    assert_eq!(a.file_name.as_deref(), Some("song.ogg"));
    let b = determine_asset_status("banner", Some("  "), None, &files);
    assert_eq!(b.status_type, "NotDeclared");
    let c = determine_asset_status("video", Some("v.mp4"), None, &files);
    assert_eq!(c.status_type, "DeclaredButMissing");
    let d = determine_asset_status("video", Some("v.mp4"), Some("/s/v.mp4".to_string()), &files);
    assert_eq!(d.status_type, "DeclaredAndFound");
}

fn facts() -> CreateSongFacts {
    CreateSongFacts {
        folder_name: Some("My Song".into()),
        title: "T".into(),
        artist: "A".into(),
        genre: "G".into(),
        credit: "C".into(),
        display_bpm: "120".into(),
        song_type: "ARCADE".into(),
        timing_bpm_in_range: true,
        audio: SourceFileFacts { exists_as_file: true, extension: Some("MP3".into()) },
        banner: Some(SourceFileFacts { exists_as_file: true, extension: Some("png".into()) }),
        background: None,
        video: None,
    }
}

#[test]
fn create_song_checks_and_plan() {
    let plan = check_create_song(&facts()).unwrap();
    assert_eq!(plan.audio_file, "audio.mp3");
    assert_eq!(plan.banner_file.as_deref(), Some("banner.png"));
    assert_eq!(plan.ssc_file, "My Song.ssc");
    let mut f = facts();
    f.title = "bad;title".into();
    assert_eq!(check_create_song(&f).unwrap_err(), "Field 'Title' cannot contain semicolons (';').");
    let mut f = facts();
    f.timing_bpm_in_range = false;
    assert_eq!(
        check_create_song(&f).unwrap_err(),
        "Timing BPM must be a reasonable number between 10.0 and 1000.0."
    );
    let mut f = facts();
    f.banner = Some(SourceFileFacts { exists_as_file: true, extension: Some("gif".into()) });
    assert_eq!(
        check_create_song(&f).unwrap_err(),
        "Unsupported banner format. Allowed: .png, .jpg, .jpeg"
    );
    let mut f = facts();
    f.song_type = "arcade".into();
    assert!(check_create_song(&f).unwrap_err().contains("Unsupported song type"));
    let mut f = facts();
    f.folder_name = Some("CON".into());
    assert!(check_create_song(&f).unwrap_err().contains("reserved"));
}

#[test]
fn collisions_and_song_tags() {
    let plan = check_create_song(&facts()).unwrap();
    assert!(check_collisions(&plan, false, false, false, false, false).is_ok());
    assert_eq!(
        check_collisions(&plan, true, true, false, false, true).unwrap_err(),
        "File collision detected. The following destination files already exist: audio.mp3, banner.png, My Song.ssc. Overwrite blocked."
    );
    let tags = new_song_tags(&facts(), &plan, "0.000000", "120.000");
    assert_eq!(tags.len(), 30);
    assert_eq!(tags[10].value, "banner.png");
    assert_eq!(tags[14].value, "audio.mp3");
    assert_eq!(tags[23].value, "0.000=120.000");
}
