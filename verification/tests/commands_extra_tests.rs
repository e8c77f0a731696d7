use ai_step_gen_suite::biomechanics::{PlayMode, ValidationSeverity};
use ai_step_gen_suite::commands::{
    aborted_append, backup_file_name, completed_append, destination_folder_status, file_metadata,
    validate_chart_notes, validate_folder_name,
};

#[test]
fn metadata_from_path_and_size() {
    let meta = file_metadata("/tmp/test_metadata.mp3", 5).unwrap();
    assert_eq!(meta.name, "test_metadata.mp3");
    assert_eq!(meta.extension, "mp3");
    assert_eq!(meta.size, 5);
    let bare = file_metadata("/tmp/README", 9).unwrap();
    assert_eq!(bare.extension, "");
    assert_eq!(file_metadata("/", 0).unwrap_err(), "Failed to get file name.");
}

#[test]
fn destination_statuses() {
    assert_eq!(destination_folder_status(false, false, Ok(true), false).unwrap(), "NotExist");
    assert_eq!(
        destination_folder_status(true, false, Ok(true), false).unwrap_err(),
        "The specified path exists but is not a directory."
    );
    assert_eq!(destination_folder_status(true, true, Ok(true), false).unwrap(), "ExistEmpty");
    assert_eq!(destination_folder_status(true, true, Ok(false), true).unwrap(), "ExistWithSsc");
    assert_eq!(destination_folder_status(true, true, Ok(false), false).unwrap(), "ExistNotEmpty");
    assert_eq!(
        destination_folder_status(true, true, Err("denied".to_string()), false).unwrap_err(),
        "Failed to read directory: denied. (Check permissions)"
    );
}

#[test]
fn backup_names_count_retries() {
    assert_eq!(backup_file_name("song", 1700000000, 0), "song.1700000000.bak.ssc");
    assert_eq!(backup_file_name("song", 1700000000, 2), "song.1700000000_2.bak.ssc");
}

#[test]
fn append_reports() {
    let v = validate_chart_notes(PlayMode::Single, 10, "10000\n00000\n00000\n00000\n;".to_string());
    assert!(v.issues.iter().all(|i| i.severity != ValidationSeverity::Error));
    let done = completed_append(vec![], v.clone(), Some("b.ssc".to_string()));
    assert!(done.written);
    assert_eq!(done.message, "Chart añadido y guardado con éxito.");
    assert_eq!(done.backup_path, Some("b.ssc".to_string()));
    let refused = aborted_append(vec![], v);
    assert!(!refused.written);
    assert_eq!(
        refused.message,
        "Se abortó la escritura en disco debido a errores de validación biomecánica."
    );
    assert_eq!(refused.backup_path, None);
}

#[test]
fn folder_name_command_matches_the_rules() {
    assert!(validate_folder_name("My Song".to_string()).is_ok());
    assert!(validate_folder_name("CON".to_string()).is_err());
}

#[test]
fn metadata_of_a_path_with_a_trailing_dot_component() {
    let meta = file_metadata("/tmp/foo.txt/.", 3).unwrap();
    assert_eq!(meta.name, "foo.txt");
    assert_eq!(meta.extension, "txt");
}

#[test]
fn metadata_of_one_component_paths() {
    let m = file_metadata("song.tar.gz", 1).unwrap();
    assert_eq!((m.name.as_str(), m.extension.as_str(), m.size), ("song.tar.gz", "gz", 1));
    let m = file_metadata(".hidden", 2).unwrap();
    assert_eq!((m.name.as_str(), m.extension.as_str()), (".hidden", ""));
    let m = file_metadata("noext", 3).unwrap();
    assert_eq!((m.name.as_str(), m.extension.as_str()), ("noext", ""));
    let m = file_metadata("trailing.", 4).unwrap();
    assert_eq!((m.name.as_str(), m.extension.as_str()), ("trailing.", ""));
}
