use ai_step_gen_suite::corpus::{parse_args as parse_factory_args, FactoryCommand};
use ai_step_gen_suite::profiles::{parse_args as parse_profile_args, ProfileCommand};

fn argv(items: &[&str]) -> Vec<String> {
    std::iter::once("tool").chain(items.iter().copied()).map(String::from).collect()
}

#[test]
fn factory_reads_all_options() {
    let r = parse_factory_args(&argv(&[
        "--corpus-root", "/corpus", "--output-root", "/out", "--mode", "single-v0", "--pretty",
        "--limit-songs", "+25", "--pack-filter", "XX", "--fail-fast",
    ]));
    match r {
        Ok(FactoryCommand::Run(a)) => {
            assert_eq!(a.corpus_root, "/corpus");
            assert_eq!(a.output_root, "/out");
            assert_eq!(a.mode, "single-v0");
            assert!(a.pretty);
            assert_eq!(a.limit_songs, Some(25));
            assert_eq!(a.pack_filter, Some("XX".to_string()));
            assert!(a.fail_fast);
        }
        other => panic!("unexpected {:?}", other),
    }
}

#[test]
fn factory_defaults_and_last_value_wins() {
    let r = parse_factory_args(&argv(&[
        "--mode", "single-v0", "--corpus-root", "a", "--output-root", "b", "--corpus-root", "c",
    ]));
    match r {
        Ok(FactoryCommand::Run(a)) => {
            assert_eq!(a.corpus_root, "c");
            assert!(!a.pretty && !a.fail_fast);
            assert_eq!(a.limit_songs, None);
            assert_eq!(a.pack_filter, None);
        }
        other => panic!("unexpected {:?}", other),
    }
}

#[test]
fn factory_help_stops_reading() {
    assert!(matches!(parse_factory_args(&argv(&["--help", "--bogus"])), Ok(FactoryCommand::Help)));
    assert!(matches!(parse_factory_args(&argv(&["-h"])), Ok(FactoryCommand::Help)));
    assert_eq!(
        parse_factory_args(&argv(&["--bogus", "--help"])).unwrap_err(),
        "Unknown argument: --bogus"
    );
}

#[test]
fn factory_errors() {
    assert_eq!(
        parse_factory_args(&argv(&["--corpus-root"])).unwrap_err(),
        "Missing value for --corpus-root"
    );
    assert_eq!(
        parse_factory_args(&argv(&["--limit-songs", "-3"])).unwrap_err(),
        "Invalid number for --limit-songs"
    );
    assert_eq!(
        parse_factory_args(&argv(&["--limit-songs"])).unwrap_err(),
        "Missing value for --limit-songs"
    );
    assert_eq!(
        parse_factory_args(&argv(&[])).unwrap_err(),
        "Missing required flag: --corpus-root. Run with --help for details."
    );
    assert_eq!(
        parse_factory_args(&argv(&["--corpus-root", "a"])).unwrap_err(),
        "Missing required flag: --output-root. Run with --help for details."
    );
    assert_eq!(
        parse_factory_args(&argv(&["--corpus-root", "a", "--output-root", "b"])).unwrap_err(),
        "Missing required flag: --mode. Run with --help for details."
    );
    assert_eq!(
        parse_factory_args(&argv(&["--corpus-root", "a", "--output-root", "b", "--mode", "double"]))
            .unwrap_err(),
        "Unsupported mode: double. Only 'single-v0' is supported."
    );
}

#[test]
fn profiles_reads_options_and_defaults() {
    match parse_profile_args(&argv(&["--dataset-root", "d", "--output-root", "o"])) {
        Ok(ProfileCommand::Run(a)) => {
            assert_eq!(a.dataset_root, "d");
            assert_eq!(a.output_root, "o");
            assert!(!a.pretty && !a.fail_fast);
            assert_eq!(a.min_sample_size, 10);
            assert_eq!(a.level_range, (1, 26));
        }
        other => panic!("unexpected {:?}", other),
    }
    match parse_profile_args(&argv(&[
        "--pretty", "--fail-fast", "--min-sample-size", "3", "--level-range", "5-9",
        "--dataset-root", "d", "--output-root", "o",
    ])) {
        Ok(ProfileCommand::Run(a)) => {
            assert!(a.pretty && a.fail_fast);
            assert_eq!(a.min_sample_size, 3);
            assert_eq!(a.level_range, (5, 9));
        }
        other => panic!("unexpected {:?}", other),
    }
}

#[test]
fn profiles_errors() {
    assert!(matches!(parse_profile_args(&argv(&["-h"])), Ok(ProfileCommand::Help)));
    assert_eq!(
        parse_profile_args(&argv(&["--level-range", "9-5"])).unwrap_err(),
        "Min level cannot be greater than max level"
    );
    assert_eq!(
        parse_profile_args(&argv(&["--level-range", "1"])).unwrap_err(),
        "Level range must be in format 'MIN-MAX', e.g. '1-26'"
    );
    assert_eq!(
        parse_profile_args(&argv(&["--min-sample-size", "x"])).unwrap_err(),
        "Invalid number for --min-sample-size"
    );
    assert_eq!(
        parse_profile_args(&argv(&["--output-root", "o"])).unwrap_err(),
        "Missing required flag: --dataset-root. Run with --help for details."
    );
    assert_eq!(
        parse_profile_args(&argv(&["--dataset-root", "d"])).unwrap_err(),
        "Missing required flag: --output-root. Run with --help for details."
    );
    assert_eq!(
        parse_profile_args(&argv(&["--mode", "x"])).unwrap_err(),
        "Unknown argument: --mode"
    );
}
