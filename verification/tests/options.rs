use arena_next::options::{
    classify_argument, Action, ActionError, Argument, LoggingCommand, Options, OptionsError,
    ParseOutcome, SwitchFlag,
};

fn parse(arguments: &[&str]) -> ParseOutcome {
    Options::parse_from(&arguments.iter().map(|argument| (*argument).to_owned()).collect())
}

fn parse_options(arguments: &[&str]) -> Result<Options, OptionsError> {
    match parse(arguments) {
        ParseOutcome::Options(options) => Ok(options),
        ParseOutcome::Failed(error) => Err(error),
        _ => panic!("neither help nor the version was asked for"),
    }
}

fn parsed(arguments: &[&str]) -> Options {
    match parse_options(arguments) {
        Ok(options) => options,
        Err(error) => panic!("{}", error.message()),
    }
}

#[test]
fn logging_subcommands_require_an_explicit_safe_restore_selector() {
    let inspect = parsed(&["logging", "inspect"]);
    assert_eq!(inspect.logging_command, Some(LoggingCommand::Inspect));
    let diff = parsed(&["logging", "diff"]);
    assert_eq!(diff.logging_command, Some(LoggingCommand::Diff));

    assert!(parse_options(&["logging", "restore"]).is_err());
    assert!(parse_options(&["logging", "restore", "--latest", "--backup", "x"]).is_err());
    assert!(parse_options(&["logging", "inspect", "--latest"]).is_err());
    assert!(parse_options(&["logging", "restore", "--latest", "--once"]).is_err());

    let explicit = parsed(&["logging", "restore", "--backup", "/tmp/backup"]);
    assert_eq!(explicit.logging_command, Some(LoggingCommand::Restore));
    assert_eq!(explicit.settings.logging_backup, Some("/tmp/backup".to_owned()));
    assert!(!explicit.switches.logging_latest_backup);

    let latest = parsed(&["logging", "restore", "--latest"]);
    assert_eq!(latest.logging_command, Some(LoggingCommand::Restore));
    assert!(latest.settings.logging_backup.is_none());
    assert!(latest.switches.logging_latest_backup);
}

#[test]
fn analysis_command_keeps_facts_and_offers_local_and_explicit() {
    let options = parsed(&[
        "analyze",
        "--logs",
        "fixture-session",
        "--analysis-facts",
        "facts.json",
        "--offer",
        "CARD_A",
        "--offer",
        "CARD_B",
        "--ratings",
        "ratings.json",
    ]);
    assert!(options.switches.analyze);
    assert_eq!(options.settings.analysis_facts, Some("facts.json".to_owned()));
    assert_eq!(options.analysis_offers, vec!["CARD_A", "CARD_B"]);
    assert_eq!(options.settings.ratings, Some("ratings.json".to_owned()));
    assert!(parse_options(&["--offer", "CARD_A"]).is_err());
    assert!(parse_options(&["analyze", "--demo"]).is_err());
}

fn fault(arguments: &[&str]) -> OptionsError {
    match parse_options(arguments) {
        Ok(_) => panic!("the command line must be refused"),
        Err(error) => error,
    }
}

#[test]
fn each_refusal_of_a_command_line_has_its_name() {
    assert!(matches!(fault(&["--logs"]), OptionsError::RequiresPath { flag } if flag == "--logs"));
    assert!(matches!(
        fault(&["--arena-mode"]),
        OptionsError::RequiresValue { flag } if flag == "--arena-mode"
    ));
    assert!(matches!(
        fault(&["logging", "inspect", "logging", "diff"]),
        OptionsError::LoggingTwice
    ));
    let unknown = fault(&["logging", "bu\"rn"]);
    assert!(unknown.message().contains("\"bu\\\"rn\""), "{}", unknown.message());
    assert!(matches!(
        unknown,
        OptionsError::UnknownLogging { command } if command == "bu\"rn"
    ));
    assert!(matches!(
        fault(&["--what"]),
        OptionsError::UnknownArgument { argument } if argument == "--what"
    ));
    assert!(matches!(
        fault(&["logging", "inspect", "--latest"]),
        OptionsError::BackupWithoutRestore
    ));
    assert!(matches!(
        fault(&["logging", "restore"]),
        OptionsError::RestoreWithoutSelector
    ));
    assert!(matches!(
        fault(&["logging", "restore", "--latest", "--backup", "x"]),
        OptionsError::RestoreWithBothSelectors
    ));
    assert!(matches!(
        fault(&["--offer", "CARD_A"]),
        OptionsError::AnalysisWithoutAnalyze
    ));
    assert!(matches!(fault(&["analyze", "--demo"]), OptionsError::AnalyzeConflict));
    assert!(matches!(
        fault(&["--output", "x.json"]),
        OptionsError::OutputWithoutImport
    ));
    assert!(matches!(
        fault(&["logging", "inspect", "--once"]),
        OptionsError::LoggingConflict
    ));
    assert!(matches!(
        fault(&["import-hsreplay", "import-firestone"]),
        OptionsError::ManyImports
    ));
    assert!(matches!(
        fault(&["import-hsreplay", "--firestone-format", "arena"]),
        OptionsError::FormatWithoutFirestone
    ));
    assert!(matches!(
        fault(&["import-firestone", "--firestone-format", "duels"]),
        OptionsError::UnknownFormat { format } if format == "duels"
    ));
    assert!(matches!(
        fault(&["import-hsreplay", "--once"]),
        OptionsError::ImportConflict
    ));
}

#[test]
fn help_and_version_end_the_parsing() {
    assert!(matches!(parse(&["--help", "--nonsense"]), ParseOutcome::Help));
    assert!(matches!(parse(&["--version"]), ParseOutcome::Version));
    assert_eq!(classify_argument("--once"), Argument::Switch(SwitchFlag::Once));
    assert_eq!(classify_argument("--nonsense"), Argument::Unknown);
}

#[test]
fn a_command_line_asks_for_one_action() {
    assert_eq!(parsed(&[]).action(), Ok(Action::Overlay { demo: false }));
    assert_eq!(parsed(&["--once", "--demo"]).action(), Ok(Action::Once { demo: true }));
    assert_eq!(parsed(&["--inspect"]).action(), Ok(Action::Inspect));
    assert_eq!(
        parsed(&["logging", "diff"]).action(),
        Ok(Action::Logging(LoggingCommand::Diff))
    );
    assert_eq!(
        parsed(&["--inspect", "--enable-logging"]).action(),
        Err(ActionError::InspectAndEnable)
    );
    assert_eq!(parsed(&["doctor"]).action(), Ok(Action::Doctor));
    assert_eq!(
        parsed(&["--ratings", "r.json", "--once"]).action(),
        Err(ActionError::MatchingNeedsOverlay)
    );
    assert_eq!(parsed(&["--read-deck", "--demo"]).action(), Err(ActionError::CaptureConflict));
    assert_eq!(parsed(&["--read-deck"]).action(), Ok(Action::Capture));
    assert_eq!(parsed(&["--enable-logging"]).action(), Ok(Action::EnableLogging));
}
