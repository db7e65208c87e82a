//! What the words of a command line ask for, and what does not go together.
use crate::card_laws::{blank, trimming_takes_white_space_only};
use crate::options::{
    action_of, argument_of, beside_analysis, beside_capture, beside_import, beside_logging,
    import_count, no_settings, no_switches, options_fault, parsed, wants_capture, with_path,
    with_switch, with_value, Action, ActionError, Argument, LoggingCommand, OptionsFault,
    OptionsModel, ParseEnd, PathFlag, SettingsModel, SwitchFlag, Switches, ValueFlag,
};
use vstd::prelude::*;

verus! {

proof fn words_name_their_argument()
    ensures
        argument_of("--once"@) == Argument::Switch(SwitchFlag::Once),
        argument_of("--demo"@) == Argument::Switch(SwitchFlag::Demo),
        argument_of("--inspect"@) == Argument::Switch(SwitchFlag::Inspect),
        argument_of("inspect"@) == Argument::Switch(SwitchFlag::Inspect),
        argument_of("--enable-logging"@) == Argument::Switch(SwitchFlag::EnableLogging),
        argument_of("--capture-status"@) == Argument::Switch(SwitchFlag::CaptureStatus),
        argument_of("--request-screen-recording"@) == Argument::Switch(SwitchFlag::RequestScreenRecording),
        argument_of("--capture-window"@) == Argument::Switch(SwitchFlag::CaptureWindow),
        argument_of("--read-deck"@) == Argument::Switch(SwitchFlag::ReadDeck),
        argument_of("--read-offer"@) == Argument::Switch(SwitchFlag::ReadOffer),
        argument_of("doctor"@) == Argument::Switch(SwitchFlag::Doctor),
        argument_of("analyze"@) == Argument::Switch(SwitchFlag::Analyze),
        argument_of("--latest"@) == Argument::Switch(SwitchFlag::Latest),
        argument_of("--json"@) == Argument::Switch(SwitchFlag::Json),
        argument_of("import-heartharena"@) == Argument::Switch(SwitchFlag::ImportHearthArena),
        argument_of("import-hsreplay"@) == Argument::Switch(SwitchFlag::ImportHsReplay),
        argument_of("import-firestone"@) == Argument::Switch(SwitchFlag::ImportFirestone),
        argument_of("--logs"@) == Argument::Path(PathFlag::Logs),
        argument_of("--cards"@) == Argument::Path(PathFlag::Cards),
        argument_of("--arena-rules"@) == Argument::Path(PathFlag::ArenaRules),
        argument_of("--analysis-facts"@) == Argument::Path(PathFlag::AnalysisFacts),
        argument_of("--backup"@) == Argument::Path(PathFlag::Backup),
        argument_of("--draft-fingerprints"@) == Argument::Path(PathFlag::DraftFingerprints),
        argument_of("--ratings"@) == Argument::Path(PathFlag::Ratings),
        argument_of("--output"@) == Argument::Path(PathFlag::Output),
        argument_of("replay"@) == Argument::Path(PathFlag::Replay),
        argument_of("--arena-mode"@) == Argument::Value(ValueFlag::ArenaMode),
        argument_of("explain-card"@) == Argument::Value(ValueFlag::ExplainCard),
        argument_of("--firestone-format"@) == Argument::Value(ValueFlag::FirestoneFormat),
        argument_of("--offer"@) == Argument::Value(ValueFlag::Offer),
        argument_of("logging"@) == Argument::Logging,
        argument_of("--help"@) == Argument::Help,
        argument_of("-h"@) == Argument::Help,
        argument_of("--version"@) == Argument::Version,
        argument_of("-V"@) == Argument::Version,
{
    reveal(argument_of);
    reveal_strlit("--once");
    assert("--once"@.len() == 6);
    reveal_strlit("--demo");
    assert("--demo"@.len() == 6);
    reveal_strlit("--inspect");
    assert("--inspect"@.len() == 9);
    reveal_strlit("inspect");
    assert("inspect"@.len() == 7);
    reveal_strlit("--enable-logging");
    assert("--enable-logging"@.len() == 16);
    reveal_strlit("--capture-status");
    assert("--capture-status"@.len() == 16);
    reveal_strlit("--request-screen-recording");
    assert("--request-screen-recording"@.len() == 26);
    reveal_strlit("--capture-window");
    assert("--capture-window"@.len() == 16);
    reveal_strlit("--read-deck");
    assert("--read-deck"@.len() == 11);
    reveal_strlit("--read-offer");
    assert("--read-offer"@.len() == 12);
    reveal_strlit("doctor");
    assert("doctor"@.len() == 6);
    reveal_strlit("analyze");
    assert("analyze"@.len() == 7);
    reveal_strlit("--latest");
    assert("--latest"@.len() == 8);
    reveal_strlit("--json");
    assert("--json"@.len() == 6);
    reveal_strlit("import-heartharena");
    assert("import-heartharena"@.len() == 18);
    reveal_strlit("import-hsreplay");
    assert("import-hsreplay"@.len() == 15);
    reveal_strlit("import-firestone");
    assert("import-firestone"@.len() == 16);
    reveal_strlit("--logs");
    assert("--logs"@.len() == 6);
    reveal_strlit("--cards");
    assert("--cards"@.len() == 7);
    reveal_strlit("--arena-rules");
    assert("--arena-rules"@.len() == 13);
    reveal_strlit("--analysis-facts");
    assert("--analysis-facts"@.len() == 16);
    reveal_strlit("--backup");
    assert("--backup"@.len() == 8);
    reveal_strlit("--draft-fingerprints");
    assert("--draft-fingerprints"@.len() == 20);
    reveal_strlit("--ratings");
    assert("--ratings"@.len() == 9);
    reveal_strlit("--output");
    assert("--output"@.len() == 8);
    reveal_strlit("replay");
    assert("replay"@.len() == 6);
    reveal_strlit("--arena-mode");
    assert("--arena-mode"@.len() == 12);
    reveal_strlit("explain-card");
    assert("explain-card"@.len() == 12);
    reveal_strlit("--firestone-format");
    assert("--firestone-format"@.len() == 18);
    reveal_strlit("--offer");
    assert("--offer"@.len() == 7);
    reveal_strlit("logging");
    assert("logging"@.len() == 7);
    reveal_strlit("--help");
    assert("--help"@.len() == 6);
    reveal_strlit("-h");
    assert("-h"@.len() == 2);
    reveal_strlit("--version");
    assert("--version"@.len() == 9);
    reveal_strlit("-V");
    assert("-V"@.len() == 2);
    assert("--once"@[2] != "--demo"@[2]);
    assert("--enable-logging"@[2] != "--capture-status"@[2]);
    assert("--enable-logging"@[2] != "--capture-window"@[2]);
    assert("--capture-status"@[10] != "--capture-window"@[10]);
    assert("--once"@[0] != "doctor"@[0]);
    assert("--demo"@[0] != "doctor"@[0]);
    assert("inspect"@[0] != "analyze"@[0]);
    assert("--once"@[2] != "--json"@[2]);
    assert("--demo"@[2] != "--json"@[2]);
    assert("doctor"@[0] != "--json"@[0]);
    assert("--enable-logging"@[0] != "import-firestone"@[0]);
    assert("--capture-status"@[0] != "import-firestone"@[0]);
    assert("--capture-window"@[0] != "import-firestone"@[0]);
    assert("--once"@[2] != "--logs"@[2]);
    assert("--demo"@[2] != "--logs"@[2]);
    assert("doctor"@[0] != "--logs"@[0]);
    assert("--json"@[2] != "--logs"@[2]);
    assert("inspect"@[0] != "--cards"@[0]);
    assert("analyze"@[0] != "--cards"@[0]);
    assert("--enable-logging"@[2] != "--analysis-facts"@[2]);
    assert("--capture-status"@[2] != "--analysis-facts"@[2]);
    assert("--capture-window"@[2] != "--analysis-facts"@[2]);
    assert("import-firestone"@[0] != "--analysis-facts"@[0]);
    assert("--latest"@[2] != "--backup"@[2]);
    assert("--inspect"@[2] != "--ratings"@[2]);
    assert("--latest"@[2] != "--output"@[2]);
    assert("--backup"@[2] != "--output"@[2]);
    assert("--once"@[0] != "replay"@[0]);
    assert("--demo"@[0] != "replay"@[0]);
    assert("doctor"@[0] != "replay"@[0]);
    assert("--json"@[0] != "replay"@[0]);
    assert("--logs"@[0] != "replay"@[0]);
    assert("--read-offer"@[2] != "--arena-mode"@[2]);
    assert("--read-offer"@[0] != "explain-card"@[0]);
    assert("--arena-mode"@[0] != "explain-card"@[0]);
    assert("import-heartharena"@[0] != "--firestone-format"@[0]);
    assert("inspect"@[0] != "--offer"@[0]);
    assert("analyze"@[0] != "--offer"@[0]);
    assert("--cards"@[2] != "--offer"@[2]);
    assert("inspect"@[0] != "logging"@[0]);
    assert("analyze"@[0] != "logging"@[0]);
    assert("--cards"@[0] != "logging"@[0]);
    assert("--offer"@[0] != "logging"@[0]);
    assert("--once"@[2] != "--help"@[2]);
    assert("--demo"@[2] != "--help"@[2]);
    assert("doctor"@[0] != "--help"@[0]);
    assert("--json"@[2] != "--help"@[2]);
    assert("--logs"@[2] != "--help"@[2]);
    assert("replay"@[0] != "--help"@[0]);
    assert("--inspect"@[2] != "--version"@[2]);
    assert("--ratings"@[2] != "--version"@[2]);
    assert("-h"@[1] != "-V"@[1]);
}

/// A word that stands alone sets its own option, and nothing else, and the rest is read on.
pub proof fn words_set_their_own_option(o: OptionsModel, args: Seq<Seq<char>>)
    requires
        args.len() > 0,
    ensures
        ({
            let s = o.switches;
            let then = |t: Switches| parsed(OptionsModel { switches: t, ..o }, args.skip(1));
            let word = args[0];
            let all = parsed(o, args);
            &&& word == "--once"@ ==> all == then(Switches { once: true, ..s })
            &&& word == "--demo"@ ==> all == then(Switches { demo: true, ..s })
            &&& word == "--inspect"@ ==> all == then(Switches { inspect: true, ..s })
            &&& word == "inspect"@ ==> all == then(Switches { inspect: true, ..s })
            &&& word == "--enable-logging"@ ==> all == then(Switches { enable_logging: true, ..s })
            &&& word == "--capture-status"@ ==> all == then(Switches { capture_status: true, ..s })
            &&& word == "--request-screen-recording"@ ==> all == then(Switches { request_screen_recording: true, ..s })
            &&& word == "--capture-window"@ ==> all == then(Switches { capture_window: true, ..s })
            &&& word == "--read-deck"@ ==> all == then(Switches { read_deck: true, ..s })
            &&& word == "--read-offer"@ ==> all == then(Switches { read_offer: true, ..s })
            &&& word == "doctor"@ ==> all == then(Switches { doctor: true, ..s })
            &&& word == "analyze"@ ==> all == then(Switches { analyze: true, ..s })
            &&& word == "--latest"@ ==> all == then(Switches { logging_latest_backup: true, ..s })
            &&& word == "--json"@ ==> all == then(Switches { json: true, ..s })
            &&& word == "import-heartharena"@ ==> all == then(Switches { import_heartharena: true, ..s })
            &&& word == "import-hsreplay"@ ==> all == then(Switches { import_hsreplay: true, ..s })
            &&& word == "import-firestone"@ ==> all == then(Switches { import_firestone: true, ..s })
            &&& word == "--help"@ || word == "-h"@ ==> all is Help
            &&& word == "--version"@ || word == "-V"@ ==> all is Version
        }),
{
    words_name_their_argument();
    reveal(with_switch);
}

/// A word that takes a path sets its own path, and nothing else, and asks for one where none
/// follows. A session to replay is a path to logs.
pub proof fn words_take_their_own_path(o: OptionsModel, args: Seq<Seq<char>>)
    requires
        args.len() > 1,
    ensures
        ({
            let s = o.settings;
            let then = |t: SettingsModel| parsed(OptionsModel { settings: t, ..o }, args.skip(2));
            let word = args[0];
            let all = parsed(o, args);
            let path = Some(args[1]);
            &&& word == "--logs"@ ==> all == then(SettingsModel { logs: path, ..s })
            &&& word == "--cards"@ ==> all == then(SettingsModel { cards: path, ..s })
            &&& word == "--arena-rules"@ ==> all == then(SettingsModel { arena_rules: path, ..s })
            &&& word == "--analysis-facts"@ ==> all == then(SettingsModel { analysis_facts: path, ..s })
            &&& word == "--backup"@ ==> all == then(SettingsModel { logging_backup: path, ..s })
            &&& word == "--draft-fingerprints"@ ==> all == then(SettingsModel { draft_fingerprints: path, ..s })
            &&& word == "--ratings"@ ==> all == then(SettingsModel { ratings: path, ..s })
            &&& word == "--output"@ ==> all == then(SettingsModel { ratings_output: path, ..s })
            &&& word == "replay"@ ==> all == parsed(
                OptionsModel {
                    settings: SettingsModel { logs: path, ..s },
                    switches: Switches { replay: true, ..o.switches },
                    ..o
                },
                args.skip(2),
            )
        }),
{
    words_name_their_argument();
    reveal(with_path);
}

/// A word that takes a value sets its own value, and nothing else; a blank value is none. Offers
/// are gathered in their order.
pub proof fn words_take_their_own_value(o: OptionsModel, args: Seq<Seq<char>>)
    requires
        args.len() > 1,
    ensures
        ({
            let s = o.settings;
            let then = |t: SettingsModel| parsed(OptionsModel { settings: t, ..o }, args.skip(2));
            let word = args[0];
            let all = parsed(o, args);
            let value = Some(args[1]);
            let missing = ParseEnd::Failed(OptionsFault::RequiresValue { flag: word });
            let named = word == "--arena-mode"@ || word == "explain-card"@ || word
                == "--firestone-format"@ || word == "--offer"@;
            &&& named && blank(args[1]) ==> all == missing
            &&& word == "--arena-mode"@ && !blank(args[1]) ==> all == then(
                SettingsModel { arena_mode: value, ..s },
            )
            &&& word == "explain-card"@ && !blank(args[1]) ==> all == then(
                SettingsModel { explain_card: value, ..s },
            )
            &&& word == "--firestone-format"@ && !blank(args[1]) ==> all == then(
                SettingsModel { firestone_format: value, ..s },
            )
            &&& word == "--offer"@ && !blank(args[1]) ==> all == parsed(
                OptionsModel { analysis_offers: o.analysis_offers.push(args[1]), ..o },
                args.skip(2),
            )
        }),
{
    words_name_their_argument();
    trimming_takes_white_space_only(args[1]);
    reveal(with_value);
}

/// A command on the logging configuration is one of three, and is given once.
pub proof fn logging_has_three_commands(o: OptionsModel, args: Seq<Seq<char>>)
    requires
        args.len() > 1,
        args[0] == "logging"@,
    ensures
        ({
            let all = parsed(o, args);
            let then = |c: LoggingCommand|
                parsed(OptionsModel { logging_command: Some(c), ..o }, args.skip(2));
            &&& o.logging_command is Some ==> all == ParseEnd::Failed(OptionsFault::LoggingTwice)
            &&& o.logging_command is None ==> {
                &&& args[1] == "inspect"@ ==> all == then(LoggingCommand::Inspect)
                &&& args[1] == "diff"@ ==> all == then(LoggingCommand::Diff)
                &&& args[1] == "restore"@ ==> all == then(LoggingCommand::Restore)
                &&& args[1] != "inspect"@ && args[1] != "diff"@ && args[1] != "restore"@ && !blank(
                    args[1],
                ) ==> all == ParseEnd::Failed(OptionsFault::UnknownLogging { command: args[1] })
            }
        }),
{
    words_name_their_argument();
    trimming_takes_white_space_only(args[1]);
    reveal_strlit("inspect");
    reveal_strlit("diff");
    reveal_strlit("restore");
    assert("inspect"@[0] == 'i' && "diff"@[0] == 'd' && "restore"@[0] == 'r');
    if args[1] == "inspect"@ || args[1] == "diff"@ || args[1] == "restore"@ {
        if blank(args[1]) {
            assert(crate::text::is_space(args[1][0]));
        }
    }
}

/// A word that is none of these is refused, and one that asks for a path or value needs it.
pub proof fn words_need_what_they_ask_for(o: OptionsModel, word: Seq<char>)
    ensures
        ({
            let all = parsed(o, seq![word]);
            &&& argument_of(word) is Unknown ==> all == ParseEnd::Failed(
                OptionsFault::UnknownArgument { argument: word },
            )
            &&& argument_of(word) is Path ==> all == ParseEnd::Failed(
                OptionsFault::RequiresPath { flag: word },
            )
            &&& argument_of(word) is Value ==> all == ParseEnd::Failed(
                OptionsFault::RequiresValue { flag: word },
            )
        }),
{
}

/// What stands beside an import is anything but the import itself, its output and format, the form
/// of reports, and what belongs to the logging configuration.
pub proof fn imports_stand_alone(o: OptionsModel)
    ensures
        !beside_import(o) <==> {
            &&& o.switches == (Switches {
                import_heartharena: o.switches.import_heartharena,
                import_hsreplay: o.switches.import_hsreplay,
                import_firestone: o.switches.import_firestone,
                json: o.switches.json,
                logging_latest_backup: o.switches.logging_latest_backup,
                ..no_switches()
            })
            &&& o.settings == (SettingsModel {
                ratings_output: o.settings.ratings_output,
                firestone_format: o.settings.firestone_format,
                logging_backup: o.settings.logging_backup,
                ..no_settings()
            })
            &&& o.analysis_offers.len() == 0
        },
{
}

/// What stands beside an analysis is anything but the analysis itself, the data it reads, the form
/// of reports, imports, and what belongs to the logging configuration.
pub proof fn analyses_stand_alone(o: OptionsModel)
    ensures
        !beside_analysis(o) <==> {
            &&& o.switches == (Switches {
                analyze: o.switches.analyze,
                import_heartharena: o.switches.import_heartharena,
                import_hsreplay: o.switches.import_hsreplay,
                import_firestone: o.switches.import_firestone,
                json: o.switches.json,
                logging_latest_backup: o.switches.logging_latest_backup,
                ..no_switches()
            })
            &&& o.settings.draft_fingerprints is None
            &&& o.settings.explain_card is None
        },
{
}

/// What stands beside a logging command is anything but the choice of a backup and the form of
/// reports.
pub proof fn logging_commands_stand_alone(o: OptionsModel)
    ensures
        !beside_logging(o) <==> {
            &&& o.switches == (Switches {
                json: o.switches.json,
                logging_latest_backup: o.switches.logging_latest_backup,
                ..no_switches()
            })
            &&& o.settings == (SettingsModel {
                logging_backup: o.settings.logging_backup,
                ..no_settings()
            })
            &&& o.analysis_offers.len() == 0
        },
{
}

/// The number of imports that are asked for.
pub open spec fn imports_asked_for(s: Switches) -> int {
    let one = |b: bool|
        if b {
            1int
        } else {
            0
        };
    one(s.import_firestone) + one(s.import_hsreplay) + one(s.import_heartharena)
}

/// Options go together exactly where there is at most one import, which stands alone; an output
/// comes with an import and a format with the one it is of, and is a known one; facts and offers
/// come with an analysis, which stands alone; and a choice of backup comes with a restore, which
/// has exactly one and stands alone like any logging command.
pub proof fn options_go_together(o: OptionsModel)
    ensures
        options_fault(o) is None <==> {
            let imports = imports_asked_for(o.switches);
            let chooses = (if o.settings.logging_backup is Some {
                1int
            } else {
                0
            }) + (if o.switches.logging_latest_backup {
                1int
            } else {
                0
            });
            &&& imports <= 1
            &&& o.settings.ratings_output is Some ==> imports == 1
            &&& o.settings.firestone_format matches Some(f) ==> o.switches.import_firestone && (f
                == "arena"@ || f == "arena-underground"@)
            &&& imports == 1 ==> !beside_import(o)
            &&& o.settings.analysis_facts is Some || o.analysis_offers.len() > 0 ==> o.switches.analyze
            &&& o.switches.analyze ==> !beside_analysis(o)
            &&& o.logging_command is Some ==> !beside_logging(o)
            &&& o.logging_command == Some(LoggingCommand::Restore) ==> chooses == 1
            &&& o.logging_command != Some(LoggingCommand::Restore) ==> chooses == 0
        },
        options_fault(o) == Some(OptionsFault::ManyImports) <==> imports_asked_for(o.switches) > 1,
        options_fault(o) == Some(OptionsFault::RestoreWithBothSelectors) ==> o.logging_command
            == Some(LoggingCommand::Restore) && o.settings.logging_backup is Some
            && o.switches.logging_latest_backup,
        options_fault(o) == Some(OptionsFault::RestoreWithoutSelector) ==> o.logging_command == Some(
            LoggingCommand::Restore,
        ) && o.settings.logging_backup is None && !o.switches.logging_latest_backup,
        options_fault(o) == Some(OptionsFault::OutputWithoutImport) ==> o.settings.ratings_output
            is Some && imports_asked_for(o.switches) == 0,
        options_fault(o) == Some(OptionsFault::FormatWithoutFirestone) ==> o.settings.firestone_format
            is Some && !o.switches.import_firestone,
        options_fault(o) == Some(OptionsFault::AnalysisWithoutAnalyze) ==> !o.switches.analyze,
        options_fault(o) == Some(OptionsFault::LoggingConflict) ==> o.logging_command is Some
            && beside_logging(o),
{
    reveal(options_fault);
    assert(import_count(o) == imports_asked_for(o.switches));
}

/// Capture is asked for by any of its switches, and stands alone.
pub proof fn captures_stand_alone(o: OptionsModel)
    ensures
        wants_capture(o) <==> o.switches.capture_status || o.switches.request_screen_recording
            || o.switches.capture_window || o.switches.read_deck || o.switches.read_offer,
        !beside_capture(o) <==> {
            &&& !o.switches.once
            &&& !o.switches.demo
            &&& !o.switches.inspect
            &&& !o.switches.enable_logging
            &&& o.settings.logs is None
            &&& o.settings.cards is None
            &&& o.settings.arena_rules is None
            &&& o.settings.arena_mode is None
            &&& o.settings.draft_fingerprints is None
            &&& o.settings.ratings is None
        },
{
}

/// What is done is what was asked for. An import comes first, then a command on the logging, a
/// diagnosis, an analysis, the explanation of a card and a replay; then a capture, then a look at
/// the logging or a change of it. Only where nothing of this was asked for is the overlay shown.
pub proof fn the_action_is_what_was_asked_for(o: OptionsModel, command: LoggingCommand)
    ensures
        ({
            let a = action_of(o);
            let w = o.switches;
            let imports = w.import_heartharena || w.import_hsreplay || w.import_firestone;
            let told = imports || o.logging_command is Some || w.doctor || w.analyze
                || o.settings.explain_card is Some || w.replay;
            let matches_cards = o.settings.draft_fingerprints is Some || o.settings.ratings is Some;
            let refused = !told && matches_cards && (w.demo || w.once);
            let free = !told && !refused && !wants_capture(o);
            &&& a == Ok::<Action, ActionError>(Action::ImportHearthArena) <==> w.import_heartharena
            &&& a == Ok::<Action, ActionError>(Action::ImportHsReplay) <==> w.import_hsreplay
                && !w.import_heartharena
            &&& a == Ok::<Action, ActionError>(Action::ImportFirestone) <==> w.import_firestone
                && !w.import_heartharena && !w.import_hsreplay
            &&& a == Ok::<Action, ActionError>(Action::Logging(command)) <==> !imports
                && o.logging_command == Some(command)
            &&& a == Ok::<Action, ActionError>(Action::Doctor) <==> w.doctor && !imports
                && o.logging_command is None
            &&& a == Ok::<Action, ActionError>(Action::Analyze) <==> w.analyze && !imports
                && o.logging_command is None && !w.doctor
            &&& a == Ok::<Action, ActionError>(Action::ExplainCard) <==> o.settings.explain_card is Some
                && !imports && o.logging_command is None && !w.doctor && !w.analyze
            &&& a == Ok::<Action, ActionError>(Action::Replay) <==> w.replay && !imports
                && o.logging_command is None && !w.doctor && !w.analyze && o.settings.explain_card
                is None
            &&& a == Err::<Action, ActionError>(ActionError::MatchingNeedsOverlay) <==> refused
            &&& a == Err::<Action, ActionError>(ActionError::CaptureConflict) <==> !told && !refused
                && wants_capture(o) && beside_capture(o)
            &&& a == Ok::<Action, ActionError>(Action::Capture) <==> !told && !refused
                && wants_capture(o) && !beside_capture(o)
            &&& a == Err::<Action, ActionError>(ActionError::InspectAndEnable) <==> free && w.inspect
                && w.enable_logging
            &&& a == Ok::<Action, ActionError>(Action::Inspect) <==> free && w.inspect
                && !w.enable_logging
            &&& a == Ok::<Action, ActionError>(Action::EnableLogging) <==> free && w.enable_logging
                && !w.inspect
            &&& free && !w.inspect && !w.enable_logging ==> a == Ok::<Action, ActionError>(
                if w.once {
                    Action::Once { demo: w.demo }
                } else {
                    Action::Overlay { demo: w.demo }
                },
            )
        }),
{
}

} // verus!
