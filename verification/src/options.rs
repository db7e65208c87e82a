//! The command line of the application: what it says, and what is done for it.
use crate::state::opt_text;
use crate::text::{self, texts, trimmed};
use vstd::prelude::*;

verus! {

/// What to do with the logging configuration.
#[derive(Clone, Copy, Debug, PartialEq, Eq, Structural)]
pub enum LoggingCommand {
    Inspect,
    Diff,
    Restore,
}

/// What the command line turns on.
#[derive(Clone, Copy, Debug, PartialEq, Eq, Structural)]
pub struct Switches {
    /// Print the overlay once.
    pub once: bool,
    /// Show the static demonstration.
    pub demo: bool,
    /// Print paths, rules and logging status.
    pub inspect: bool,
    /// Turn on the logs that are needed.
    pub enable_logging: bool,
    /// Print the state of screen capture.
    pub capture_status: bool,
    /// Ask for screen recording.
    pub request_screen_recording: bool,
    /// Capture the game window once.
    pub capture_window: bool,
    /// Read the deck off the screen once.
    pub read_deck: bool,
    /// Read the offer off the screen once.
    pub read_offer: bool,
    /// Import the HearthArena tier list.
    pub import_heartharena: bool,
    /// Import the HSReplay card statistics.
    pub import_hsreplay: bool,
    /// Import the Firestone card statistics.
    pub import_firestone: bool,
    /// Print the whole-system report.
    pub doctor: bool,
    /// Print the state of a whole session.
    pub replay: bool,
    /// Print the profile of the deck.
    pub analyze: bool,
    /// Print reports as JSON.
    pub json: bool,
    /// Restore the newest backup.
    pub logging_latest_backup: bool,
}

/// The paths and values of the command line.
#[derive(Debug, PartialEq, Eq)]
pub struct Settings {
    /// The session directory to read.
    pub logs: Option<String>,
    /// The card cache to read.
    pub cards: Option<String>,
    /// The rules manifest to read.
    pub arena_rules: Option<String>,
    /// The mode of the manifest.
    pub arena_mode: Option<String>,
    /// The fingerprint catalog for draft matching.
    pub draft_fingerprints: Option<String>,
    /// The rating file to read.
    pub ratings: Option<String>,
    /// The Firestone format.
    pub firestone_format: Option<String>,
    /// Where an import is written.
    pub ratings_output: Option<String>,
    /// The card to explain.
    pub explain_card: Option<String>,
    /// The semantic facts to read.
    pub analysis_facts: Option<String>,
    /// The backup to restore.
    pub logging_backup: Option<String>,
}

/// The paths and values of the command line, over texts.
pub struct SettingsModel {
    pub logs: Option<Seq<char>>,
    pub cards: Option<Seq<char>>,
    pub arena_rules: Option<Seq<char>>,
    pub arena_mode: Option<Seq<char>>,
    pub draft_fingerprints: Option<Seq<char>>,
    pub ratings: Option<Seq<char>>,
    pub firestone_format: Option<Seq<char>>,
    pub ratings_output: Option<Seq<char>>,
    pub explain_card: Option<Seq<char>>,
    pub analysis_facts: Option<Seq<char>>,
    pub logging_backup: Option<Seq<char>>,
}

impl View for Settings {
    type V = SettingsModel;

    open spec fn view(&self) -> SettingsModel {
        SettingsModel {
            logs: opt_text(self.logs),
            cards: opt_text(self.cards),
            arena_rules: opt_text(self.arena_rules),
            arena_mode: opt_text(self.arena_mode),
            draft_fingerprints: opt_text(self.draft_fingerprints),
            ratings: opt_text(self.ratings),
            firestone_format: opt_text(self.firestone_format),
            ratings_output: opt_text(self.ratings_output),
            explain_card: opt_text(self.explain_card),
            analysis_facts: opt_text(self.analysis_facts),
            logging_backup: opt_text(self.logging_backup),
        }
    }
}

/// What the command line asks for.
#[derive(Debug, PartialEq, Eq)]
pub struct Options {
    pub switches: Switches,
    pub settings: Settings,
    /// The offered cards to analyse.
    pub analysis_offers: Vec<String>,
    /// What to do with the logging configuration.
    pub logging_command: Option<LoggingCommand>,
}

/// What the command line asks for, over texts.
pub struct OptionsModel {
    pub switches: Switches,
    pub settings: SettingsModel,
    pub analysis_offers: Seq<Seq<char>>,
    pub logging_command: Option<LoggingCommand>,
}

impl View for Options {
    type V = OptionsModel;

    open spec fn view(&self) -> OptionsModel {
        OptionsModel {
            switches: self.switches,
            settings: self.settings@,
            analysis_offers: texts(self.analysis_offers@),
            logging_command: self.logging_command,
        }
    }
}

/// Nothing turned on.
pub open spec fn no_switches() -> Switches {
    Switches {
        once: false,
        demo: false,
        inspect: false,
        enable_logging: false,
        capture_status: false,
        request_screen_recording: false,
        capture_window: false,
        read_deck: false,
        read_offer: false,
        import_heartharena: false,
        import_hsreplay: false,
        import_firestone: false,
        doctor: false,
        replay: false,
        analyze: false,
        json: false,
        logging_latest_backup: false,
    }
}

/// No paths and no values.
pub open spec fn no_settings() -> SettingsModel {
    SettingsModel {
        logs: None,
        cards: None,
        arena_rules: None,
        arena_mode: None,
        draft_fingerprints: None,
        ratings: None,
        firestone_format: None,
        ratings_output: None,
        explain_card: None,
        analysis_facts: None,
        logging_backup: None,
    }
}

/// A command line that asks for nothing.
pub open spec fn no_options() -> OptionsModel {
    OptionsModel {
        switches: no_switches(),
        settings: no_settings(),
        analysis_offers: Seq::empty(),
        logging_command: None,
    }
}

impl Default for Options {
    fn default() -> (r: Self)
        ensures
            r@ == no_options(),
    {
        let r = Options {
            switches: Switches {
                once: false,
                demo: false,
                inspect: false,
                enable_logging: false,
                capture_status: false,
                request_screen_recording: false,
                capture_window: false,
                read_deck: false,
                read_offer: false,
                import_heartharena: false,
                import_hsreplay: false,
                import_firestone: false,
                doctor: false,
                replay: false,
                analyze: false,
                json: false,
                logging_latest_backup: false,
            },
            settings: Settings {
                logs: None,
                cards: None,
                arena_rules: None,
                arena_mode: None,
                draft_fingerprints: None,
                ratings: None,
                firestone_format: None,
                ratings_output: None,
                explain_card: None,
                analysis_facts: None,
                logging_backup: None,
            },
            analysis_offers: Vec::new(),
            logging_command: None,
        };
        assert(texts(r.analysis_offers@) =~= Seq::<Seq<char>>::empty());
        r
    }
}

/// An argument that turns something on.
#[derive(Clone, Copy, Debug, PartialEq, Eq, Structural)]
pub enum SwitchFlag {
    Once,
    Demo,
    Inspect,
    EnableLogging,
    CaptureStatus,
    RequestScreenRecording,
    CaptureWindow,
    ReadDeck,
    ReadOffer,
    Doctor,
    Analyze,
    Latest,
    Json,
    ImportHearthArena,
    ImportHsReplay,
    ImportFirestone,
}

/// An argument that a path follows.
#[derive(Clone, Copy, Debug, PartialEq, Eq, Structural)]
pub enum PathFlag {
    Logs,
    Cards,
    ArenaRules,
    Replay,
    AnalysisFacts,
    Backup,
    DraftFingerprints,
    Ratings,
    Output,
}

/// An argument that a value follows.
#[derive(Clone, Copy, Debug, PartialEq, Eq, Structural)]
pub enum ValueFlag {
    ArenaMode,
    ExplainCard,
    FirestoneFormat,
    Offer,
}

/// What an argument stands for.
#[derive(Clone, Copy, Debug, PartialEq, Eq, Structural)]
pub enum Argument {
    Switch(SwitchFlag),
    Path(PathFlag),
    Value(ValueFlag),
    Logging,
    Help,
    Version,
    Unknown,
}

/// What an argument stands for.
#[verifier::opaque]
pub open spec fn argument_of(s: Seq<char>) -> Argument {
    if s == "--once"@ {
        Argument::Switch(SwitchFlag::Once)
    } else if s == "--demo"@ {
        Argument::Switch(SwitchFlag::Demo)
    } else if s == "--inspect"@ {
        Argument::Switch(SwitchFlag::Inspect)
    } else if s == "--enable-logging"@ {
        Argument::Switch(SwitchFlag::EnableLogging)
    } else if s == "--capture-status"@ {
        Argument::Switch(SwitchFlag::CaptureStatus)
    } else if s == "--request-screen-recording"@ {
        Argument::Switch(SwitchFlag::RequestScreenRecording)
    } else if s == "--capture-window"@ {
        Argument::Switch(SwitchFlag::CaptureWindow)
    } else if s == "--read-deck"@ {
        Argument::Switch(SwitchFlag::ReadDeck)
    } else if s == "--read-offer"@ {
        Argument::Switch(SwitchFlag::ReadOffer)
    } else if s == "doctor"@ {
        Argument::Switch(SwitchFlag::Doctor)
    } else if s == "inspect"@ {
        Argument::Switch(SwitchFlag::Inspect)
    } else if s == "analyze"@ {
        Argument::Switch(SwitchFlag::Analyze)
    } else if s == "--latest"@ {
        Argument::Switch(SwitchFlag::Latest)
    } else if s == "--json"@ {
        Argument::Switch(SwitchFlag::Json)
    } else if s == "import-heartharena"@ {
        Argument::Switch(SwitchFlag::ImportHearthArena)
    } else if s == "import-hsreplay"@ {
        Argument::Switch(SwitchFlag::ImportHsReplay)
    } else if s == "import-firestone"@ {
        Argument::Switch(SwitchFlag::ImportFirestone)
    } else if s == "--logs"@ {
        Argument::Path(PathFlag::Logs)
    } else if s == "--cards"@ {
        Argument::Path(PathFlag::Cards)
    } else if s == "--arena-rules"@ {
        Argument::Path(PathFlag::ArenaRules)
    } else if s == "replay"@ {
        Argument::Path(PathFlag::Replay)
    } else if s == "--analysis-facts"@ {
        Argument::Path(PathFlag::AnalysisFacts)
    } else if s == "--backup"@ {
        Argument::Path(PathFlag::Backup)
    } else if s == "--draft-fingerprints"@ {
        Argument::Path(PathFlag::DraftFingerprints)
    } else if s == "--ratings"@ {
        Argument::Path(PathFlag::Ratings)
    } else if s == "--output"@ {
        Argument::Path(PathFlag::Output)
    } else if s == "--arena-mode"@ {
        Argument::Value(ValueFlag::ArenaMode)
    } else if s == "explain-card"@ {
        Argument::Value(ValueFlag::ExplainCard)
    } else if s == "--firestone-format"@ {
        Argument::Value(ValueFlag::FirestoneFormat)
    } else if s == "--offer"@ {
        Argument::Value(ValueFlag::Offer)
    } else if s == "logging"@ {
        Argument::Logging
    } else if s == "--help"@ {
        Argument::Help
    } else if s == "-h"@ {
        Argument::Help
    } else if s == "--version"@ {
        Argument::Version
    } else if s == "-V"@ {
        Argument::Version
    } else {
        Argument::Unknown
    }
}

/// Tells what an argument stands for.
#[verifier::rlimit(40)]
pub fn classify_argument(s: &str) -> (r: Argument)
    ensures
        r == argument_of(s@),
{
    proof {
        reveal(argument_of);
    }
    if text::str_eq(s, "--once") {
        Argument::Switch(SwitchFlag::Once)
    } else if text::str_eq(s, "--demo") {
        Argument::Switch(SwitchFlag::Demo)
    } else if text::str_eq(s, "--inspect") {
        Argument::Switch(SwitchFlag::Inspect)
    } else if text::str_eq(s, "--enable-logging") {
        Argument::Switch(SwitchFlag::EnableLogging)
    } else if text::str_eq(s, "--capture-status") {
        Argument::Switch(SwitchFlag::CaptureStatus)
    } else if text::str_eq(s, "--request-screen-recording") {
        Argument::Switch(SwitchFlag::RequestScreenRecording)
    } else if text::str_eq(s, "--capture-window") {
        Argument::Switch(SwitchFlag::CaptureWindow)
    } else if text::str_eq(s, "--read-deck") {
        Argument::Switch(SwitchFlag::ReadDeck)
    } else if text::str_eq(s, "--read-offer") {
        Argument::Switch(SwitchFlag::ReadOffer)
    } else if text::str_eq(s, "doctor") {
        Argument::Switch(SwitchFlag::Doctor)
    } else if text::str_eq(s, "inspect") {
        Argument::Switch(SwitchFlag::Inspect)
    } else if text::str_eq(s, "analyze") {
        Argument::Switch(SwitchFlag::Analyze)
    } else if text::str_eq(s, "--latest") {
        Argument::Switch(SwitchFlag::Latest)
    } else if text::str_eq(s, "--json") {
        Argument::Switch(SwitchFlag::Json)
    } else if text::str_eq(s, "import-heartharena") {
        Argument::Switch(SwitchFlag::ImportHearthArena)
    } else if text::str_eq(s, "import-hsreplay") {
        Argument::Switch(SwitchFlag::ImportHsReplay)
    } else if text::str_eq(s, "import-firestone") {
        Argument::Switch(SwitchFlag::ImportFirestone)
    } else if text::str_eq(s, "--logs") {
        Argument::Path(PathFlag::Logs)
    } else if text::str_eq(s, "--cards") {
        Argument::Path(PathFlag::Cards)
    } else if text::str_eq(s, "--arena-rules") {
        Argument::Path(PathFlag::ArenaRules)
    } else if text::str_eq(s, "replay") {
        Argument::Path(PathFlag::Replay)
    } else if text::str_eq(s, "--analysis-facts") {
        Argument::Path(PathFlag::AnalysisFacts)
    } else if text::str_eq(s, "--backup") {
        Argument::Path(PathFlag::Backup)
    } else if text::str_eq(s, "--draft-fingerprints") {
        Argument::Path(PathFlag::DraftFingerprints)
    } else if text::str_eq(s, "--ratings") {
        Argument::Path(PathFlag::Ratings)
    } else if text::str_eq(s, "--output") {
        Argument::Path(PathFlag::Output)
    } else if text::str_eq(s, "--arena-mode") {
        Argument::Value(ValueFlag::ArenaMode)
    } else if text::str_eq(s, "explain-card") {
        Argument::Value(ValueFlag::ExplainCard)
    } else if text::str_eq(s, "--firestone-format") {
        Argument::Value(ValueFlag::FirestoneFormat)
    } else if text::str_eq(s, "--offer") {
        Argument::Value(ValueFlag::Offer)
    } else if text::str_eq(s, "logging") {
        Argument::Logging
    } else if text::str_eq(s, "--help") {
        Argument::Help
    } else if text::str_eq(s, "-h") {
        Argument::Help
    } else if text::str_eq(s, "--version") {
        Argument::Version
    } else if text::str_eq(s, "-V") {
        Argument::Version
    } else {
        Argument::Unknown
    }
}

/// The switches with something turned on.
#[verifier::opaque]
pub open spec fn with_switch(o: Switches, flag: SwitchFlag) -> Switches {
    match flag {
        SwitchFlag::Once => Switches { once: true, ..o },
        SwitchFlag::Demo => Switches { demo: true, ..o },
        SwitchFlag::Inspect => Switches { inspect: true, ..o },
        SwitchFlag::EnableLogging => Switches { enable_logging: true, ..o },
        SwitchFlag::CaptureStatus => Switches { capture_status: true, ..o },
        SwitchFlag::RequestScreenRecording => Switches { request_screen_recording: true, ..o },
        SwitchFlag::CaptureWindow => Switches { capture_window: true, ..o },
        SwitchFlag::ReadDeck => Switches { read_deck: true, ..o },
        SwitchFlag::ReadOffer => Switches { read_offer: true, ..o },
        SwitchFlag::Doctor => Switches { doctor: true, ..o },
        SwitchFlag::Analyze => Switches { analyze: true, ..o },
        SwitchFlag::Latest => Switches { logging_latest_backup: true, ..o },
        SwitchFlag::Json => Switches { json: true, ..o },
        SwitchFlag::ImportHearthArena => Switches { import_heartharena: true, ..o },
        SwitchFlag::ImportHsReplay => Switches { import_hsreplay: true, ..o },
        SwitchFlag::ImportFirestone => Switches { import_firestone: true, ..o },
    }
}

/// The options with a path.
#[verifier::opaque]
pub open spec fn with_path(o: OptionsModel, flag: PathFlag, path: Seq<char>) -> OptionsModel {
    let settings = match flag {
        PathFlag::Logs => SettingsModel { logs: Some(path), ..o.settings },
        PathFlag::Cards => SettingsModel { cards: Some(path), ..o.settings },
        PathFlag::ArenaRules => SettingsModel { arena_rules: Some(path), ..o.settings },
        PathFlag::Replay => SettingsModel { logs: Some(path), ..o.settings },
        PathFlag::AnalysisFacts => SettingsModel { analysis_facts: Some(path), ..o.settings },
        PathFlag::Backup => SettingsModel { logging_backup: Some(path), ..o.settings },
        PathFlag::DraftFingerprints => SettingsModel { draft_fingerprints: Some(path), ..o.settings },
        PathFlag::Ratings => SettingsModel { ratings: Some(path), ..o.settings },
        PathFlag::Output => SettingsModel { ratings_output: Some(path), ..o.settings },
    };
    OptionsModel {
        settings,
        switches: if flag == PathFlag::Replay {
            Switches { replay: true, ..o.switches }
        } else {
            o.switches
        },
        ..o
    }
}

/// The options with a value.
#[verifier::opaque]
pub open spec fn with_value(o: OptionsModel, flag: ValueFlag, value: Seq<char>) -> OptionsModel {
    match flag {
        ValueFlag::ArenaMode => OptionsModel {
            settings: SettingsModel { arena_mode: Some(value), ..o.settings },
            ..o
        },
        ValueFlag::ExplainCard => OptionsModel {
            settings: SettingsModel { explain_card: Some(value), ..o.settings },
            ..o
        },
        ValueFlag::FirestoneFormat => OptionsModel {
            settings: SettingsModel { firestone_format: Some(value), ..o.settings },
            ..o
        },
        ValueFlag::Offer => OptionsModel { analysis_offers: o.analysis_offers.push(value), ..o },
    }
}

impl Switches {
    fn turned_on(self, flag: SwitchFlag) -> (r: Switches)
        ensures
            r == with_switch(self, flag),
    {
        proof {
            reveal(with_switch);
        }
        match flag {
            SwitchFlag::Once => Switches { once: true, ..self },
            SwitchFlag::Demo => Switches { demo: true, ..self },
            SwitchFlag::Inspect => Switches { inspect: true, ..self },
            SwitchFlag::EnableLogging => Switches { enable_logging: true, ..self },
            SwitchFlag::CaptureStatus => Switches { capture_status: true, ..self },
            SwitchFlag::RequestScreenRecording => Switches { request_screen_recording: true, ..self },
            SwitchFlag::CaptureWindow => Switches { capture_window: true, ..self },
            SwitchFlag::ReadDeck => Switches { read_deck: true, ..self },
            SwitchFlag::ReadOffer => Switches { read_offer: true, ..self },
            SwitchFlag::Doctor => Switches { doctor: true, ..self },
            SwitchFlag::Analyze => Switches { analyze: true, ..self },
            SwitchFlag::Latest => Switches { logging_latest_backup: true, ..self },
            SwitchFlag::Json => Switches { json: true, ..self },
            SwitchFlag::ImportHearthArena => Switches { import_heartharena: true, ..self },
            SwitchFlag::ImportHsReplay => Switches { import_hsreplay: true, ..self },
            SwitchFlag::ImportFirestone => Switches { import_firestone: true, ..self },
        }
    }
}

impl Settings {
    fn set_path(&mut self, flag: PathFlag, path: String)
        ensures
            final(self)@ == with_path(
                OptionsModel {
                    switches: no_switches(),
                    settings: old(self)@,
                    analysis_offers: Seq::empty(),
                    logging_command: None,
                },
                flag,
                path@,
            ).settings,
    {
        proof {
            reveal(with_path);
        }
        match flag {
            PathFlag::Logs => {
                self.logs = Some(path);
            },
            PathFlag::Cards => {
                self.cards = Some(path);
            },
            PathFlag::ArenaRules => {
                self.arena_rules = Some(path);
            },
            PathFlag::Replay => {
                self.logs = Some(path);
            },
            PathFlag::AnalysisFacts => {
                self.analysis_facts = Some(path);
            },
            PathFlag::Backup => {
                self.logging_backup = Some(path);
            },
            PathFlag::DraftFingerprints => {
                self.draft_fingerprints = Some(path);
            },
            PathFlag::Ratings => {
                self.ratings = Some(path);
            },
            PathFlag::Output => {
                self.ratings_output = Some(path);
            },
        }
    }
}

impl Settings {
    fn set_value(&mut self, flag: ValueFlag, value: String)
        ensures
            final(self)@ == with_value(
                OptionsModel {
                    switches: no_switches(),
                    settings: old(self)@,
                    analysis_offers: Seq::empty(),
                    logging_command: None,
                },
                flag,
                value@,
            ).settings,
    {
        proof {
            reveal(with_value);
        }
        match flag {
            ValueFlag::ArenaMode => {
                self.arena_mode = Some(value);
            },
            ValueFlag::ExplainCard => {
                self.explain_card = Some(value);
            },
            ValueFlag::FirestoneFormat => {
                self.firestone_format = Some(value);
            },
            ValueFlag::Offer => {},
        }
    }
}

fn push_text(all: &mut Vec<String>, text: String)
    ensures
        texts(final(all)@) == texts(old(all)@).push(text@),
{
    all.push(text);
    assert(texts(all@) =~= texts(old(all)@).push(text@));
}

impl Options {
    fn set_path(&mut self, flag: PathFlag, path: String)
        ensures
            final(self)@ == with_path(old(self)@, flag, path@),
    {
        proof {
            reveal(with_path);
        }
        if flag == PathFlag::Replay {
            self.switches.replay = true;
        }
        self.settings.set_path(flag, path);
    }

    fn add_offer(&mut self, offer: String)
        ensures
            final(self)@ == with_value(old(self)@, ValueFlag::Offer, offer@),
    {
        let ghost offers = texts(self.analysis_offers@).push(offer@);
        push_text(&mut self.analysis_offers, offer);
        proof {
            reveal(with_value);
            assert(texts(self.analysis_offers@) == offers);
            assert(self@ == OptionsModel { analysis_offers: offers, ..old(self)@ });
        }
    }

    fn set_value(&mut self, flag: ValueFlag, value: String)
        ensures
            final(self)@ == with_value(old(self)@, flag, value@),
    {
        if flag == ValueFlag::Offer {
            self.add_offer(value);
        } else {
            let ghost settings = with_value(
                OptionsModel {
                    switches: no_switches(),
                    settings: self.settings@,
                    analysis_offers: Seq::empty(),
                    logging_command: None,
                },
                flag,
                value@,
            ).settings;
            assert(with_value(self@, flag, value@) == OptionsModel { settings, ..self@ }) by {
                reveal(with_value);
            }
            self.settings.set_value(flag, value);
        }
    }
}

/// What is wrong with a command line.
#[derive(Debug, PartialEq, Eq)]
pub enum OptionsError {
    RequiresPath { flag: String },
    RequiresValue { flag: String },
    LoggingTwice,
    UnknownLogging { command: String },
    UnknownArgument { argument: String },
    ManyImports,
    OutputWithoutImport,
    FormatWithoutFirestone,
    UnknownFormat { format: String },
    ImportConflict,
    AnalysisWithoutAnalyze,
    AnalyzeConflict,
    BackupWithoutRestore,
    LoggingConflict,
    RestoreWithoutSelector,
    RestoreWithBothSelectors,
}

/// What is wrong with a command line, over texts.
pub enum OptionsFault {
    RequiresPath { flag: Seq<char> },
    RequiresValue { flag: Seq<char> },
    LoggingTwice,
    UnknownLogging { command: Seq<char> },
    UnknownArgument { argument: Seq<char> },
    ManyImports,
    OutputWithoutImport,
    FormatWithoutFirestone,
    UnknownFormat { format: Seq<char> },
    ImportConflict,
    AnalysisWithoutAnalyze,
    AnalyzeConflict,
    BackupWithoutRestore,
    LoggingConflict,
    RestoreWithoutSelector,
    RestoreWithBothSelectors,
}

impl View for OptionsError {
    type V = OptionsFault;

    open spec fn view(&self) -> OptionsFault {
        match *self {
            OptionsError::RequiresPath { flag } => OptionsFault::RequiresPath { flag: flag@ },
            OptionsError::RequiresValue { flag } => OptionsFault::RequiresValue { flag: flag@ },
            OptionsError::LoggingTwice => OptionsFault::LoggingTwice,
            OptionsError::UnknownLogging { command } => OptionsFault::UnknownLogging {
                command: command@,
            },
            OptionsError::UnknownArgument { argument } => OptionsFault::UnknownArgument {
                argument: argument@,
            },
            OptionsError::ManyImports => OptionsFault::ManyImports,
            OptionsError::OutputWithoutImport => OptionsFault::OutputWithoutImport,
            OptionsError::FormatWithoutFirestone => OptionsFault::FormatWithoutFirestone,
            OptionsError::UnknownFormat { format } => OptionsFault::UnknownFormat {
                format: format@,
            },
            OptionsError::ImportConflict => OptionsFault::ImportConflict,
            OptionsError::AnalysisWithoutAnalyze => OptionsFault::AnalysisWithoutAnalyze,
            OptionsError::AnalyzeConflict => OptionsFault::AnalyzeConflict,
            OptionsError::BackupWithoutRestore => OptionsFault::BackupWithoutRestore,
            OptionsError::LoggingConflict => OptionsFault::LoggingConflict,
            OptionsError::RestoreWithoutSelector => OptionsFault::RestoreWithoutSelector,
            OptionsError::RestoreWithBothSelectors => OptionsFault::RestoreWithBothSelectors,
        }
    }
}

/// Whether something is asked for that does not go with an import.
pub open spec fn beside_import(o: OptionsModel) -> bool {
    o.settings.logs is Some || o.settings.cards is Some || o.settings.arena_rules is Some || o.settings.arena_mode is Some || o.switches.once || o.switches.demo || o.switches.inspect || o.switches.enable_logging || o.switches.capture_status || o.switches.request_screen_recording || o.switches.capture_window || o.switches.read_deck || o.switches.read_offer || o.settings.draft_fingerprints is Some || o.settings.ratings is Some || o.switches.doctor || o.switches.replay || o.settings.explain_card is Some || o.switches.analyze || o.settings.analysis_facts is Some || o.analysis_offers.len() > 0
}

/// Whether something is asked for that does not go with an analysis.
pub open spec fn beside_analysis(o: OptionsModel) -> bool {
    o.switches.once || o.switches.demo || o.switches.inspect || o.switches.enable_logging || o.switches.capture_status || o.switches.request_screen_recording || o.switches.capture_window || o.switches.read_deck || o.switches.read_offer || o.settings.draft_fingerprints is Some || o.switches.doctor || o.switches.replay || o.settings.explain_card is Some
}

/// Whether something is asked for beside a logging command.
pub open spec fn beside_logging(o: OptionsModel) -> bool {
    o.settings.logs is Some || o.settings.cards is Some || o.settings.arena_rules is Some || o.settings.arena_mode is Some || o.switches.once || o.switches.demo || o.switches.inspect || o.switches.enable_logging || o.switches.capture_status || o.switches.request_screen_recording || o.switches.capture_window || o.switches.read_deck || o.switches.read_offer || o.settings.draft_fingerprints is Some || o.settings.ratings is Some || o.switches.import_heartharena || o.switches.import_hsreplay || o.switches.import_firestone || o.settings.firestone_format is Some || o.settings.ratings_output is Some || o.switches.doctor || o.switches.replay || o.settings.explain_card is Some || o.switches.analyze || o.settings.analysis_facts is Some || o.analysis_offers.len() > 0
}

/// Whether a capture is asked for.
pub open spec fn wants_capture(o: OptionsModel) -> bool {
    o.switches.capture_status || o.switches.request_screen_recording || o.switches.capture_window || o.switches.read_deck || o.switches.read_offer
}

/// Whether something is asked for that does not go with a capture.
pub open spec fn beside_capture(o: OptionsModel) -> bool {
    o.switches.inspect || o.switches.enable_logging || o.switches.once || o.switches.demo || o.settings.logs is Some || o.settings.cards is Some || o.settings.arena_rules is Some || o.settings.arena_mode is Some || o.settings.draft_fingerprints is Some || o.settings.ratings is Some
}

/// The number of imports that are asked for.
pub open spec fn import_count(o: OptionsModel) -> int {
    (if o.switches.import_heartharena {
        1int
    } else {
        0
    }) + (if o.switches.import_hsreplay {
        1int
    } else {
        0
    }) + (if o.switches.import_firestone {
        1int
    } else {
        0
    })
}

/// What is wrong with the combination of options, first of all.
#[verifier::opaque]
pub open spec fn options_fault(o: OptionsModel) -> Option<OptionsFault> {
    if import_count(o) > 1 {
        Some(OptionsFault::ManyImports)
    } else if o.settings.ratings_output is Some && import_count(o) == 0 {
        Some(OptionsFault::OutputWithoutImport)
    } else if o.settings.firestone_format is Some && !o.switches.import_firestone {
        Some(OptionsFault::FormatWithoutFirestone)
    } else if o.settings.firestone_format matches Some(f) && f != "arena"@ && f != "arena-underground"@ {
        Some(OptionsFault::UnknownFormat { format: o.settings.firestone_format->0 })
    } else if import_count(o) > 0 && beside_import(o) {
        Some(OptionsFault::ImportConflict)
    } else if (o.settings.analysis_facts is Some || o.analysis_offers.len() > 0) && !o.switches.analyze {
        Some(OptionsFault::AnalysisWithoutAnalyze)
    } else if o.switches.analyze && beside_analysis(o) {
        Some(OptionsFault::AnalyzeConflict)
    } else {
        match o.logging_command {
            None => if o.settings.logging_backup is Some || o.switches.logging_latest_backup {
                Some(OptionsFault::BackupWithoutRestore)
            } else {
                None
            },
            Some(command) => if beside_logging(o) {
                Some(OptionsFault::LoggingConflict)
            } else if command == LoggingCommand::Restore {
                if o.settings.logging_backup is Some && o.switches.logging_latest_backup {
                    Some(OptionsFault::RestoreWithBothSelectors)
                } else if o.settings.logging_backup is None && !o.switches.logging_latest_backup {
                    Some(OptionsFault::RestoreWithoutSelector)
                } else {
                    None
                }
            } else if o.settings.logging_backup is Some || o.switches.logging_latest_backup {
                Some(OptionsFault::BackupWithoutRestore)
            } else {
                None
            },
        }
    }
}

impl Options {
    fn has_beside_import(&self) -> (r: bool)
        ensures
            r == beside_import(self@),
    {
        self.settings.logs.is_some() || self.settings.cards.is_some() || self.settings.arena_rules.is_some() || self.settings.arena_mode.is_some() || self.switches.once || self.switches.demo || self.switches.inspect || self.switches.enable_logging || self.switches.capture_status || self.switches.request_screen_recording || self.switches.capture_window || self.switches.read_deck || self.switches.read_offer || self.settings.draft_fingerprints.is_some() || self.settings.ratings.is_some() || self.switches.doctor || self.switches.replay || self.settings.explain_card.is_some() || self.switches.analyze || self.settings.analysis_facts.is_some() || self.analysis_offers.len() > 0
    }

    fn has_beside_analysis(&self) -> (r: bool)
        ensures
            r == beside_analysis(self@),
    {
        self.switches.once || self.switches.demo || self.switches.inspect || self.switches.enable_logging || self.switches.capture_status || self.switches.request_screen_recording || self.switches.capture_window || self.switches.read_deck || self.switches.read_offer || self.settings.draft_fingerprints.is_some() || self.switches.doctor || self.switches.replay || self.settings.explain_card.is_some()
    }

    fn has_beside_logging(&self) -> (r: bool)
        ensures
            r == beside_logging(self@),
    {
        self.settings.logs.is_some() || self.settings.cards.is_some() || self.settings.arena_rules.is_some() || self.settings.arena_mode.is_some() || self.switches.once || self.switches.demo || self.switches.inspect || self.switches.enable_logging || self.switches.capture_status || self.switches.request_screen_recording || self.switches.capture_window || self.switches.read_deck || self.switches.read_offer || self.settings.draft_fingerprints.is_some() || self.settings.ratings.is_some() || self.switches.import_heartharena || self.switches.import_hsreplay || self.switches.import_firestone || self.settings.firestone_format.is_some() || self.settings.ratings_output.is_some() || self.switches.doctor || self.switches.replay || self.settings.explain_card.is_some() || self.switches.analyze || self.settings.analysis_facts.is_some() || self.analysis_offers.len() > 0
    }

    fn has_capture_request(&self) -> (r: bool)
        ensures
            r == wants_capture(self@),
    {
        self.switches.capture_status || self.switches.request_screen_recording || self.switches.capture_window || self.switches.read_deck || self.switches.read_offer
    }

    fn has_beside_capture(&self) -> (r: bool)
        ensures
            r == beside_capture(self@),
    {
        self.switches.inspect || self.switches.enable_logging || self.switches.once || self.switches.demo || self.settings.logs.is_some() || self.settings.cards.is_some() || self.settings.arena_rules.is_some() || self.settings.arena_mode.is_some() || self.settings.draft_fingerprints.is_some() || self.settings.ratings.is_some()
    }

    /// Asks that the options can be combined.
    pub fn validate(&self) -> (r: Result<(), OptionsError>)
        ensures
            match r {
                Ok(_) => options_fault(self@) is None,
                Err(e) => options_fault(self@) == Some(e@),
            },
    {
        proof {
            reveal(options_fault);
        }
        let mut imports: u8 = 0;
        if self.switches.import_heartharena {
            imports = imports + 1;
        }
        if self.switches.import_hsreplay {
            imports = imports + 1;
        }
        if self.switches.import_firestone {
            imports = imports + 1;
        }
        if imports > 1 {
            return Err(OptionsError::ManyImports);
        }
        if self.settings.ratings_output.is_some() && imports == 0 {
            return Err(OptionsError::OutputWithoutImport);
        }
        if self.settings.firestone_format.is_some() && !self.switches.import_firestone {
            return Err(OptionsError::FormatWithoutFirestone);
        }
        if let Some(format) = &self.settings.firestone_format {
            if !text::str_eq(format.as_str(), "arena") && !text::str_eq(
                format.as_str(),
                "arena-underground",
            ) {
                return Err(OptionsError::UnknownFormat { format: format.clone() });
            }
        }
        if imports > 0 && self.has_beside_import() {
            return Err(OptionsError::ImportConflict);
        }
        if (self.settings.analysis_facts.is_some() || self.analysis_offers.len() > 0) && !self.switches.analyze {
            return Err(OptionsError::AnalysisWithoutAnalyze);
        }
        if self.switches.analyze && self.has_beside_analysis() {
            return Err(OptionsError::AnalyzeConflict);
        }
        let backup = self.settings.logging_backup.is_some();
        let latest = self.switches.logging_latest_backup;
        let command = match self.logging_command {
            None => {
                if backup || latest {
                    return Err(OptionsError::BackupWithoutRestore);
                }
                return Ok(());
            },
            Some(command) => command,
        };
        if self.has_beside_logging() {
            return Err(OptionsError::LoggingConflict);
        }
        match command {
            LoggingCommand::Restore => {
                if backup && latest {
                    Err(OptionsError::RestoreWithBothSelectors)
                } else if !backup && !latest {
                    Err(OptionsError::RestoreWithoutSelector)
                } else {
                    Ok(())
                }
            },
            LoggingCommand::Inspect | LoggingCommand::Diff => {
                if backup || latest {
                    Err(OptionsError::BackupWithoutRestore)
                } else {
                    Ok(())
                }
            },
        }
    }
}

/// What a logging command names.
pub open spec fn logging_of(s: Seq<char>) -> Option<LoggingCommand> {
    if s == "inspect"@ {
        Some(LoggingCommand::Inspect)
    } else if s == "diff"@ {
        Some(LoggingCommand::Diff)
    } else if s == "restore"@ {
        Some(LoggingCommand::Restore)
    } else {
        None
    }
}

/// What a command line comes to.
pub enum ParseEnd {
    Options(OptionsModel),
    Help,
    Version,
    Failed(OptionsFault),
}

/// What the rest of a command line comes to.
pub open spec fn parsed(o: OptionsModel, args: Seq<Seq<char>>) -> ParseEnd
    decreases args.len(),
{
    if args.len() == 0 {
        match options_fault(o) {
            Some(e) => ParseEnd::Failed(e),
            None => ParseEnd::Options(o),
        }
    } else {
        let no_value = args.len() < 2 || trimmed(args[1]).len() == 0;
        match argument_of(args[0]) {
            Argument::Switch(flag) => parsed(
                OptionsModel { switches: with_switch(o.switches, flag), ..o },
                args.skip(1),
            ),
            Argument::Path(flag) => if args.len() < 2 {
                ParseEnd::Failed(OptionsFault::RequiresPath { flag: args[0] })
            } else {
                parsed(with_path(o, flag, args[1]), args.skip(2))
            },
            Argument::Value(flag) => if no_value {
                ParseEnd::Failed(OptionsFault::RequiresValue { flag: args[0] })
            } else {
                parsed(with_value(o, flag, args[1]), args.skip(2))
            },
            Argument::Logging => if o.logging_command is Some {
                ParseEnd::Failed(OptionsFault::LoggingTwice)
            } else if no_value {
                ParseEnd::Failed(OptionsFault::RequiresValue { flag: args[0] })
            } else {
                match logging_of(args[1]) {
                    Some(command) => parsed(
                        OptionsModel { logging_command: Some(command), ..o },
                        args.skip(2),
                    ),
                    None => ParseEnd::Failed(OptionsFault::UnknownLogging { command: args[1] }),
                }
            },
            Argument::Help => ParseEnd::Help,
            Argument::Version => ParseEnd::Version,
            Argument::Unknown => ParseEnd::Failed(
                OptionsFault::UnknownArgument { argument: args[0] },
            ),
        }
    }
}

/// What a command line comes to.
#[derive(Debug, PartialEq, Eq)]
pub enum ParseOutcome {
    Options(Options),
    Help,
    Version,
    Failed(OptionsError),
}

impl View for ParseOutcome {
    type V = ParseEnd;

    open spec fn view(&self) -> ParseEnd {
        match *self {
            ParseOutcome::Options(o) => ParseEnd::Options(o@),
            ParseOutcome::Help => ParseEnd::Help,
            ParseOutcome::Version => ParseEnd::Version,
            ParseOutcome::Failed(e) => ParseEnd::Failed(e@),
        }
    }
}

fn value_after(args: &Vec<String>, i: usize) -> (r: Option<String>)
    requires
        i < args.len(),
    ensures
        match r {
            Some(v) => i + 1 < args.len() && v@ == args@[i + 1]@ && trimmed(v@).len() > 0,
            None => i + 1 >= args.len() || trimmed(args@[i + 1]@).len() == 0,
        },
{
    if args.len() - i < 2 {
        return None;
    }
    let trimmed_value = text::trim(args[i + 1].as_str());
    if trimmed_value.as_str().is_empty() {
        return None;
    }
    Some(args[i + 1].clone())
}

impl Options {
    /// Reads a command line, without the name of the program.
    pub fn parse_from(args: &Vec<String>) -> (r: ParseOutcome)
        ensures
            r@ == parsed(no_options(), texts(args@)),
    {
        let ghost all = texts(args@);
        let mut o = Options::default();
        let mut i: usize = 0;
        assert(all.skip(0) =~= all);
        while i < args.len()
            invariant
                i <= args.len(),
                all == texts(args@),
                parsed(no_options(), all) == parsed(o@, all.skip(i as int)),
            decreases args.len() - i,
        {
            let ghost rest = all.skip(i as int);
            proof {
                assert(rest[0] == args@[i as int]@);
                assert(rest.skip(1) =~= all.skip(i + 1));
                if i + 1 < args.len() {
                    assert(rest[1] == args@[i + 1]@);
                    assert(rest.skip(2) =~= all.skip(i + 2));
                }
            }
            match classify_argument(args[i].as_str()) {
                Argument::Switch(flag) => {
                    o.switches = o.switches.turned_on(flag);
                    i = i + 1;
                },
                Argument::Path(flag) => {
                    if args.len() - i < 2 {
                        return ParseOutcome::Failed(
                            OptionsError::RequiresPath { flag: args[i].clone() },
                        );
                    }
                    o.set_path(flag, args[i + 1].clone());
                    i = i + 2;
                },
                Argument::Value(flag) => {
                    match value_after(args, i) {
                        None => return ParseOutcome::Failed(
                            OptionsError::RequiresValue { flag: args[i].clone() },
                        ),
                        Some(value) => o.set_value(flag, value),
                    }
                    i = i + 2;
                },
                Argument::Logging => {
                    if o.logging_command.is_some() {
                        return ParseOutcome::Failed(OptionsError::LoggingTwice);
                    }
                    let command = match value_after(args, i) {
                        None => return ParseOutcome::Failed(
                            OptionsError::RequiresValue { flag: args[i].clone() },
                        ),
                        Some(value) => value,
                    };
                    let named = if text::str_eq(command.as_str(), "inspect") {
                        LoggingCommand::Inspect
                    } else if text::str_eq(command.as_str(), "diff") {
                        LoggingCommand::Diff
                    } else if text::str_eq(command.as_str(), "restore") {
                        LoggingCommand::Restore
                    } else {
                        return ParseOutcome::Failed(OptionsError::UnknownLogging { command });
                    };
                    let ghost before = o@;
                    o.logging_command = Some(named);
                    assert(o@ == (OptionsModel { logging_command: Some(named), ..before }));
                    i = i + 2;
                },
                Argument::Help => return ParseOutcome::Help,
                Argument::Version => return ParseOutcome::Version,
                Argument::Unknown => return ParseOutcome::Failed(
                    OptionsError::UnknownArgument { argument: args[i].clone() },
                ),
            }
        }
        assert(all.skip(i as int) =~= Seq::<Seq<char>>::empty());
        match o.validate() {
            Ok(_) => ParseOutcome::Options(o),
            Err(e) => ParseOutcome::Failed(e),
        }
    }
}

/// What is done for a command line.
#[derive(Clone, Copy, Debug, PartialEq, Eq, Structural)]
pub enum Action {
    ImportHearthArena,
    ImportHsReplay,
    ImportFirestone,
    Logging(LoggingCommand),
    Doctor,
    Analyze,
    ExplainCard,
    Replay,
    Capture,
    Inspect,
    EnableLogging,
    Once { demo: bool },
    Overlay { demo: bool },
}

/// Why nothing is done for a command line.
#[derive(Clone, Copy, Debug, PartialEq, Eq, Structural)]
pub enum ActionError {
    MatchingNeedsOverlay,
    CaptureConflict,
    InspectAndEnable,
}

/// What is done for options.
pub open spec fn action_of(o: OptionsModel) -> Result<Action, ActionError> {
    if o.switches.import_heartharena {
        Ok(Action::ImportHearthArena)
    } else if o.switches.import_hsreplay {
        Ok(Action::ImportHsReplay)
    } else if o.switches.import_firestone {
        Ok(Action::ImportFirestone)
    } else if o.logging_command is Some {
        Ok(Action::Logging(o.logging_command->0))
    } else if o.switches.doctor {
        Ok(Action::Doctor)
    } else if o.switches.analyze {
        Ok(Action::Analyze)
    } else if o.settings.explain_card is Some {
        Ok(Action::ExplainCard)
    } else if o.switches.replay {
        Ok(Action::Replay)
    } else if (o.settings.draft_fingerprints is Some || o.settings.ratings is Some) && (o.switches.demo || o.switches.once) {
        Err(ActionError::MatchingNeedsOverlay)
    } else if wants_capture(o) {
        if beside_capture(o) {
            Err(ActionError::CaptureConflict)
        } else {
            Ok(Action::Capture)
        }
    } else if o.switches.inspect && o.switches.enable_logging {
        Err(ActionError::InspectAndEnable)
    } else if o.switches.inspect {
        Ok(Action::Inspect)
    } else if o.switches.enable_logging {
        Ok(Action::EnableLogging)
    } else if o.switches.once {
        Ok(Action::Once { demo: o.switches.demo })
    } else {
        Ok(Action::Overlay { demo: o.switches.demo })
    }
}

/// The logging configuration is changed, and the window captured, only where the command line asks
/// for it; whatever else is done leaves both alone.
pub proof fn changes_are_asked_for(o: OptionsModel)
    ensures
        action_of(o) == Ok::<Action, ActionError>(Action::EnableLogging)
            ==> o.switches.enable_logging,
        action_of(o) == Ok::<Action, ActionError>(Action::Logging(LoggingCommand::Restore))
            ==> o.logging_command == Some(LoggingCommand::Restore),
        action_of(o) == Ok::<Action, ActionError>(Action::Capture) ==> wants_capture(o),
        action_of(no_options()) == Ok::<Action, ActionError>(Action::Overlay { demo: false }),
{
}

impl Options {
    /// What is done for the options.
    pub fn action(&self) -> (r: Result<Action, ActionError>)
        ensures
            r == action_of(self@),
    {
        if self.switches.import_heartharena {
            return Ok(Action::ImportHearthArena);
        }
        if self.switches.import_hsreplay {
            return Ok(Action::ImportHsReplay);
        }
        if self.switches.import_firestone {
            return Ok(Action::ImportFirestone);
        }
        if let Some(command) = self.logging_command {
            return Ok(Action::Logging(command));
        }
        if self.switches.doctor {
            return Ok(Action::Doctor);
        }
        if self.switches.analyze {
            return Ok(Action::Analyze);
        }
        if self.settings.explain_card.is_some() {
            return Ok(Action::ExplainCard);
        }
        if self.switches.replay {
            return Ok(Action::Replay);
        }
        if (self.settings.draft_fingerprints.is_some() || self.settings.ratings.is_some()) && (self.switches.demo
            || self.switches.once) {
            return Err(ActionError::MatchingNeedsOverlay);
        }
        if self.has_capture_request() {
            if self.has_beside_capture() {
                return Err(ActionError::CaptureConflict);
            }
            return Ok(Action::Capture);
        }
        if self.switches.inspect && self.switches.enable_logging {
            return Err(ActionError::InspectAndEnable);
        }
        if self.switches.inspect {
            return Ok(Action::Inspect);
        }
        if self.switches.enable_logging {
            return Ok(Action::EnableLogging);
        }
        if self.switches.once {
            return Ok(Action::Once { demo: self.switches.demo });
        }
        Ok(Action::Overlay { demo: self.switches.demo })
    }
}

impl ActionError {
    /// The words for the error.
    pub fn message(self) -> (r: &'static str)
        ensures
            r@ == (match self {
                ActionError::MatchingNeedsOverlay =>
                    "draft fingerprint matching runs only in the live native overlay, not with --demo or --once"@,
                ActionError::CaptureConflict =>
                    "capture commands cannot be combined with log, card, inspection, demo, or overlay commands"@,
                ActionError::InspectAndEnable =>
                    "--inspect and --enable-logging cannot be used together"@,
            }),
    {
        match self {
            ActionError::MatchingNeedsOverlay =>
                "draft fingerprint matching runs only in the live native overlay, not with --demo or --once",
            ActionError::CaptureConflict =>
                "capture commands cannot be combined with log, card, inspection, demo, or overlay commands",
            ActionError::InspectAndEnable =>
                "--inspect and --enable-logging cannot be used together",
        }
    }
}

/// The form in which a text that is not plain is quoted in messages: between quotation marks, with
/// special characters escaped.
pub uninterp spec fn quoted(s: Seq<char>) -> Seq<char>;

/// Whether a text consists of printable characters of ASCII, with neither quotation marks nor
/// backslashes.
pub open spec fn plain(s: Seq<char>) -> bool {
    forall|i: int|
        0 <= i < s.len() ==> ' ' <= #[trigger] s[i] <= '~' && s[i] != '"' && s[i] != '\\'
            && s[i] != '\''
}

/// The form of a text in which it is quoted in messages.
pub open spec fn quotation(s: Seq<char>) -> Seq<char> {
    if plain(s) {
        seq!['"'] + s + seq!['"']
    } else {
        quoted(s)
    }
}

/// Runs `std::fmt::Debug` for `str`, through the format macro. Claimed: a plain text is put
/// between quotation marks; of any other one the result depends on the text alone.
#[verifier::external_body]
pub(crate) fn quote(s: &str) -> (r: String)
    ensures
        plain(s@) ==> r@ == seq!['"'] + s@ + seq!['"'],
        !plain(s@) ==> r@ == quoted(s@),
{
    format!("{s:?}")
}

/// The words for what is wrong with a command line.
pub open spec fn options_text(e: OptionsFault) -> Seq<char> {
    match e {
        OptionsFault::RequiresPath { flag } => flag + " requires a path"@,
        OptionsFault::RequiresValue { flag } => flag + " requires a value"@,
        OptionsFault::LoggingTwice => "logging may be specified only once"@,
        OptionsFault::UnknownLogging { command } => "unknown logging command "@ + quotation(command)
            + "; use logging inspect, logging diff, or logging restore"@,
        OptionsFault::UnknownArgument { argument } => "unknown argument `"@ + argument
            + "`; use --help"@,
        OptionsFault::ManyImports => "only one import command may run at a time"@,
        OptionsFault::OutputWithoutImport => "--output is valid only with an import command"@,
        OptionsFault::FormatWithoutFirestone =>
            "--firestone-format is valid only with import-firestone"@,
        OptionsFault::UnknownFormat { format } => "unknown Firestone format "@ + quotation(format)
            + "; use arena or arena-underground"@,
        OptionsFault::ImportConflict =>
            "import commands may be combined only with --output and --json"@,
        OptionsFault::AnalysisWithoutAnalyze =>
            "--analysis-facts and --offer are valid only with analyze"@,
        OptionsFault::AnalyzeConflict =>
            "analyze may be combined only with log, card, rules, analysis-facts, offer, ratings, and JSON options"@,
        OptionsFault::BackupWithoutRestore =>
            "--backup and --latest are valid only with logging restore"@,
        OptionsFault::LoggingConflict =>
            "logging commands cannot be combined with another ArenaNext action"@,
        OptionsFault::RestoreWithoutSelector =>
            "logging restore requires either --backup PATH or --latest; it never guesses a file to restore"@,
        OptionsFault::RestoreWithBothSelectors =>
            "logging restore accepts either --backup PATH or --latest, not both"@,
    }
}

fn sandwiched(before: &str, s: &str, after: &str) -> (r: String)
    ensures
        r@ == before@ + s@ + after@,
{
    let mut r = text::copy(before);
    r.append(s);
    r.append(after);
    r
}

fn followed(s: &str, after: &str) -> (r: String)
    ensures
        r@ == s@ + after@,
{
    let mut r = text::copy(s);
    r.append(after);
    r
}

impl OptionsError {
    /// The words for the error.
    pub fn message(&self) -> (r: String)
        ensures
            r@ == options_text(self@),
    {
        match self {
            OptionsError::RequiresPath { flag } => followed(flag.as_str(), " requires a path"),
            OptionsError::RequiresValue { flag } => followed(flag.as_str(), " requires a value"),
            OptionsError::LoggingTwice => text::copy("logging may be specified only once"),
            OptionsError::UnknownLogging { command } => sandwiched(
                "unknown logging command ",
                quote(command.as_str()).as_str(),
                "; use logging inspect, logging diff, or logging restore",
            ),
            OptionsError::UnknownArgument { argument } => sandwiched(
                "unknown argument `",
                argument.as_str(),
                "`; use --help",
            ),
            OptionsError::ManyImports => text::copy("only one import command may run at a time"),
            OptionsError::OutputWithoutImport => text::copy(
                "--output is valid only with an import command",
            ),
            OptionsError::FormatWithoutFirestone => text::copy(
                "--firestone-format is valid only with import-firestone",
            ),
            OptionsError::UnknownFormat { format } => sandwiched(
                "unknown Firestone format ",
                quote(format.as_str()).as_str(),
                "; use arena or arena-underground",
            ),
            OptionsError::ImportConflict => text::copy(
                "import commands may be combined only with --output and --json",
            ),
            OptionsError::AnalysisWithoutAnalyze => text::copy(
                "--analysis-facts and --offer are valid only with analyze",
            ),
            OptionsError::AnalyzeConflict => text::copy(
                "analyze may be combined only with log, card, rules, analysis-facts, offer, ratings, and JSON options",
            ),
            OptionsError::BackupWithoutRestore => text::copy(
                "--backup and --latest are valid only with logging restore",
            ),
            OptionsError::LoggingConflict => text::copy(
                "logging commands cannot be combined with another ArenaNext action",
            ),
            OptionsError::RestoreWithoutSelector => text::copy(
                "logging restore requires either --backup PATH or --latest; it never guesses a file to restore",
            ),
            OptionsError::RestoreWithBothSelectors => text::copy(
                "logging restore accepts either --backup PATH or --latest, not both",
            ),
        }
    }
}

/// A restore that passes names exactly one backup: a file is never guessed.
pub proof fn restores_name_one_backup(o: OptionsModel)
    requires
        options_fault(o) is None,
        o.logging_command == Some(LoggingCommand::Restore),
    ensures
        o.settings.logging_backup is Some <==> !o.switches.logging_latest_backup,
        action_of(o) == Ok::<Action, ActionError>(Action::Logging(LoggingCommand::Restore)),
{
    reveal(options_fault);
}

/// An import that passes does nothing else: no logs are read and nothing is captured.
pub proof fn imports_stand_alone(o: OptionsModel)
    requires
        options_fault(o) is None,
        import_count(o) > 0,
    ensures
        import_count(o) == 1,
        o.settings.logs is None && !wants_capture(o) && !o.switches.analyze && o.logging_command is None,
{
    reveal(options_fault);
}

} // verus!
