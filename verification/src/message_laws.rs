//! What is told of a fault: what it is about, its numbers, and words of its own.
use crate::analysis::{FactsError, FactsFault};
use crate::checkpoint::{fault_text, CheckpointFault};
use crate::frame::FaultModel;
use crate::options::{options_text, OptionsFault};
use crate::recognition::RectFault;
use crate::rules::{rules_text, ArenaRulesManifest, RulesError};
use crate::text::{contains_part, decimal, occurs_at};
use vstd::prelude::*;

verus! {

/// A saved state that cannot be taken up is told by its versions, the one that was found before the
/// one that is wanted.
pub proof fn versions_of_saved_states_are_told(
    found: u32,
    expected: u32,
    session: Seq<char>,
    unknown: Seq<char>,
)
    ensures
        ({
            let t = fault_text(CheckpointFault::StateSchema { found, expected }, session, unknown);
            let n = "checkpoint state schema "@.len() as int;
            let f = decimal(found as nat);
            &&& occurs_at(t, "checkpoint state schema "@, 0)
            &&& occurs_at(t, f, n)
            &&& occurs_at(
                t,
                decimal(expected as nat),
                n + f.len() + " does not match "@.len(),
            )
        }),
        occurs_at(
            fault_text(CheckpointFault::CheckpointSchema { found }, session, unknown),
            decimal(found as nat),
            "unsupported observer checkpoint schema "@.len() as int,
        ),
        occurs_at(
            fault_text(CheckpointFault::SnapshotSchema { found }, session, unknown),
            decimal(found as nat),
            "checkpoint observer snapshot schema "@.len() as int,
        ),
{
    let f = decimal(found as nat);
    let x = decimal(expected as nat);
    let t = fault_text(CheckpointFault::StateSchema { found, expected }, session, unknown);
    let n = "checkpoint state schema "@.len() as int;
    let at = n + f.len() + " does not match "@.len();
    assert(t.subrange(0, n) =~= "checkpoint state schema "@);
    assert(t.subrange(n, n + f.len()) =~= f);
    assert(t.subrange(at, at + x.len()) =~= x);
    let u = fault_text(CheckpointFault::CheckpointSchema { found }, session, unknown);
    let k = "unsupported observer checkpoint schema "@.len() as int;
    assert(u.subrange(k, k + f.len()) =~= f);
    let v = fault_text(CheckpointFault::SnapshotSchema { found }, session, unknown);
    let m = "checkpoint observer snapshot schema "@.len() as int;
    assert(v.subrange(m, m + f.len()) =~= f);
}

/// A saved state that does not hold is told by words of its own.
pub proof fn saved_states_are_refused_in_words_of_their_own(
    fault: CheckpointFault,
    session: Seq<char>,
    unknown: Seq<char>,
)
    ensures
        ({
            let t = fault_text(fault, session, unknown);
            &&& fault is Integrity ==> t == "checkpoint integrity checksum did not match"@
            &&& fault is OtherDirectory ==> t
                == "checkpoint belongs to a different log-session directory"@
            &&& fault is OtherIdentity ==> t == "checkpoint session identity did not match"@
            &&& fault is OrderMismatch ==> t
                == "checkpoint final source ordering witness did not match"@
            &&& fault is IncompleteWitness ==> t
                == "checkpoint had incomplete final source witness"@
            &&& fault is SourceSession ==> t == "checkpoint source belongs to a different session"@
            &&& fault is SourceNotCanonical ==> t
                == "checkpoint source component was not a canonical log filename"@
            &&& fault is SourceWithoutCursor ==> t == "checkpoint source component had no cursor"@
            &&& fault is SourceAfterCursor ==> t
                == "checkpoint source lies at or after its saved cursor"@
            &&& fault is SourceEnded ==> t
                == "checkpoint source ended before a complete log line"@
            &&& fault is SourceTooLong ==> t == "checkpoint source line exceeded 1 MiB"@
            &&& fault is SourceNotUtf8 ==> t == "checkpoint source was not UTF-8"@
            &&& fault is SourceMismatch ==> t == "checkpoint source contents did not match"@
            &&& fault is Parser ==> t == "checkpoint parser state was invalid"@
            &&& fault is Reducer ==> t == "checkpoint reducer state was invalid"@
        }),
{
}

/// A fault in the options is told with the word it is about, and otherwise by words of its own.
pub proof fn faults_of_options_are_told(e: OptionsFault)
    ensures
        ({
            let t = options_text(e);
            &&& e matches OptionsFault::RequiresPath { flag } ==> occurs_at(t, flag, 0) && occurs_at(
                t,
                " requires a path"@,
                flag.len() as int,
            )
            &&& e matches OptionsFault::RequiresValue { flag } ==> occurs_at(t, flag, 0)
                && occurs_at(t, " requires a value"@, flag.len() as int)
            &&& e matches OptionsFault::UnknownArgument { argument } ==> contains_part(t, argument)
            &&& e is LoggingTwice ==> t == "logging may be specified only once"@
            &&& e is ManyImports ==> t == "only one import command may run at a time"@
            &&& e is OutputWithoutImport ==> t == "--output is valid only with an import command"@
            &&& e is FormatWithoutFirestone ==> t
                == "--firestone-format is valid only with import-firestone"@
            &&& e is ImportConflict ==> t
                == "import commands may be combined only with --output and --json"@
            &&& e is AnalysisWithoutAnalyze ==> t
                == "--analysis-facts and --offer are valid only with analyze"@
            &&& e is BackupWithoutRestore ==> t
                == "--backup and --latest are valid only with logging restore"@
            &&& e is LoggingConflict ==> t
                == "logging commands cannot be combined with another ArenaNext action"@
            &&& e is RestoreWithBothSelectors ==> t
                == "logging restore accepts either --backup PATH or --latest, not both"@
        }),
{
    let t = options_text(e);
    match e {
        OptionsFault::RequiresPath { flag } => {
            let tail = " requires a path"@;
            assert(t.subrange(0, flag.len() as int) =~= flag);
            assert(t.subrange(flag.len() as int, (flag.len() + tail.len()) as int) =~= tail);
        },
        OptionsFault::RequiresValue { flag } => {
            let tail = " requires a value"@;
            assert(t.subrange(0, flag.len() as int) =~= flag);
            assert(t.subrange(flag.len() as int, (flag.len() + tail.len()) as int) =~= tail);
        },
        OptionsFault::UnknownArgument { argument } => {
            let n = "unknown argument `"@.len() as int;
            assert(t.subrange(n, n + argument.len()) =~= argument);
            assert(occurs_at(t, argument, n));
        },
        _ => {},
    }
}

/// A fault of a picture is told with its numbers: what was found and what was needed, each in its
/// place, and otherwise by words of its own.
pub proof fn faults_of_pictures_are_told(e: FaultModel)
    ensures
        ({
            let t = e.says();
            &&& e matches FaultModel::InvalidBytesPerRow { actual, minimum } ==> {
                let n = "frame stride of "@.len() as int;
                let gap = " bytes is smaller than the required "@.len();
                occurs_at(t, decimal(actual), n) && occurs_at(
                    t,
                    decimal(minimum),
                    n + decimal(actual).len() + gap,
                )
            }
            &&& e matches FaultModel::InvalidBufferLength { actual, expected } ==> {
                let n = "frame buffer contains "@.len() as int;
                let gap = " bytes but "@.len();
                occurs_at(t, decimal(actual), n) && occurs_at(
                    t,
                    decimal(expected),
                    n + decimal(actual).len() + gap,
                )
            }
            &&& e matches FaultModel::ExpectedOfferCount { expected, actual } ==> {
                let n = "expected "@.len() as int;
                let gap = " offer items, received "@.len();
                occurs_at(t, decimal(expected), n) && occurs_at(
                    t,
                    decimal(actual),
                    n + decimal(expected).len() + gap,
                )
            }
            &&& e matches FaultModel::DuplicateCardId(id) ==> occurs_at(t, id, t.len() - id.len())
            &&& e is EmptyFrame ==> t == "frame dimensions must be non-zero"@
            &&& e is EmptyCrop ==> t == "crop dimensions must be non-zero"@
            &&& e is FrameTooLarge ==> t == "frame exceeds recognition safety limits"@
            &&& e is CropOutOfBounds ==> t == "crop falls outside the source frame"@
            &&& e is EmptyFingerprintCatalog ==> t == "fingerprint catalog is empty"@
            &&& e is InvalidCardId ==> t == "card ID must not be empty"@
            &&& e is InvalidCandidateEvidence ==> t == "candidate evidence is invalid"@
            &&& e is NoObservations ==> t == "no recognition observations were accumulated"@
            &&& e is TooManyObservations ==> t == "observation counter overflowed"@
        }),
{
    let t = e.says();
    match e {
        FaultModel::InvalidBytesPerRow { actual, minimum } => {
            let n = "frame stride of "@.len() as int;
            let a = decimal(actual);
            let m = decimal(minimum);
            let at = n + a.len() + " bytes is smaller than the required "@.len();
            assert(t.subrange(n, n + a.len()) =~= a);
            assert(t.subrange(at, at + m.len()) =~= m);
        },
        FaultModel::InvalidBufferLength { actual, expected } => {
            let n = "frame buffer contains "@.len() as int;
            let a = decimal(actual);
            let x = decimal(expected);
            let at = n + a.len() + " bytes but "@.len();
            assert(t.subrange(n, n + a.len()) =~= a);
            assert(t.subrange(at, at + x.len()) =~= x);
        },
        FaultModel::ExpectedOfferCount { expected, actual } => {
            let n = "expected "@.len() as int;
            let x = decimal(expected);
            let a = decimal(actual);
            let at = n + x.len() + " offer items, received "@.len();
            assert(t.subrange(n, n + x.len()) =~= x);
            assert(t.subrange(at, at + a.len()) =~= a);
        },
        FaultModel::DuplicateCardId(id) => {
            assert(t.subrange(t.len() - id.len(), t.len() as int) =~= id);
        },
        _ => {},
    }
}

/// A part of a layout is told by what is wrong with it.
pub proof fn faults_of_parts_are_told(e: RectFault)
    ensures
        e is NotFinite ==> e.says() == "normalized coordinates must be finite"@,
        e is EmptyOrNegative ==> e.says()
            == "normalized rectangle must have a non-negative origin and positive size"@,
        e is BeyondTheWindow ==> e.says()
            == "normalized rectangle extends beyond the captured window"@,
{
}

/// What is wrong with a list of rules as a whole is told by words of its own.
pub proof fn faults_of_rules_are_told(e: RulesError, m: ArenaRulesManifest, requested: Seq<char>)
    ensures
        ({
            let t = rules_text(e, m, requested);
            &&& e is NoModes ==> t == "Arena rules manifest must define at least one mode"@
            &&& e is EmptyModeId ==> t == "Arena rules manifest contains an empty mode id"@
            &&& e is EmptyDefault ==> t == "Arena rules manifest has an empty defaultMode"@
            &&& e is EmptyRequest ==> t == "--arena-mode must not be empty"@
        }),
{
}

/// What is wrong with facts is told with the tag or the card it is about, and otherwise by words of
/// its own.
pub proof fn faults_of_facts_are_told(e: FactsError, r: String)
    requires
        call_ensures(FactsError::message, (&e,), r),
    ensures
        e@ matches FactsFault::InvalidCategory { tag } ==> contains_part(r@, tag),
        e@ matches FactsFault::DuplicateCardId { card_id } ==> contains_part(r@, card_id),
        e@ matches FactsFault::UnsupportedSchema { found } ==> contains_part(
            r@,
            decimal(found as nat),
        ),
        e@ is EmptySource ==> r@ == "analysis facts source must not be empty"@,
        e@ is EmptyDataVersion ==> r@ == "analysis facts dataVersion must not be empty"@,
        e@ is EmptyCardId ==> r@ == "analysis facts contains an empty cardId"@,
        e@ is EmptyTag ==> r@ == "analysis facts contains an empty tag"@,
{
    match e@ {
        FactsFault::InvalidCategory { tag } => {
            let n = "analysis facts tag `"@.len() as int;
            assert(r@.subrange(n, n + tag.len()) =~= tag);
            assert(occurs_at(r@, tag, n));
        },
        FactsFault::DuplicateCardId { card_id } => {
            let n = "analysis facts contains duplicate cardId `"@.len() as int;
            assert(r@.subrange(n, n + card_id.len()) =~= card_id);
            assert(occurs_at(r@, card_id, n));
        },
        FactsFault::UnsupportedSchema { found } => {
            let n = "unsupported analysis facts schemaVersion "@.len() as int;
            let d = decimal(found as nat);
            assert(r@.subrange(n, n + d.len()) =~= d);
            assert(occurs_at(r@, d, n));
        },
        _ => {},
    }
}

} // verus!
