//! Local Arena rules. A manifest names the modes of a season; nothing is guessed from logs, and
//! no deck size is built in.
use crate::imports::{join_texts, joined};
use crate::state::opt_text;
use crate::text::{self, decimal, lower_ascii_text, texts, trimmed};
use vstd::prelude::*;

verus! {

/// The version of rule manifests.
pub const ARENA_RULES_SCHEMA_VERSION: u32 = 1;

/// How a mode's Redraft goes.
#[derive(Clone, Copy, Debug, PartialEq, Eq, Structural)]
pub struct RedraftPolicy {
    /// The number of offers.
    pub pick_rounds: u8,
    /// The number of cards that are replaced.
    pub discard_count: u8,
}

/// The rules of one mode.
#[derive(Debug, PartialEq, Eq)]
pub struct ArenaModeRules {
    pub id: String,
    /// The number of cards in a complete deck.
    pub expected_deck_slots: u16,
    /// A mode without a Redraft has none.
    pub redraft: Option<RedraftPolicy>,
}

/// The rules of a season.
#[derive(Debug, PartialEq, Eq)]
pub struct ArenaRulesManifest {
    pub schema_version: u32,
    pub season: Option<String>,
    pub source: Option<String>,
    pub default_mode: Option<String>,
    pub modes: Vec<ArenaModeRules>,
}

/// The rule that was selected.
#[derive(Debug, PartialEq, Eq)]
pub struct ResolvedArenaRules {
    pub schema_version: u32,
    pub season: Option<String>,
    pub source: Option<String>,
    pub mode_id: String,
    pub expected_deck_slots: u16,
    /// None: the mode has no Redraft that could be relied on.
    pub redraft: Option<RedraftPolicy>,
}

/// What is wrong with a manifest or a request. A mode is named by its place.
#[derive(Clone, Copy, Debug, PartialEq, Eq, Structural)]
pub enum RulesError {
    Schema,
    NoModes,
    EmptyModeId,
    ZeroSlots { mode: usize },
    ZeroRedraft { mode: usize },
    DuplicateMode { mode: usize },
    EmptyDefault,
    UnknownDefault,
    EmptyRequest,
    UnknownRequest,
    Ambiguous,
}

/// The form of a mode id in which two are compared.
pub open spec fn canonical(id: Seq<char>) -> Seq<char> {
    lower_ascii_text(trimmed(id))
}

/// The canonical ids of modes.
pub open spec fn mode_ids(modes: Seq<ArenaModeRules>) -> Seq<Seq<char>> {
    modes.map_values(|m: ArenaModeRules| canonical(m.id@))
}

/// What is wrong with a mode.
pub open spec fn mode_fault(modes: Seq<ArenaModeRules>, i: int) -> Option<RulesError> {
    let m = modes[i];
    if canonical(m.id@).len() == 0 {
        Some(RulesError::EmptyModeId)
    } else if m.expected_deck_slots == 0 {
        Some(RulesError::ZeroSlots { mode: i as usize })
    } else if m.redraft matches Some(p) && (p.pick_rounds == 0 || p.discard_count == 0) {
        Some(RulesError::ZeroRedraft { mode: i as usize })
    } else if exists|j: int| 0 <= j < i && #[trigger] mode_ids(modes)[j] == canonical(m.id@) {
        Some(RulesError::DuplicateMode { mode: i as usize })
    } else {
        None
    }
}

/// What is wrong with the first faulty mode, among the first ones.
pub open spec fn first_mode_fault(modes: Seq<ArenaModeRules>, n: int) -> Option<RulesError>
    decreases n,
{
    if n <= 0 {
        None
    } else {
        match first_mode_fault(modes, n - 1) {
            Some(e) => Some(e),
            None => mode_fault(modes, n - 1),
        }
    }
}

/// The place of the first mode with an id.
pub open spec fn place_of(modes: Seq<ArenaModeRules>, id: Seq<char>, i: int) -> Option<int>
    decreases modes.len() - i,
{
    if i < 0 || i >= modes.len() {
        None
    } else if canonical(modes[i].id@) == id {
        Some(i)
    } else {
        place_of(modes, id, i + 1)
    }
}

/// What is wrong with a manifest, first of all.
pub open spec fn manifest_fault(m: ArenaRulesManifest) -> Option<RulesError> {
    if m.schema_version != ARENA_RULES_SCHEMA_VERSION {
        Some(RulesError::Schema)
    } else if m.modes@.len() == 0 {
        Some(RulesError::NoModes)
    } else {
        match first_mode_fault(m.modes@, m.modes@.len() as int) {
            Some(e) => Some(e),
            None => match opt_text(m.default_mode) {
                None => None,
                Some(d) => if canonical(d).len() == 0 {
                    Some(RulesError::EmptyDefault)
                } else if place_of(m.modes@, canonical(d), 0) is None {
                    Some(RulesError::UnknownDefault)
                } else {
                    None
                },
            },
        }
    }
}

/// The mode that a request selects.
pub open spec fn selected_mode(m: ArenaRulesManifest, requested: Option<Seq<char>>) -> Result<
    int,
    RulesError,
> {
    match manifest_fault(m) {
        Some(e) => Err(e),
        None => match requested {
            Some(r) => if canonical(r).len() == 0 {
                Err(RulesError::EmptyRequest)
            } else {
                match place_of(m.modes@, canonical(r), 0) {
                    Some(i) => Ok(i),
                    None => Err(RulesError::UnknownRequest),
                }
            },
            None => match opt_text(m.default_mode) {
                Some(d) => match place_of(m.modes@, canonical(d), 0) {
                    Some(i) => Ok(i),
                    None => Err(RulesError::UnknownDefault),
                },
                None => if m.modes@.len() == 1 {
                    Ok(0)
                } else {
                    Err(RulesError::Ambiguous)
                },
            },
        },
    }
}

fn canonical_mode_id(value: &str) -> (r: String)
    ensures
        r@ == canonical(value@),
{
    let id = text::chars_of(text::trim(value).as_str());
    text::string_of(text::to_lower_ascii_chars(id.as_slice()).as_slice())
}

fn find_mode(modes: &Vec<ArenaModeRules>, id: &str) -> (r: Option<usize>)
    ensures
        match r {
            Some(i) => place_of(modes@, id@, 0) == Some(i as int) && i < modes.len(),
            None => place_of(modes@, id@, 0) is None,
        },
{
    let mut i: usize = 0;
    while i < modes.len()
        invariant
            i <= modes.len(),
            place_of(modes@, id@, 0) == place_of(modes@, id@, i as int),
        decreases modes.len() - i,
    {
        if text::str_eq(canonical_mode_id(modes[i].id.as_str()).as_str(), id) {
            return Some(i);
        }
        i = i + 1;
    }
    None
}

fn check_mode(modes: &Vec<ArenaModeRules>, i: usize) -> (r: Option<RulesError>)
    requires
        i < modes.len(),
    ensures
        r == mode_fault(modes@, i as int),
{
    let mode = &modes[i];
    let id = canonical_mode_id(mode.id.as_str());
    if id.as_str().is_empty() {
        return Some(RulesError::EmptyModeId);
    }
    if mode.expected_deck_slots == 0 {
        return Some(RulesError::ZeroSlots { mode: i });
    }
    if let Some(redraft) = &mode.redraft {
        if redraft.pick_rounds == 0 || redraft.discard_count == 0 {
            return Some(RulesError::ZeroRedraft { mode: i });
        }
    }
    let mut j: usize = 0;
    while j < i
        invariant
            j <= i < modes.len(),
            id@ == canonical(modes@[i as int].id@),
            id@.len() > 0,
            modes@[i as int].expected_deck_slots > 0,
            modes@[i as int].redraft matches Some(p) ==> p.pick_rounds > 0 && p.discard_count > 0,
            forall|k: int| 0 <= k < j ==> #[trigger] mode_ids(modes@)[k] != id@,
        decreases i - j,
    {
        assert(mode_ids(modes@)[j as int] == canonical(modes@[j as int].id@));
        if text::str_eq(canonical_mode_id(modes[j].id.as_str()).as_str(), id.as_str()) {
            return Some(RulesError::DuplicateMode { mode: i });
        }
        j = j + 1;
    }
    None
}

impl ArenaRulesManifest {
    /// Asks that the version is known and the modes can be told apart.
    pub fn validate(&self) -> (r: Result<(), RulesError>)
        ensures
            match r {
                Ok(_) => manifest_fault(*self) is None,
                Err(e) => manifest_fault(*self) == Some(e),
            },
    {
        if self.schema_version != ARENA_RULES_SCHEMA_VERSION {
            return Err(RulesError::Schema);
        }
        if self.modes.len() == 0 {
            return Err(RulesError::NoModes);
        }
        let mut i: usize = 0;
        while i < self.modes.len()
            invariant
                i <= self.modes.len(),
                self.schema_version == ARENA_RULES_SCHEMA_VERSION,
                self.modes.len() > 0,
                first_mode_fault(self.modes@, i as int) is None,
            decreases self.modes.len() - i,
        {
            if let Some(e) = check_mode(&self.modes, i) {
                proof {
                    assert(first_mode_fault(self.modes@, i + 1) == Some(e));
                    first_fault_stays(self.modes@, i + 1, self.modes@.len() as int);
                }
                return Err(e);
            }
            i = i + 1;
        }
        if let Some(default_mode) = &self.default_mode {
            let id = canonical_mode_id(default_mode.as_str());
            if id.as_str().is_empty() {
                return Err(RulesError::EmptyDefault);
            }
            if find_mode(&self.modes, id.as_str()).is_none() {
                return Err(RulesError::UnknownDefault);
            }
        }
        Ok(())
    }

    /// Selects one mode. Without a request the default mode counts, and a single mode needs
    /// none; several modes without a default are refused, not guessed.
    pub fn resolve(&self, requested_mode: Option<&str>) -> (r: Result<
        ResolvedArenaRules,
        RulesError,
    >)
        ensures
            ({
                let wanted = selected_mode(
                    *self,
                    match requested_mode {
                        Some(s) => Some(s@),
                        None => None,
                    },
                );
                match r {
                    Err(e) => wanted == Err::<int, RulesError>(e),
                    Ok(x) => {
                        &&& wanted matches Ok(i)
                        &&& 0 <= i < self.modes@.len()
                        &&& x.schema_version == self.schema_version
                        &&& opt_text(x.season) == opt_text(self.season)
                        &&& opt_text(x.source) == opt_text(self.source)
                        &&& x.mode_id@ == self.modes@[i].id@
                        &&& x.expected_deck_slots == self.modes@[i].expected_deck_slots
                        &&& x.redraft == self.modes@[i].redraft
                        &&& x.expected_deck_slots > 0
                        &&& x.redraft matches Some(p) ==> p.pick_rounds > 0 && p.discard_count > 0
                    },
                }
            }),
    {
        if let Err(e) = self.validate() {
            return Err(e);
        }
        let selected: usize = match requested_mode {
            Some(requested) => {
                let id = canonical_mode_id(requested);
                if id.as_str().is_empty() {
                    return Err(RulesError::EmptyRequest);
                }
                match find_mode(&self.modes, id.as_str()) {
                    Some(i) => i,
                    None => return Err(RulesError::UnknownRequest),
                }
            },
            None => match &self.default_mode {
                Some(default_mode) => {
                    let id = canonical_mode_id(default_mode.as_str());
                    match find_mode(&self.modes, id.as_str()) {
                        Some(i) => i,
                        None => return Err(RulesError::UnknownDefault),
                    }
                },
                None => {
                    if self.modes.len() != 1 {
                        return Err(RulesError::Ambiguous);
                    }
                    0
                },
            },
        };
        proof {
            valid_modes_are_sound(*self, selected as int);
        }
        let mode = &self.modes[selected];
        Ok(
            ResolvedArenaRules {
                schema_version: self.schema_version,
                season: self.season.clone(),
                source: self.source.clone(),
                mode_id: mode.id.clone(),
                expected_deck_slots: mode.expected_deck_slots,
                redraft: mode.redraft,
            },
        )
    }
}

proof fn first_fault_stays(modes: Seq<ArenaModeRules>, n: int, m: int)
    requires
        n <= m,
        first_mode_fault(modes, n) is Some,
    ensures
        first_mode_fault(modes, m) == first_mode_fault(modes, n),
    decreases m - n,
{
    if n < m {
        first_fault_stays(modes, n, m - 1);
    }
}

proof fn faultless_modes(modes: Seq<ArenaModeRules>, n: int, i: int)
    requires
        0 <= i < n <= modes.len(),
        first_mode_fault(modes, n) is None,
    ensures
        mode_fault(modes, i) is None,
    decreases n,
{
    if i < n - 1 {
        faultless_modes(modes, n - 1, i);
    }
}

proof fn place_has_the_id(modes: Seq<ArenaModeRules>, id: Seq<char>, i: int)
    requires
        0 <= i,
    ensures
        match place_of(modes, id, i) {
            Some(k) => i <= k < modes.len() && canonical(modes[k].id@) == id,
            None => forall|k: int| i <= k < modes.len() ==> canonical(#[trigger] modes[k].id@) != id,
        },
    decreases modes.len() - i,
{
    if i < modes.len() && canonical(modes[i].id@) != id {
        place_has_the_id(modes, id, i + 1);
    }
}

/// Each mode of a valid manifest has an id, a positive size and, where it has a Redraft, positive
/// Redraft counts.
pub proof fn valid_modes_are_sound(m: ArenaRulesManifest, i: int)
    requires
        manifest_fault(m) is None,
        0 <= i < m.modes@.len(),
    ensures
        canonical(m.modes@[i].id@).len() > 0,
        m.modes@[i].expected_deck_slots > 0,
        m.modes@[i].redraft matches Some(p) ==> p.pick_rounds > 0 && p.discard_count > 0,
{
    faultless_modes(m.modes@, m.modes@.len() as int, i);
}

/// The modes of a valid manifest have distinct ids, in any letter case.
pub proof fn valid_modes_are_distinct(m: ArenaRulesManifest, i: int, j: int)
    requires
        manifest_fault(m) is None,
        0 <= i < j < m.modes@.len(),
    ensures
        canonical(m.modes@[i].id@) != canonical(m.modes@[j].id@),
{
    faultless_modes(m.modes@, m.modes@.len() as int, j);
    assert(mode_ids(m.modes@)[i] == canonical(m.modes@[i].id@));
}

/// In a valid manifest each mode is found by its own id, in any letter case.
pub proof fn every_mode_can_be_requested(m: ArenaRulesManifest, i: int)
    requires
        manifest_fault(m) is None,
        0 <= i < m.modes@.len(),
    ensures
        selected_mode(m, Some(m.modes@[i].id@)) == Ok::<int, RulesError>(i),
{
    let id = canonical(m.modes@[i].id@);
    faultless_modes(m.modes@, m.modes@.len() as int, i);
    place_has_the_id(m.modes@, id, 0);
    assert(canonical(m.modes@[i].id@) == id);
    let k = place_of(m.modes@, id, 0)->0;
    if k < i {
        valid_modes_are_distinct(m, k, i);
    } else if i < k {
        valid_modes_are_distinct(m, i, k);
    }
}

/// The default mode of a valid manifest always resolves.
pub proof fn defaults_resolve(m: ArenaRulesManifest)
    requires
        manifest_fault(m) is None,
        m.default_mode is Some,
    ensures
        selected_mode(m, None) is Ok,
{
}

/// The words for an error.
pub open spec fn rules_text(
    e: RulesError,
    m: ArenaRulesManifest,
    requested: Seq<char>,
) -> Seq<char> {
    match e {
        RulesError::Schema => "unsupported Arena rules schemaVersion "@ + decimal(
            m.schema_version as nat,
        ) + "; expected "@ + decimal(ARENA_RULES_SCHEMA_VERSION as nat),
        RulesError::NoModes => "Arena rules manifest must define at least one mode"@,
        RulesError::EmptyModeId => "Arena rules manifest contains an empty mode id"@,
        RulesError::ZeroSlots { mode } => "Arena rules mode `"@ + m.modes@[mode as int].id@
            + "` has expectedDeckSlots 0"@,
        RulesError::ZeroRedraft { mode } => "Arena rules mode `"@ + m.modes@[mode as int].id@
            + "` redraft pickRounds and discardCount must both be positive"@,
        RulesError::DuplicateMode { mode } => "Arena rules manifest contains duplicate mode id `"@
            + m.modes@[mode as int].id@ + "`"@,
        RulesError::EmptyDefault => "Arena rules manifest has an empty defaultMode"@,
        RulesError::UnknownDefault => "Arena rules manifest defaultMode `"@ + (match opt_text(
            m.default_mode,
        ) {
            Some(d) => d,
            None => Seq::empty(),
        }) + "` does not match a declared mode"@,
        RulesError::EmptyRequest => "--arena-mode must not be empty"@,
        RulesError::UnknownRequest => "Arena rules manifest has no mode `"@ + requested + "`"@,
        RulesError::Ambiguous => "Arena rules manifest defines multiple modes ("@ + joined(
            m.modes@.map_values(|x: ArenaModeRules| x.id@),
            ", "@,
        ) + "); set defaultMode or pass --arena-mode"@,
    }
}

fn about(before: &str, name: &str, after: &str) -> (r: String)
    ensures
        r@ == before@ + name@ + after@,
{
    let mut r = text::copy(before);
    r.append(name);
    r.append(after);
    r
}

impl ArenaRulesManifest {
    /// The words for an error of this manifest.
    pub fn error_message(&self, e: RulesError, requested: &str) -> (r: String)
        requires
            match e {
                RulesError::ZeroSlots { mode } => mode < self.modes@.len(),
                RulesError::ZeroRedraft { mode } => mode < self.modes@.len(),
                RulesError::DuplicateMode { mode } => mode < self.modes@.len(),
                _ => true,
            },
        ensures
            r@ == rules_text(e, *self, requested@),
    {
        match e {
            RulesError::Schema => {
                let mut r = text::copy("unsupported Arena rules schemaVersion ");
                text::push_decimal(&mut r, self.schema_version as u64);
                r.append("; expected ");
                text::push_decimal(&mut r, ARENA_RULES_SCHEMA_VERSION as u64);
                r
            },
            RulesError::NoModes => text::copy("Arena rules manifest must define at least one mode"),
            RulesError::EmptyModeId => text::copy("Arena rules manifest contains an empty mode id"),
            RulesError::ZeroSlots { mode } => about(
                "Arena rules mode `",
                self.modes[mode].id.as_str(),
                "` has expectedDeckSlots 0",
            ),
            RulesError::ZeroRedraft { mode } => about(
                "Arena rules mode `",
                self.modes[mode].id.as_str(),
                "` redraft pickRounds and discardCount must both be positive",
            ),
            RulesError::DuplicateMode { mode } => about(
                "Arena rules manifest contains duplicate mode id `",
                self.modes[mode].id.as_str(),
                "`",
            ),
            RulesError::EmptyDefault => text::copy("Arena rules manifest has an empty defaultMode"),
            RulesError::UnknownDefault => match &self.default_mode {
                Some(d) => about(
                    "Arena rules manifest defaultMode `",
                    d.as_str(),
                    "` does not match a declared mode",
                ),
                None => {
                    let empty = String::new();
                    assert(empty@ =~= Seq::<char>::empty());
                    about(
                        "Arena rules manifest defaultMode `",
                        empty.as_str(),
                        "` does not match a declared mode",
                    )
                },
            },
            RulesError::EmptyRequest => text::copy("--arena-mode must not be empty"),
            RulesError::UnknownRequest => about(
                "Arena rules manifest has no mode `",
                requested,
                "`",
            ),
            RulesError::Ambiguous => {
                let mut ids: Vec<String> = Vec::new();
                let ghost wanted = self.modes@.map_values(|x: ArenaModeRules| x.id@);
                let mut i: usize = 0;
                while i < self.modes.len()
                    invariant
                        i <= self.modes.len(),
                        wanted == self.modes@.map_values(|x: ArenaModeRules| x.id@),
                        texts(ids@) =~= wanted.take(i as int),
                    decreases self.modes.len() - i,
                {
                    let ghost before = ids@;
                    let id = self.modes[i].id.clone();
                    ids.push(id);
                    assert(texts(ids@) =~= texts(before).push(id@));
                    i = i + 1;
                }
                assert(wanted.take(i as int) =~= wanted);
                about(
                    "Arena rules manifest defines multiple modes (",
                    join_texts(&ids, ", ").as_str(),
                    "); set defaultMode or pass --arena-mode",
                )
            },
        }
    }
}

} // verus!
