//! The decisions of the running client: what the observer publishes, when it tries again, what the
//! overlay does on a tick, and what the commands for diagnosis report.
use crate::card_data::{CardResolution, ResolutionModel};
use crate::live::{ComponentRotation, LogStaleness};
use crate::observer::AttachMethod;
use crate::overlay::{staleness_label, staleness_text, ExternalDraftModel};
use crate::rules::{RedraftPolicy, ResolvedArenaRules};
use crate::snapshot::{ObserverSnapshot, ResolvedDeckCard};
use crate::state::opt_text;
use crate::text::{self, decimal};
use crate::text_map::TextSet;
use vstd::prelude::*;

verus! {

/// What the observer tells the overlay. `O` is what is drawn over an offer.
pub struct SharedObserverState<O> {
    pub snapshot: ObserverSnapshot,
    pub last_error: Option<String>,
    pub checkpoint_error: Option<String>,
    pub external_draft: Option<ExternalDraftModel>,
    pub offer_overlay: Option<O>,
    pub log_staleness: LogStaleness,
}

/// The entry for the log where the logs stop or go on.
pub open spec fn staleness_entry(before: LogStaleness, after: LogStaleness) -> Option<Seq<char>> {
    if before == after {
        None
    } else {
        Some("log staleness "@ + staleness_text(before) + " -> "@ + staleness_text(after))
    }
}

impl<O> SharedObserverState<O> {
    /// What is shared once the logs were read.
    pub open spec fn published(
        snapshot: ObserverSnapshot,
        checkpoint_error: Option<String>,
        external_draft: Option<ExternalDraftModel>,
        offer_overlay: Option<O>,
        staleness: LogStaleness,
    ) -> Self {
        SharedObserverState {
            snapshot,
            last_error: None,
            checkpoint_error,
            external_draft,
            offer_overlay,
            log_staleness: staleness,
        }
    }

    /// What is shared where no session could be attached.
    pub open spec fn unattached(self, error: String) -> Self {
        SharedObserverState {
            log_staleness: LogStaleness::NoLogs,
            last_error: Some(error),
            external_draft: None,
            offer_overlay: None,
            ..self
        }
    }

    /// What is shared where the logs could not be read on.
    pub open spec fn unread(self, error: String, checkpoint_error: Option<String>) -> Self {
        SharedObserverState {
            last_error: Some(error),
            checkpoint_error,
            external_draft: None,
            offer_overlay: None,
            ..self
        }
    }

    /// Notes how the logs stand. The result is an entry for the log where that changed.
    pub fn record_staleness(&mut self, staleness: LogStaleness) -> (r: Option<String>)
        ensures
            opt_text(r) == staleness_entry(old(self).log_staleness, staleness),
            *final(self) == (SharedObserverState { log_staleness: staleness, ..*old(self) }),
    {
        if self.log_staleness == staleness {
            return None;
        }
        let mut entry = text::copy("log staleness ");
        entry.append(staleness_label(self.log_staleness).as_str());
        entry.append(" -> ");
        entry.append(staleness_label(staleness).as_str());
        self.log_staleness = staleness;
        Some(entry)
    }

    /// Publishes what was read. An error from before is over.
    pub fn publish(
        &mut self,
        snapshot: ObserverSnapshot,
        checkpoint_error: Option<String>,
        external_draft: Option<ExternalDraftModel>,
        offer_overlay: Option<O>,
        staleness: LogStaleness,
    ) -> (r: Option<String>)
        ensures
            opt_text(r) == staleness_entry(old(self).log_staleness, staleness),
            *final(self) == Self::published(
                snapshot,
                checkpoint_error,
                external_draft,
                offer_overlay,
                staleness,
            ),
    {
        let entry = self.record_staleness(staleness);
        self.snapshot = snapshot;
        self.last_error = None;
        self.checkpoint_error = checkpoint_error;
        self.external_draft = external_draft;
        self.offer_overlay = offer_overlay;
        entry
    }

    /// Publishes that no session could be attached. The last snapshot stays.
    pub fn attach_failed(&mut self, error: String) -> (r: Option<String>)
        ensures
            opt_text(r) == staleness_entry(old(self).log_staleness, LogStaleness::NoLogs),
            *final(self) == old(self).unattached(error),
    {
        let entry = self.record_staleness(LogStaleness::NoLogs);
        self.last_error = Some(error);
        self.external_draft = None;
        self.offer_overlay = None;
        entry
    }

    /// Publishes that the logs could not be read on. The last snapshot stays.
    pub fn poll_failed(&mut self, error: String, checkpoint_error: Option<String>)
        ensures
            *final(self) == old(self).unread(error, checkpoint_error),
    {
        self.last_error = Some(error);
        self.checkpoint_error = checkpoint_error;
        self.external_draft = None;
        self.offer_overlay = None;
    }
}

/// What happened to the observer.
#[derive(Clone, Copy, Debug, PartialEq, Eq, Structural)]
pub enum ObserverEvent {
    AttachFailed,
    Attached,
    Polled,
    PollFailed,
}

/// What the observer does next.
#[derive(Clone, Copy, Debug, PartialEq, Eq, Structural)]
pub enum ObserverStep {
    Attach,
    Poll,
}

/// What the observer does next, and after how many milliseconds. It never gives up: a failure
/// leads to another attempt to attach, after a second.
pub fn next_observer_step(event: ObserverEvent) -> (r: (ObserverStep, u64))
    ensures
        r == (match event {
            ObserverEvent::AttachFailed => (ObserverStep::Attach, 1000u64),
            ObserverEvent::Attached => (ObserverStep::Poll, 0u64),
            ObserverEvent::Polled => (ObserverStep::Poll, 250u64),
            ObserverEvent::PollFailed => (ObserverStep::Attach, 1000u64),
        }),
{
    match event {
        ObserverEvent::AttachFailed => (ObserverStep::Attach, 1000),
        ObserverEvent::Attached => (ObserverStep::Poll, 0),
        ObserverEvent::Polled => (ObserverStep::Poll, 250),
        ObserverEvent::PollFailed => (ObserverStep::Attach, 1000),
    }
}

/// The name of a way to attach.
pub open spec fn method_text(method: AttachMethod) -> Seq<char> {
    match method {
        AttachMethod::VerifiedCheckpoint => "VerifiedCheckpoint"@,
        AttachMethod::TailSnapshot => "TailSnapshot"@,
        AttachMethod::TailRun => "TailRun"@,
        AttachMethod::AwaitingSnapshot => "AwaitingSnapshot"@,
        AttachMethod::FullReplay => "FullReplay"@,
    }
}

fn method_label(method: AttachMethod) -> (r: &'static str)
    ensures
        r@ == method_text(method),
{
    match method {
        AttachMethod::VerifiedCheckpoint => "VerifiedCheckpoint",
        AttachMethod::TailSnapshot => "TailSnapshot",
        AttachMethod::TailRun => "TailRun",
        AttachMethod::AwaitingSnapshot => "AwaitingSnapshot",
        AttachMethod::FullReplay => "FullReplay",
    }
}

/// The entry for the log after a session was attached.
pub fn attached_entry(method: AttachMethod, staleness: LogStaleness, session: &str) -> (r: String)
    ensures
        r@ == "attached method="@ + method_text(method) + " staleness="@ + staleness_text(staleness)
            + " session="@ + session@,
{
    let mut out = text::copy("attached method=");
    out.append(method_label(method));
    out.append(" staleness=");
    out.append(staleness_label(staleness).as_str());
    out.append(" session=");
    out.append(session);
    out
}

/// The entry for the log after a component log was shortened.
pub fn rotation_entry(rotation: &ComponentRotation) -> (r: String)
    ensures
        r@ == "rotated "@ + rotation.component@ + " from "@ + decimal(
            rotation.previous_bytes as nat,
        ) + " bytes, retained "@ + decimal(rotation.retained_bytes as nat),
{
    let mut out = text::copy("rotated ");
    out.append(rotation.component);
    out.append(" from ");
    text::push_decimal(&mut out, rotation.previous_bytes);
    out.append(" bytes, retained ");
    text::push_decimal(&mut out, rotation.retained_bytes);
    out
}

/// The log of the client. An entry that repeats the last one is left out, so that an attempt that
/// fails again and again does not fill the file.
pub struct AppLog {
    pub last: Option<String>,
}

impl AppLog {
    /// A log without entries.
    pub fn new() -> (r: AppLog)
        ensures
            r.last is None,
    {
        AppLog { last: None }
    }

    /// Whether an entry is to be written.
    pub fn accept(&mut self, entry: &str) -> (r: bool)
        ensures
            r == (opt_text(old(self).last) != Some(entry@)),
            opt_text(final(self).last) == Some(entry@),
    {
        let same = match &self.last {
            Some(last) => text::str_eq(last.as_str(), entry),
            None => false,
        };
        if same {
            return false;
        }
        self.last = Some(text::copy(entry));
        true
    }
}

/// What the user asked of the overlay.
#[derive(Clone, Copy, Debug, PartialEq, Eq, Structural)]
pub enum OverlayCommand {
    ToggleVisibility,
    ToggleInteraction,
    ShowPopup,
    FixDeckHelp,
    Quit,
}

/// What a command calls for at once.
#[derive(Clone, Copy, Debug, PartialEq, Eq, Structural)]
pub enum CommandEffect {
    Nothing,
    SetInteractive(bool),
    ShowFixDeckHelp,
    Stop,
}

/// What the overlay shows and remembers.
pub struct OverlayState {
    pub manually_hidden: bool,
    pub interactive: bool,
    pub popup_visible: bool,
    pub hearthstone_was_frontmost: bool,
    /// The cards whose pictures were asked for.
    pub requested_card_art: TextSet,
}

/// What a tick calls for.
#[derive(Clone, Copy, Debug, PartialEq, Eq, Structural)]
pub struct TickEffect {
    /// Whether the game has just come to the front.
    pub activated: bool,
    /// Whether the overlay is shown.
    pub show: bool,
}

/// What a command does to the overlay, and what it calls for.
pub open spec fn followed(
    before: OverlayState,
    command: OverlayCommand,
    after: OverlayState,
    effect: CommandEffect,
) -> bool {
    &&& after.requested_card_art == before.requested_card_art
    &&& after.hearthstone_was_frontmost == before.hearthstone_was_frontmost
    &&& after.manually_hidden == (if command == OverlayCommand::ToggleVisibility {
        !before.manually_hidden
    } else {
        before.manually_hidden
    })
    &&& after.interactive == (if command == OverlayCommand::ToggleInteraction {
        !before.interactive
    } else {
        before.interactive
    })
    &&& after.popup_visible == (match command {
        OverlayCommand::ShowPopup => !before.popup_visible,
        OverlayCommand::FixDeckHelp => false,
        _ => before.popup_visible,
    })
    &&& effect == (match command {
        OverlayCommand::ToggleInteraction => CommandEffect::SetInteractive(!before.interactive),
        OverlayCommand::FixDeckHelp => CommandEffect::ShowFixDeckHelp,
        OverlayCommand::Quit => CommandEffect::Stop,
        _ => CommandEffect::Nothing,
    })
}

/// What a tick does to the overlay, and what it calls for.
pub open spec fn ticked(
    before: OverlayState,
    follows_game: bool,
    game_in_front: bool,
    after: OverlayState,
    effect: TickEffect,
) -> bool {
    let front = !follows_game || game_in_front;
    &&& effect.activated == (front && !before.hearthstone_was_frontmost)
    &&& effect.show == (front && !before.manually_hidden)
    &&& after.hearthstone_was_frontmost == front
    &&& after.manually_hidden == before.manually_hidden
    &&& after.interactive == before.interactive
    &&& after.popup_visible == before.popup_visible
    &&& after.requested_card_art == before.requested_card_art
}

/// What asking for the picture of a card does to the overlay, and whether it is to be fetched.
pub open spec fn asked_for_picture(
    before: OverlayState,
    card_id: Seq<char>,
    at_hand: bool,
    after: OverlayState,
    fetch: bool,
) -> bool {
    &&& fetch == (!before.requested_card_art.has(card_id) && !at_hand)
    &&& forall|id: Seq<char>| #[trigger]
        after.requested_card_art.has(id) <==> before.requested_card_art.has(id) || id == card_id
    &&& after.manually_hidden == before.manually_hidden
    &&& after.interactive == before.interactive
    &&& after.popup_visible == before.popup_visible
    &&& after.hearthstone_was_frontmost == before.hearthstone_was_frontmost
}

impl OverlayState {
    /// The overlay at the start: shown, and letting clicks through.
    pub fn new() -> (r: OverlayState)
        ensures
            r.requested_card_art.wf(),
            r.requested_card_art.elems() == Seq::<Seq<char>>::empty(),
            !r.manually_hidden && !r.interactive && !r.popup_visible
                && !r.hearthstone_was_frontmost,
    {
        OverlayState {
            manually_hidden: false,
            interactive: false,
            popup_visible: false,
            hearthstone_was_frontmost: false,
            requested_card_art: TextSet::new(),
        }
    }

    /// Follows a command.
    pub fn follow(&mut self, command: OverlayCommand) -> (r: CommandEffect)
        ensures
            followed(*old(self), command, *final(self), r),
    {
        match command {
            OverlayCommand::ToggleVisibility => {
                self.manually_hidden = !self.manually_hidden;
                CommandEffect::Nothing
            },
            OverlayCommand::ToggleInteraction => {
                self.interactive = !self.interactive;
                CommandEffect::SetInteractive(self.interactive)
            },
            OverlayCommand::ShowPopup => {
                self.popup_visible = !self.popup_visible;
                CommandEffect::Nothing
            },
            OverlayCommand::FixDeckHelp => {
                self.popup_visible = false;
                CommandEffect::ShowFixDeckHelp
            },
            OverlayCommand::Quit => CommandEffect::Stop,
        }
    }

    /// Whether the picture of a card is to be fetched: at most once, and only where it is not at
    /// hand.
    pub fn wants_card_art(&mut self, card_id: &str, at_hand: bool) -> (r: bool)
        requires
            old(self).requested_card_art.wf(),
        ensures
            final(self).requested_card_art.wf(),
            asked_for_picture(*old(self), card_id@, at_hand, *final(self), r),
    {
        if self.requested_card_art.contains(card_id) {
            return false;
        }
        self.requested_card_art.insert(text::copy(card_id));
        !at_hand
    }

    /// Decides whether the overlay is shown. Where the game is not followed, it counts as being in
    /// front.
    pub fn tick(&mut self, follows_game: bool, game_in_front: bool) -> (r: TickEffect)
        ensures
            ticked(*old(self), follows_game, game_in_front, *final(self), r),
    {
        let front = !follows_game || game_in_front;
        let activated = front && !self.hearthstone_was_frontmost;
        self.hearthstone_was_frontmost = front;
        TickEffect { activated, show: front && !self.manually_hidden }
    }
}

/// Whether an id can name the picture of a card: letters, digits and underscores of ASCII.
pub open spec fn names_picture(id: Seq<char>) -> bool {
    forall|i: int| 0 <= i < id.len() ==> picture_char(#[trigger] id[i])
}

/// Whether a character can stand in the name of a picture.
pub open spec fn picture_char(c: char) -> bool {
    'a' <= c <= 'z' || 'A' <= c <= 'Z' || '0' <= c <= '9' || c == '_'
}

/// Where the picture of a card is fetched from; `None` where the id cannot name one.
pub fn card_art_url(card_id: &str) -> (r: Option<String>)
    ensures
        match r {
            Some(url) => names_picture(card_id@) && url@
                == "https://art.hearthstonejson.com/v1/render/latest/enUS/256x/"@ + card_id@
                + ".png"@,
            None => !names_picture(card_id@),
        },
{
    let chars = text::chars_of(card_id);
    let mut i: usize = 0;
    while i < chars.len()
        invariant
            i <= chars.len(),
            chars@ == card_id@,
            forall|k: int| 0 <= k < i ==> picture_char(#[trigger] chars@[k]),
        decreases chars.len() - i,
    {
        let c = chars[i];
        if !(('a' <= c && c <= 'z') || ('A' <= c && c <= 'Z') || ('0' <= c && c <= '9') || c
            == '_') {
            assert(!picture_char(card_id@[i as int]));
            return None;
        }
        i = i + 1;
    }
    let mut url = text::copy("https://art.hearthstonejson.com/v1/render/latest/enUS/256x/");
    url.append(card_id);
    url.append(".png");
    Some(url)
}

/// What the commands for capturing ask for.
#[derive(Clone, Copy, Debug, PartialEq, Eq, Structural)]
pub struct CaptureRequest {
    pub request_permission: bool,
    pub capture_window: bool,
    pub read_deck: bool,
    pub read_offer: bool,
}

/// What a command for capturing does.
#[derive(Clone, Copy, Debug, PartialEq, Eq, Structural)]
pub enum CaptureAction {
    /// Only what is possible is reported.
    ReportOnly,
    /// Nothing is captured: the permission is missing.
    PermissionRequired,
    /// Nothing is captured: there is no window of the game.
    NoWindow,
    ReadOffer,
    ReadDeck,
    CaptureFrame,
}

impl CaptureRequest {
    /// Whether something is to be captured.
    pub open spec fn captures(self) -> bool {
        self.capture_window || self.read_deck || self.read_offer
    }

    /// Whether something is to be captured.
    pub fn attempts_capture(self) -> (r: bool)
        ensures
            r == self.captures(),
    {
        self.capture_window || self.read_deck || self.read_offer
    }

    /// Whether the permission is there: as the request for it was answered, where it was made.
    pub fn permission(self, before: bool, answered: bool) -> (r: bool)
        ensures
            r == (if self.request_permission {
                answered
            } else {
                before
            }),
    {
        if self.request_permission {
            answered
        } else {
            before
        }
    }

    /// What is done. An offer comes before the deck, and the deck before the whole window.
    pub open spec fn chosen(self, granted: bool, window_found: bool) -> CaptureAction {
        if !self.captures() {
            CaptureAction::ReportOnly
        } else if !granted {
            CaptureAction::PermissionRequired
        } else if !window_found {
            CaptureAction::NoWindow
        } else if self.read_offer {
            CaptureAction::ReadOffer
        } else if self.read_deck {
            CaptureAction::ReadDeck
        } else {
            CaptureAction::CaptureFrame
        }
    }

    /// What is done. An offer comes before the deck, and the deck before the whole window.
    pub fn action(self, granted: bool, window_found: bool) -> (r: CaptureAction)
        ensures
            r == self.chosen(granted, window_found),
    {
        if !self.attempts_capture() {
            CaptureAction::ReportOnly
        } else if !granted {
            CaptureAction::PermissionRequired
        } else if !window_found {
            CaptureAction::NoWindow
        } else if self.read_offer {
            CaptureAction::ReadOffer
        } else if self.read_deck {
            CaptureAction::ReadDeck
        } else {
            CaptureAction::CaptureFrame
        }
    }
}

/// Nothing is captured without the permission and a window.
pub proof fn captures_need_permission(request: CaptureRequest, granted: bool, window_found: bool)
    requires
        request.chosen(granted, window_found) is ReadOffer || request.chosen(
            granted,
            window_found,
        ) is ReadDeck || request.chosen(granted, window_found) is CaptureFrame,
    ensures
        granted,
        window_found,
        request.captures(),
{
}

/// What the catalog knows of a card, in one word.
pub open spec fn catalog_word(resolution: ResolutionModel) -> Seq<char> {
    match resolution {
        ResolutionModel::Resolved { .. } => "resolved"@,
        ResolutionModel::MissingMetadata { .. } => "missing"@,
        ResolutionModel::Unrevealed => "unrevealed"@,
        ResolutionModel::NonCardEntity { .. } => "non_card_entity"@,
        ResolutionModel::InvalidCardId { .. } => "invalid_id"@,
    }
}

/// What the catalog knows of a card, in one word.
pub fn catalog_status(resolution: &CardResolution) -> (r: &'static str)
    ensures
        r@ == catalog_word(resolution@),
{
    match resolution {
        CardResolution::Resolved { .. } => "resolved",
        CardResolution::MissingMetadata { .. } => "missing",
        CardResolution::Unrevealed => "unrevealed",
        CardResolution::NonCardEntity { .. } => "non_card_entity",
        CardResolution::InvalidCardId { .. } => "invalid_id",
    }
}

/// The cards of a deck of which the catalog knows nothing, with their number.
pub open spec fn unknown_cards(deck: Seq<ResolvedDeckCard>) -> Seq<(Seq<char>, u8)>
    decreases deck.len(),
{
    if deck.len() == 0 {
        Seq::empty()
    } else {
        let before = unknown_cards(deck.drop_last());
        match deck.last().resolution@ {
            ResolutionModel::MissingMetadata { card_id } => before.push(
                (card_id, deck.last().count),
            ),
            _ => before,
        }
    }
}

/// The models of cards with their number.
pub open spec fn counted_texts(v: Seq<(String, u8)>) -> Seq<(Seq<char>, u8)> {
    v.map_values(|p: (String, u8)| (p.0@, p.1))
}

/// The cards of a deck of which the catalog knows nothing, with their number.
pub fn missing_metadata(deck: &Vec<ResolvedDeckCard>) -> (r: Vec<(String, u8)>)
    ensures
        counted_texts(r@) == unknown_cards(deck@),
{
    let mut out: Vec<(String, u8)> = Vec::new();
    let mut i: usize = 0;
    assert(deck@.take(0) =~= Seq::<ResolvedDeckCard>::empty());
    assert(counted_texts(out@) =~= Seq::<(Seq<char>, u8)>::empty());
    while i < deck.len()
        invariant
            i <= deck.len(),
            counted_texts(out@) == unknown_cards(deck@.take(i as int)),
        decreases deck.len() - i,
    {
        assert(deck@.take(i + 1).drop_last() =~= deck@.take(i as int));
        assert(deck@.take(i + 1).last() == deck@[i as int]);
        match &deck[i].resolution {
            CardResolution::MissingMetadata { card_id } => {
                let ghost before = out@;
                let id = text::copy(card_id.as_str());
                let count: u8 = deck[i].count;
                out.push((id, count));
                assert(counted_texts(out@) =~= counted_texts(before).push((id@, count)));
            },
            _ => {},
        }
        i = i + 1;
    }
    assert(deck@.take(i as int) =~= deck@);
    out
}

/// The number of copies of a card in a deck, where it is in it.
pub open spec fn copies_in(deck: Seq<ResolvedDeckCard>, card_id: Seq<char>, n: int) -> Option<u8>
    decreases n,
{
    if n <= 0 {
        None
    } else {
        match copies_in(deck, card_id, n - 1) {
            Some(count) => Some(count),
            None => if deck[n - 1].card_id@ == card_id {
                Some(deck[n - 1].count)
            } else {
                None
            },
        }
    }
}

/// The number of copies of a card in a deck, where it is in it.
pub fn deck_count(deck: &Vec<ResolvedDeckCard>, card_id: &str) -> (r: Option<u8>)
    ensures
        r == copies_in(deck@, card_id@, deck@.len() as int),
{
    let mut found: Option<u8> = None;
    let mut i: usize = 0;
    while i < deck.len()
        invariant
            i <= deck.len(),
            found == copies_in(deck@, card_id@, i as int),
        decreases deck.len() - i,
    {
        if found.is_none() && text::str_eq(deck[i].card_id.as_str(), card_id) {
            found = Some(deck[i].count);
        }
        i = i + 1;
    }
    found
}

/// The Redraft that the rules describe; without them one of five picks and five discards.
pub open spec fn redraft_policy(rules: Option<ResolvedArenaRules>) -> RedraftPolicy {
    match rules {
        Some(rules) => match rules.redraft {
            Some(policy) => policy,
            None => RedraftPolicy { pick_rounds: 5, discard_count: 5 },
        },
        None => RedraftPolicy { pick_rounds: 5, discard_count: 5 },
    }
}

/// The Redraft that the rules describe; without them one of five picks and five discards.
pub fn redraft_policy_from_rules(rules: Option<&ResolvedArenaRules>) -> (r: RedraftPolicy)
    ensures
        r == redraft_policy(
            match rules {
                Some(rules) => Some(*rules),
                None => None,
            },
        ),
{
    match rules {
        Some(rules) => match &rules.redraft {
            Some(policy) => RedraftPolicy {
                pick_rounds: policy.pick_rounds,
                discard_count: policy.discard_count,
            },
            None => RedraftPolicy { pick_rounds: 5, discard_count: 5 },
        },
        None => RedraftPolicy { pick_rounds: 5, discard_count: 5 },
    }
}

/// Whether rules are to be read. A mode needs rules that describe it.
pub fn uses_arena_rules(rules: bool, mode: bool) -> (r: Result<bool, &'static str>)
    ensures
        match r {
            Ok(uses) => uses == rules && (rules || !mode),
            Err(reason) => !rules && mode && reason@ == "--arena-mode requires --arena-rules PATH"@,
        },
{
    if !rules && mode {
        return Err("--arena-mode requires --arena-rules PATH");
    }
    Ok(rules)
}

/// What is said where no session was found. Where logging is not turned on in full, the path of its
/// configuration is given.
pub fn no_session_message(incomplete_logging: Option<&str>) -> (r: String)
    ensures
        r@ == "no Hearthstone log session found; launch Hearthstone, pass --logs, or use --demo."@
            + match incomplete_logging {
            Some(path) => " Hearthstone logging is not fully enabled at "@ + path@
                + "; rerun with --enable-logging, then restart Hearthstone yourself."@,
            None => Seq::empty(),
        },
{
    let mut out = text::copy(
        "no Hearthstone log session found; launch Hearthstone, pass --logs, or use --demo.",
    );
    match incomplete_logging {
        Some(path) => {
            out.append(" Hearthstone logging is not fully enabled at ");
            out.append(path);
            out.append("; rerun with --enable-logging, then restart Hearthstone yourself.");
        },
        None => {},
    }
    assert(out@ =~= "no Hearthstone log session found; launch Hearthstone, pass --logs, or use --demo."@
        + match incomplete_logging {
        Some(path) => " Hearthstone logging is not fully enabled at "@ + path@
            + "; rerun with --enable-logging, then restart Hearthstone yourself."@,
        None => Seq::empty(),
    });
    out
}

} // verus!
