//! The Arena facts that the log reducer keeps and hands out.

use vstd::prelude::*;

use crate::text::texts;

verus! {

/// A hero class.
#[derive(Clone, Copy, Debug, PartialEq, Eq, PartialOrd, Ord, Structural)]
pub enum HeroClass {
    DeathKnight,
    DemonHunter,
    Druid,
    Hunter,
    Mage,
    Paladin,
    Priest,
    Rogue,
    Shaman,
    Warlock,
    Warrior,
}

/// The screen family that Hearthstone shows.
#[derive(Clone, Copy, Debug, PartialEq, Eq, Structural)]
pub enum GameMode {
    Unknown,
    Arena,
    Other,
}

/// How a game ended.
#[derive(Clone, Copy, Debug, PartialEq, Eq, Structural)]
pub enum GameResult {
    Unknown,
}

/// One card of a deck, with its number of copies.
#[derive(Clone, Debug, PartialEq, Eq)]
pub struct DeckCard {
    pub card_id: String,
    pub count: u8,
}

/// One card of a deck, over texts.
pub struct EntryModel {
    pub card_id: Seq<char>,
    pub count: u8,
}

impl View for DeckCard {
    type V = EntryModel;

    open spec fn view(&self) -> EntryModel {
        EntryModel { card_id: self.card_id@, count: self.count }
    }
}

/// The cards of a deck, over texts.
pub open spec fn deck_model(deck: Seq<DeckCard>) -> Seq<EntryModel> {
    deck.map_values(|c: DeckCard| c@)
}

/// What one log record says.
#[derive(Clone, Debug, PartialEq, Eq)]
pub enum GameEvent {
    ArenaDeckSnapshotStarted { draft_deck_id: String, hero_card_id: Option<String> },
    ArenaDeckSnapshotCard { card_id: String },
    ArenaDeckSnapshotCompleted,
    ArenaRunStarted { draft_deck_id: String },
    ArenaPick { card_id: String },
    ArenaDraftMode { mode: String },
    ArenaAuthoritativeResync {
        draft_deck_id: String,
        hero_card_id: Option<String>,
        card_ids: Vec<String>,
        draft_mode: Option<String>,
    },
    DeckList { card_ids: Vec<String> },
    HeroCard { card_id: String },
    GameMode { raw_mode: String },
    GameStarted,
    GameEnded { result: GameResult },
}

/// What one log record says, over texts.
pub enum EventModel {
    ArenaDeckSnapshotStarted { draft_deck_id: Seq<char>, hero_card_id: Option<Seq<char>> },
    ArenaDeckSnapshotCard { card_id: Seq<char> },
    ArenaDeckSnapshotCompleted,
    ArenaRunStarted { draft_deck_id: Seq<char> },
    ArenaPick { card_id: Seq<char> },
    ArenaDraftMode { mode: Seq<char> },
    ArenaAuthoritativeResync {
        draft_deck_id: Seq<char>,
        hero_card_id: Option<Seq<char>>,
        card_ids: Seq<Seq<char>>,
        draft_mode: Option<Seq<char>>,
    },
    DeckList { card_ids: Seq<Seq<char>> },
    HeroCard { card_id: Seq<char> },
    GameMode { raw_mode: Seq<char> },
    GameStarted,
    GameEnded { result: GameResult },
}

/// The text of an optional string.
pub open spec fn opt_text(s: Option<String>) -> Option<Seq<char>> {
    match s {
        Some(t) => Some(t@),
        None => None,
    }
}

impl View for GameEvent {
    type V = EventModel;

    open spec fn view(&self) -> EventModel {
        match *self {
            GameEvent::ArenaDeckSnapshotStarted { draft_deck_id, hero_card_id } =>
                EventModel::ArenaDeckSnapshotStarted {
                    draft_deck_id: draft_deck_id@,
                    hero_card_id: opt_text(hero_card_id),
                },
            GameEvent::ArenaDeckSnapshotCard { card_id } => EventModel::ArenaDeckSnapshotCard {
                card_id: card_id@,
            },
            GameEvent::ArenaDeckSnapshotCompleted => EventModel::ArenaDeckSnapshotCompleted,
            GameEvent::ArenaRunStarted { draft_deck_id } => EventModel::ArenaRunStarted {
                draft_deck_id: draft_deck_id@,
            },
            GameEvent::ArenaPick { card_id } => EventModel::ArenaPick { card_id: card_id@ },
            GameEvent::ArenaDraftMode { mode } => EventModel::ArenaDraftMode { mode: mode@ },
            GameEvent::ArenaAuthoritativeResync {
                draft_deck_id,
                hero_card_id,
                card_ids,
                draft_mode,
            } => EventModel::ArenaAuthoritativeResync {
                draft_deck_id: draft_deck_id@,
                hero_card_id: opt_text(hero_card_id),
                card_ids: texts(card_ids@),
                draft_mode: opt_text(draft_mode),
            },
            GameEvent::DeckList { card_ids } => EventModel::DeckList { card_ids: texts(card_ids@) },
            GameEvent::HeroCard { card_id } => EventModel::HeroCard { card_id: card_id@ },
            GameEvent::GameMode { raw_mode } => EventModel::GameMode { raw_mode: raw_mode@ },
            GameEvent::GameStarted => EventModel::GameStarted,
            GameEvent::GameEnded { result } => EventModel::GameEnded { result },
        }
    }
}

/// What a sequence of events says.
pub open spec fn event_models(events: Seq<GameEvent>) -> Seq<EventModel> {
    events.map_values(|e: GameEvent| e@)
}

/// The physical log line that an event was read from.
#[derive(Clone, Debug, PartialEq, Eq)]
pub struct EventSource {
    pub session_id: String,
    pub component: String,
    pub byte_offset: u64,
    pub line_hash: u64,
}

/// A physical log line, over texts.
pub struct SourceModel {
    pub session_id: Seq<char>,
    pub component: Seq<char>,
    pub byte_offset: u64,
    pub line_hash: u64,
}

impl View for EventSource {
    type V = SourceModel;

    open spec fn view(&self) -> SourceModel {
        SourceModel {
            session_id: self.session_id@,
            component: self.component@,
            byte_offset: self.byte_offset,
            line_hash: self.line_hash,
        }
    }
}

} // verus!
