//! The status popup: its labels and rows. Native hosts only draw it.
use crate::state::opt_text;
use crate::text::{self, decimal};
use vstd::prelude::*;

verus! {

/// Whether the game is there.
#[derive(Clone, Copy, Debug, PartialEq, Eq, Structural)]
pub enum HearthstoneStatus {
    Running,
    NotDetected,
    PermissionRequired,
}

impl Default for HearthstoneStatus {
    fn default() -> (r: Self)
        ensures
            r == HearthstoneStatus::NotDetected,
    {
        HearthstoneStatus::NotDetected
    }
}

/// Where the player is in an Arena run.
#[derive(Clone, Copy, Debug, PartialEq, Eq, Structural)]
pub enum ArenaPhase {
    Unknown,
    Draft,
    Redraft,
    ActiveDeck,
    Rewards,
}

impl Default for ArenaPhase {
    fn default() -> (r: Self)
        ensures
            r == ArenaPhase::Unknown,
    {
        ArenaPhase::Unknown
    }
}

/// The words for a phase.
pub open spec fn phase_text(phase: ArenaPhase) -> Seq<char> {
    match phase {
        ArenaPhase::Unknown => "Unknown"@,
        ArenaPhase::Draft => "Draft"@,
        ArenaPhase::Redraft => "Redraft"@,
        ArenaPhase::ActiveDeck => "Active deck"@,
        ArenaPhase::Rewards => "Rewards"@,
    }
}

impl ArenaPhase {
    /// The words for the phase.
    pub fn label(self) -> (r: &'static str)
        ensures
            r@ == phase_text(self),
    {
        match self {
            ArenaPhase::Unknown => "Unknown",
            ArenaPhase::Draft => "Draft",
            ArenaPhase::Redraft => "Redraft",
            ArenaPhase::ActiveDeck => "Active deck",
            ArenaPhase::Rewards => "Rewards",
        }
    }
}

/// Which pick of how many.
#[derive(Clone, Copy, Debug, PartialEq, Eq, Structural)]
pub struct Progress {
    pub current: u8,
    pub total: u8,
}

impl Default for Progress {
    fn default() -> (r: Self)
        ensures
            r == (Progress { current: 0, total: 0 }),
    {
        Progress { current: 0, total: 0 }
    }
}

/// The words for progress. Progress that is not known never looks like none.
pub open spec fn progress_text(p: Progress) -> Seq<char> {
    if p.total == 0 || p.current == 0 {
        "Unknown"@
    } else {
        decimal(p.current as nat) + " / "@ + decimal(p.total as nat)
    }
}

impl Progress {
    /// The words for the progress.
    pub fn label(&self) -> (r: String)
        ensures
            r@ == progress_text(*self),
    {
        if self.total == 0 || self.current == 0 {
            return text::copy("Unknown");
        }
        let mut r = text::decimal_text(self.current as u64);
        r.append(" / ");
        text::push_decimal(&mut r, self.total as u64);
        r
    }
}

/// The games of a run.
#[derive(Clone, Copy, Debug, PartialEq, Eq, Structural)]
pub struct RunStats {
    pub wins: u16,
    pub losses: u16,
}

impl Default for RunStats {
    fn default() -> (r: Self)
        ensures
            r == (RunStats { wins: 0, losses: 0 }),
    {
        RunStats { wins: 0, losses: 0 }
    }
}

/// The score of a run.
pub open spec fn run_text(run: RunStats) -> Seq<char> {
    decimal(run.wins as nat) + "–"@ + decimal(run.losses as nat)
}

impl RunStats {
    /// The score of the run.
    pub fn label(&self) -> (r: String)
        ensures
            r@ == run_text(*self),
    {
        let mut r = text::decimal_text(self.wins as u64);
        r.append("–");
        text::push_decimal(&mut r, self.losses as u64);
        r
    }
}

/// How much of the deck is known.
#[derive(Clone, Debug, PartialEq, Eq)]
pub struct DeckSummary {
    pub hero: Option<String>,
    pub observed: u16,
    pub expected: Option<u16>,
}

impl Default for DeckSummary {
    fn default() -> (r: Self)
        ensures
            r == (DeckSummary { hero: None, observed: 0, expected: None }),
    {
        DeckSummary { hero: None, observed: 0, expected: None }
    }
}

/// The words for how much of the deck is known.
pub open spec fn deck_text(deck: DeckSummary) -> Seq<char> {
    let hero = match opt_text(deck.hero) {
        Some(h) => h,
        None => "Unknown hero"@,
    };
    match deck.expected {
        Some(expected) => hero + " · "@ + decimal(deck.observed as nat) + "/"@ + decimal(
            expected as nat,
        ) + " observed"@,
        None => hero + " · "@ + decimal(deck.observed as nat) + " observed"@,
    }
}

impl DeckSummary {
    /// The words for how much of the deck is known.
    pub fn label(&self) -> (r: String)
        ensures
            r@ == deck_text(*self),
    {
        let mut r = match &self.hero {
            Some(hero) => hero.clone(),
            None => text::copy("Unknown hero"),
        };
        r.append(" · ");
        text::push_decimal(&mut r, self.observed as u64);
        if let Some(expected) = self.expected {
            r.append("/");
            text::push_decimal(&mut r, expected as u64);
        }
        r.append(" observed");
        r
    }
}

/// What a button of the popup does.
#[derive(Clone, Copy, Debug, PartialEq, Eq, Structural)]
pub enum PopupCommand {
    ShowOverlay,
    HideOverlay,
    ToggleInteraction,
    OpenSettings,
    Quit,
}

/// What the status popup shows.
#[derive(Clone, Debug, PartialEq, Eq)]
pub struct StatusPopupModel {
    pub hearthstone: HearthstoneStatus,
    pub deck: DeckSummary,
    pub arena_phase: ArenaPhase,
    pub pick_progress: Option<Progress>,
    pub run: RunStats,
    /// A score of no games can be that of a fresh run or of none.
    pub active_run: bool,
    pub overlay_visible: bool,
    pub interaction_enabled: bool,
}

impl Default for StatusPopupModel {
    fn default() -> (r: Self)
        ensures
            r.hearthstone == HearthstoneStatus::NotDetected,
            r.deck == (DeckSummary { hero: None, observed: 0, expected: None }),
            r.arena_phase == ArenaPhase::Unknown,
            r.pick_progress is None,
            r.run == (RunStats { wins: 0, losses: 0 }),
            !r.active_run && !r.overlay_visible && !r.interaction_enabled,
    {
        StatusPopupModel {
            hearthstone: HearthstoneStatus::default(),
            deck: DeckSummary::default(),
            arena_phase: ArenaPhase::default(),
            pick_progress: None,
            run: RunStats::default(),
            active_run: false,
            overlay_visible: false,
            interaction_enabled: false,
        }
    }
}

/// One row of the popup.
#[derive(Clone, Debug, PartialEq, Eq)]
pub struct PopupRow {
    pub label: &'static str,
    pub value: String,
}

/// The words for the pick that is due.
pub open spec fn pick_text(progress: Option<Progress>) -> Seq<char> {
    match progress {
        Some(p) => progress_text(p),
        None => "Unknown"@,
    }
}

/// One row as a line of text.
pub open spec fn row_text(label: Seq<char>, value: Seq<char>) -> Seq<char> {
    "\n"@ + label + "  "@ + value
}

impl StatusPopupModel {
    /// The popup as plain text, for hosts without a painter.
    pub fn display_text(&self) -> (r: String)
        ensures
            r@ == "HearthAI"@ + "\n"@ + row_text("Active deck"@, deck_text(self.deck)) + row_text(
                "Mode"@,
                phase_text(self.arena_phase),
            ) + row_text("Pick"@, pick_text(self.pick_progress)),
    {
        let rows = self.rows();
        let mut r = text::copy("HearthAI");
        r.append("\n");
        let ghost title = r@;
        push_row(&mut r, &rows[0]);
        push_row(&mut r, &rows[1]);
        push_row(&mut r, &rows[2]);
        r
    }

    /// The words for the game.
    pub fn hearthstone_label(&self) -> (r: &'static str)
        ensures
            r@ == (match self.hearthstone {
                HearthstoneStatus::Running => "Running"@,
                HearthstoneStatus::NotDetected => "Not detected"@,
                HearthstoneStatus::PermissionRequired => "Permission required"@,
            }),
    {
        match self.hearthstone {
            HearthstoneStatus::Running => "Running",
            HearthstoneStatus::NotDetected => "Not detected",
            HearthstoneStatus::PermissionRequired => "Permission required",
        }
    }

    /// The words for the pick that is due.
    pub fn pick_label(&self) -> (r: String)
        ensures
            r@ == pick_text(self.pick_progress),
    {
        match &self.pick_progress {
            Some(p) => p.label(),
            None => text::copy("Unknown"),
        }
    }

    /// The words for the run.
    pub fn run_label(&self) -> (r: String)
        ensures
            r@ == if self.active_run {
                run_text(self.run)
            } else {
                "Not active"@
            },
    {
        if self.active_run {
            self.run.label()
        } else {
            text::copy("Not active")
        }
    }

    /// The rows of the popup.
    pub fn rows(&self) -> (r: [PopupRow; 3])
        ensures
            r@[0].label@ == "Active deck"@ && r@[0].value@ == deck_text(self.deck),
            r@[1].label@ == "Mode"@ && r@[1].value@ == phase_text(self.arena_phase),
            r@[2].label@ == "Pick"@ && r@[2].value@ == pick_text(self.pick_progress),
    {
        [
            PopupRow { label: "Active deck", value: self.deck.label() },
            PopupRow { label: "Mode", value: text::copy(self.arena_phase.label()) },
            PopupRow { label: "Pick", value: self.pick_label() },
        ]
    }
}

fn push_row(out: &mut String, row: &PopupRow)
    ensures
        final(out)@ == old(out)@ + row_text(row.label@, row.value@),
{
    out.append("\n");
    out.append(row.label);
    out.append("  ");
    out.append(row.value.as_str());
    assert(out@ =~= old(out)@ + row_text(row.label@, row.value@));
}

/// The width of the popup, in points.
pub const POPUP_WIDTH: u32 = 320;

/// The height of the popup, in points.
pub const POPUP_HEIGHT: u32 = 220;

/// A part of the popup, in points from its corner.
#[derive(Clone, Copy, Debug, PartialEq, Eq, Structural)]
pub struct Rect {
    pub x: u32,
    pub y: u32,
    pub width: u32,
    pub height: u32,
}

/// The parts of the popup.
#[derive(Clone, Copy, Debug, PartialEq, Eq)]
pub struct PopupLayout {
    pub bounds: Rect,
    pub icon: Rect,
    pub rows: [Rect; 3],
    pub overlay_button: Rect,
    pub settings_button: Rect,
    pub quit_button: Rect,
}

/// Whether a part lies inside another one.
pub open spec fn fits_inside(part: Rect, whole: Rect) -> bool {
    &&& whole.x <= part.x
    &&& whole.y <= part.y
    &&& part.x + part.width <= whole.x + whole.width
    &&& part.y + part.height <= whole.y + whole.height
}

/// A part at a place.
pub open spec fn rect_at(x: u32, y: u32, width: u32, height: u32) -> Rect {
    Rect { x, y, width, height }
}

/// The parts of the popup. All of them lie inside it.
pub fn layout() -> (r: PopupLayout)
    ensures
        r.bounds == rect_at(0, 0, POPUP_WIDTH, POPUP_HEIGHT),
        r.icon == rect_at(16, 16, 48, 48),
        r.rows@[0] == rect_at(78, 100, 226, 22),
        r.rows@[1] == rect_at(78, 124, 226, 22),
        r.rows@[2] == rect_at(78, 148, 226, 22),
        r.overlay_button == rect_at(16, 194, 116, 20),
        r.settings_button == rect_at(140, 194, 82, 20),
        r.quit_button == rect_at(230, 194, 74, 20),
        fits_inside(r.icon, r.bounds),
        forall|i: int| 0 <= i < 3 ==> fits_inside(#[trigger] r.rows@[i], r.bounds),
        fits_inside(r.overlay_button, r.bounds),
        fits_inside(r.settings_button, r.bounds),
        fits_inside(r.quit_button, r.bounds),
{
    PopupLayout {
        bounds: Rect { x: 0, y: 0, width: POPUP_WIDTH, height: POPUP_HEIGHT },
        icon: Rect { x: 16, y: 16, width: 48, height: 48 },
        rows: [
            Rect { x: 78, y: 100, width: 226, height: 22 },
            Rect { x: 78, y: 124, width: 226, height: 22 },
            Rect { x: 78, y: 148, width: 226, height: 22 },
        ],
        overlay_button: Rect { x: 16, y: 194, width: 116, height: 20 },
        settings_button: Rect { x: 140, y: 194, width: 82, height: 20 },
        quit_button: Rect { x: 230, y: 194, width: 74, height: 20 },
    }
}

} // verus!
