use arena_next::popup::{
    layout, ArenaPhase, DeckSummary, HearthstoneStatus, Progress, RunStats, StatusPopupModel,
    POPUP_HEIGHT, POPUP_WIDTH,
};

#[test]
fn popup_rows_are_truthful_and_cross_platform() {
    let model = StatusPopupModel {
        hearthstone: HearthstoneStatus::Running,
        deck: DeckSummary { hero: Some("Mage".into()), observed: 25, expected: Some(30) },
        arena_phase: ArenaPhase::Redraft,
        pick_progress: Some(Progress { current: 3, total: 5 }),
        run: RunStats { wins: 4, losses: 1 },
        ..Default::default()
    };
    let rows = model.rows();
    assert_eq!(rows[0].value, "Mage \u{b7} 25/30 observed");
    assert_eq!(rows[1].value, "Redraft");
    assert_eq!(rows[2].value, "3 / 5");
    assert_eq!(layout().bounds.width, POPUP_WIDTH);
}

#[test]
fn unknown_progress_never_looks_like_zero() {
    assert_eq!(Progress::default().label(), "Unknown");
    assert_eq!(StatusPopupModel::default().pick_label(), "Unknown");
    assert_eq!(StatusPopupModel::default().run_label(), "Not active");
}

#[test]
fn controls_fit_inside_popup() {
    let l = layout();
    for rect in [l.overlay_button, l.settings_button, l.quit_button] {
        assert!(rect.x + rect.width <= l.bounds.width);
        assert!(rect.y + rect.height <= l.bounds.height);
    }
    assert_eq!(l.bounds.height, POPUP_HEIGHT);
}

#[test]
fn the_popup_reads_as_plain_text() {
    let mut model = StatusPopupModel::default();
    assert_eq!(model.hearthstone_label(), "Not detected");
    model.active_run = true;
    assert_eq!(model.run_label(), "0\u{2013}0");
    assert!(model.display_text().contains("Unknown"));
    assert_eq!(RunStats { wins: 4, losses: 1 }.label(), "4\u{2013}1");
    assert_eq!(
        DeckSummary { hero: None, observed: 12, expected: None }.label(),
        "Unknown hero \u{b7} 12 observed"
    );
}
