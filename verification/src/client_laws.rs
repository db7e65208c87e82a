//! What the programs answer: which step comes next, what is shown, and what is refused.
use crate::client::{
    asked_for_picture, card_art_url, followed, names_picture, next_observer_step,
    no_session_message, picture_char, ticked, uses_arena_rules, CaptureRequest, CommandEffect,
    ObserverEvent, ObserverStep, OverlayCommand, OverlayState, SharedObserverState, TickEffect,
};
use crate::daemon::{
    poll_interval_millis, select_serve_session, socket_action, socket_refusal_text, SocketAction,
    SocketProbe,
};
use crate::live::LogStaleness;
use crate::overlay::{popup_model, ExternalDraftModel};
use crate::popup::StatusPopupModel;
use crate::setup_laws::runs_tell_wins_then_losses;
use crate::snapshot::ObserverSnapshot;
use crate::state::opt_text;
use crate::text::{contains_part, decimal, occurs_at};
use vstd::prelude::*;

verus! {

/// A failure is followed by another try to attach, at least a second later, and everything else by
/// a poll: at once where the logs were just attached, else after a quarter of a second.
pub proof fn failures_lead_to_another_attach(event: ObserverEvent, r: (ObserverStep, u64))
    requires
        call_ensures(next_observer_step, (event,), r),
    ensures
        r.0 is Attach <==> event is AttachFailed || event is PollFailed,
        r.0 is Poll <==> event is Attached || event is Polled,
        r.0 is Attach <==> r.1 >= 1000,
        r.1 == 0 <==> event is Attached,
        event is Polled ==> r.1 == 250,
        r.0 is Attach ==> r.1 == 1000,
{
}

/// The socket is taken where nothing answers on it: at once where nothing is there, and after it
/// is removed where it was left behind. It is never removed in any other case.
pub proof fn sockets_are_taken_where_nobody_answers(probe: SocketProbe, r: SocketAction)
    requires
        call_ensures(socket_action, (probe,), r),
    ensures
        r is Bind <==> probe is Nothing,
        r is RemoveAndBind <==> probe is Stale,
        r is Refuse <==> !(probe is Nothing) && !(probe is Stale),
{
}

/// Polls are at least a tenth of a second apart, and no further apart than was asked for beyond
/// that.
pub proof fn polls_are_a_tenth_of_a_second_apart(asked: u64, r: u64)
    requires
        call_ensures(poll_interval_millis, (asked,), r),
    ensures
        r >= 100,
        r >= asked,
        r == 100 || r == asked,
{
}

/// The session that is served is the one the user gave, and then no other is looked for. Else it
/// is the newest that is live, else the latest, and there the log root is watched on.
pub proof fn given_sessions_are_served_first(
    explicit: Option<String>,
    log_root: Option<String>,
    newest: Option<String>,
    latest: Option<String>,
    r: Result<(String, Option<String>), &'static str>,
)
    requires
        call_ensures(select_serve_session, (explicit, log_root, newest, latest), r),
    ensures
        r is Ok <==> explicit is Some || newest is Some || latest is Some,
        r matches Ok((session, root)) ==> {
            &&& explicit matches Some(e) ==> session@ == e@ && root is None
            &&& explicit is None && newest is Some ==> session@ == newest->0@
            &&& explicit is None && newest is None ==> session@ == latest->0@
            &&& explicit is None ==> opt_text(root) == opt_text(log_root)
        },
{
}

/// A mode of the Arena can be asked for only together with its rules.
pub proof fn modes_need_their_rules(rules: bool, mode: bool, r: Result<bool, &'static str>)
    requires
        call_ensures(uses_arena_rules, (rules, mode), r),
    ensures
        r is Err <==> mode && !rules,
        r == Ok::<bool, &'static str>(true) <==> rules,
{
}

/// The popup shows the game as running where a mode is known, the deck and its hero as they stand
/// in the snapshot, and the pick of thirty where one is made. A run counts as active in an Arena
/// whose phase is known and is not that of the rewards.
pub proof fn popups_show_the_snapshot(
    s: ObserverSnapshot,
    shown: bool,
    clickable: bool,
    r: StatusPopupModel,
)
    requires
        call_ensures(popup_model, (&s, shown, clickable), r),
    ensures
        r.hearthstone is Running <==> !(s.mode is Unknown),
        r.hearthstone is NotDetected <==> s.mode is Unknown,
        r.deck.hero is Some <==> s.hero_class is Some,
        r.deck.observed == s.deck_state.observed_slots,
        r.deck.expected == s.deck_state.expected_slots,
        r.pick_progress is Some <==> s.draft.pick_number > 0,
        r.pick_progress matches Some(p) ==> p.current == s.draft.pick_number && p.total == 30,
        r.active_run <==> s.mode is Arena && !(r.arena_phase is Unknown)
            && !(r.arena_phase is Rewards),
        r.overlay_visible == shown,
        r.interaction_enabled == clickable,
{
}

/// Each state of the game is called by its own words.
pub proof fn states_of_the_game_are_told_apart(m: StatusPopupModel, r: &'static str)
    requires
        call_ensures(StatusPopupModel::hearthstone_label, (&m,), r),
    ensures
        r@ == "Running"@ <==> m.hearthstone is Running,
        r@ == "Not detected"@ <==> m.hearthstone is NotDetected,
        r@ == "Permission required"@ <==> m.hearthstone is PermissionRequired,
{
    reveal_strlit("Running");
    reveal_strlit("Not detected");
    reveal_strlit("Permission required");
    assert("Running"@.len() == 7 && "Not detected"@.len() == 12 && "Permission required"@.len()
        == 19);
}

/// A run is told by its wins and losses while it is active, and only then.
pub proof fn runs_are_told_while_they_last(m: StatusPopupModel, r: String)
    requires
        call_ensures(StatusPopupModel::run_label, (&m,), r),
    ensures
        !m.active_run ==> r@ == "Not active"@,
        m.active_run ==> occurs_at(r@, decimal(m.run.wins as nat), 0),
{
    if m.active_run {
        runs_tell_wins_then_losses(m.run);
    }
}

/// A picture is fetched only for an id of letters, digits and underscores, and its address ends in
/// that id.
pub proof fn pictures_are_fetched_by_id(id: &str, r: Option<String>)
    requires
        call_ensures(card_art_url, (id,), r),
    ensures
        r is Some <==> forall|i: int|
            0 <= i < id@.len() ==> {
                let c = #[trigger] id@[i];
                ('a' <= c && c <= 'z') || ('A' <= c && c <= 'Z') || ('0' <= c && c <= '9') || c
                    == '_'
            },
        r matches Some(url) ==> occurs_at(url@, id@, url@.len() - id@.len() - 4) && occurs_at(
            url@,
            "https://art.hearthstonejson.com/v1/render/latest/enUS/256x/"@,
            0,
        ) && occurs_at(url@, ".png"@, url@.len() - 4),
{
    reveal_strlit(".png");
    let head = "https://art.hearthstonejson.com/v1/render/latest/enUS/256x/"@;
    if let Some(url) = r {
        assert(url@.subrange(url@.len() - id@.len() - 4, url@.len() - 4) =~= id@);
        assert(url@.subrange(0, head.len() as int) =~= head);
        assert(url@.subrange(url@.len() - 4, url@.len() as int) =~= ".png"@);
    }
    if names_picture(id@) {
        assert forall|i: int| 0 <= i < id@.len() implies {
            let c = #[trigger] id@[i];
            ('a' <= c && c <= 'z') || ('A' <= c && c <= 'Z') || ('0' <= c && c <= '9') || c == '_'
        } by {
            assert(picture_char(id@[i]));
        }
    }
}

/// Whether the screen may be read is as it was answered where it was asked, and as it was before
/// where it was not.
pub proof fn permissions_are_as_answered(c: CaptureRequest, before: bool, answered: bool, r: bool)
    requires
        call_ensures(CaptureRequest::permission, (c, before, answered), r),
    ensures
        c.request_permission ==> r == answered,
        !c.request_permission ==> r == before,
{
}

/// The message that no session was found tells where the logging is not turned on, if that is so.
pub proof fn missing_sessions_tell_of_the_logging(path: Option<&str>, r: String)
    requires
        call_ensures(no_session_message, (path,), r),
    ensures
        occurs_at(
            r@,
            "no Hearthstone log session found; launch Hearthstone, pass --logs, or use --demo."@,
            0,
        ),
        path is None ==> r@.len()
            == "no Hearthstone log session found; launch Hearthstone, pass --logs, or use --demo."@.len(),
        path matches Some(p) ==> contains_part(r@, p@),
{
    let head =
        "no Hearthstone log session found; launch Hearthstone, pass --logs, or use --demo."@;
    assert(r@.subrange(0, head.len() as int) =~= head);
    if let Some(p) = path {
        let at = head.len() + " Hearthstone logging is not fully enabled at "@.len();
        assert(r@.subrange(at as int, (at + p@.len()) as int) =~= p@);
        assert(occurs_at(r@, p@, at as int));
    }
}

/// A toggle that is followed twice leaves the overlay as it was. Each command changes its own
/// switch alone, help hides the popup, and only one command stops the program.
pub proof fn toggles_undo_themselves(
    first: OverlayState,
    command: OverlayCommand,
    second: OverlayState,
    third: OverlayState,
    effect: CommandEffect,
    next: CommandEffect,
)
    requires
        followed(first, command, second, effect),
        followed(second, command, third, next),
    ensures
        !(command is FixDeckHelp) ==> third == first,
        command is FixDeckHelp ==> third == second && !second.popup_visible,
        second.manually_hidden != first.manually_hidden <==> command is ToggleVisibility,
        second.interactive != first.interactive <==> command is ToggleInteraction,
        command is ShowPopup ==> second.popup_visible != first.popup_visible,
        second.popup_visible && !first.popup_visible ==> command is ShowPopup,
        effect is Stop <==> command is Quit,
        effect is ShowFixDeckHelp <==> command is FixDeckHelp,
        command is ToggleInteraction <==> effect == CommandEffect::SetInteractive(second.interactive),
        command is Quit ==> second == first,
{
}

/// The overlay is shown while the game is in front and it was not hidden by hand. The game counts
/// as activated at the first tick at which it is in front, and where it is not followed it counts
/// as being in front.
pub proof fn overlays_follow_the_game(
    before: OverlayState,
    follows: bool,
    in_front: bool,
    between: OverlayState,
    first: TickEffect,
    after: OverlayState,
    second: TickEffect,
)
    requires
        ticked(before, follows, in_front, between, first),
        ticked(between, follows, in_front, after, second),
    ensures
        first.show <==> !before.manually_hidden && (in_front || !follows),
        !second.activated,
        !before.hearthstone_was_frontmost ==> (first.activated <==> in_front || !follows),
        before.hearthstone_was_frontmost ==> !first.activated,
        after == between,
        between.manually_hidden == before.manually_hidden,
        between.interactive == before.interactive,
        between.popup_visible == before.popup_visible,
{
}

/// A picture is fetched at most once, and never where it is at hand. Asking for one leaves the
/// others to be asked for.
pub proof fn pictures_are_fetched_once(
    before: OverlayState,
    id: Seq<char>,
    at_hand: bool,
    between: OverlayState,
    first: bool,
    other: Seq<char>,
    again: bool,
    after: OverlayState,
    second: bool,
)
    requires
        asked_for_picture(before, id, at_hand, between, first),
        asked_for_picture(between, other, again, after, second),
    ensures
        other == id ==> !second,
        at_hand ==> !first,
        before.requested_card_art.has(id) ==> !first,
        !before.requested_card_art.has(id) && !at_hand ==> first,
        other != id ==> second == (!before.requested_card_art.has(other) && !again),
{
    assert(between.requested_card_art.has(id));
    assert(between.requested_card_art.has(other) <==> before.requested_card_art.has(other) || other
        == id);
}

/// A failure keeps the last snapshot and takes back what was read off the screen. A reading ends
/// the error before it.
pub proof fn failures_keep_the_last_snapshot<O>(
    before: SharedObserverState<O>,
    error: String,
    saving_error: Option<String>,
    snapshot: ObserverSnapshot,
    external: Option<ExternalDraftModel>,
    offer: Option<O>,
    staleness: LogStaleness,
)
    ensures
        ({
            let unread = before.unread(error, saving_error);
            let unattached = before.unattached(error);
            let read = SharedObserverState::<O>::published(
                snapshot,
                saving_error,
                external,
                offer,
                staleness,
            );
            &&& unread.snapshot == before.snapshot && unattached.snapshot == before.snapshot
            &&& unread.last_error == Some(error) && unattached.last_error == Some(error)
            &&& unread.external_draft is None && unattached.external_draft is None
            &&& unread.offer_overlay is None && unattached.offer_overlay is None
            &&& unread.log_staleness == before.log_staleness
            &&& unattached.log_staleness is NoLogs
            &&& unread.checkpoint_error == saving_error
            &&& unattached.checkpoint_error == before.checkpoint_error
            &&& read.last_error is None
            &&& read.snapshot == snapshot
            &&& read.external_draft == external
            &&& read.offer_overlay == offer
            &&& read.checkpoint_error == saving_error
            &&& read.log_staleness == staleness
        }),
{
}

/// A socket that is not taken is refused with its path and a reason of its own.
pub proof fn refused_sockets_are_named(probe: SocketProbe, path: Seq<char>)
    ensures
        socket_refusal_text(probe, path) is Some <==> probe is OtherFile || probe is Live || probe
            is Unknown,
        socket_refusal_text(probe, path) matches Some(t) ==> contains_part(t, path),
        socket_refusal_text(probe, path) matches Some(t) ==> (match probe {
            SocketProbe::OtherFile => occurs_at(t, "refusing to replace non-socket path "@, 0),
            SocketProbe::Live => occurs_at(
                t,
                "a live local service is already listening at "@,
                0,
            ),
            _ => occurs_at(t, "could not verify whether the existing socket "@, 0),
        }),
{
    if let Some(t) = socket_refusal_text(probe, path) {
        let head = match probe {
            SocketProbe::OtherFile => "refusing to replace non-socket path "@,
            SocketProbe::Live => "a live local service is already listening at "@,
            _ => "could not verify whether the existing socket "@,
        };
        let n = head.len() as int;
        assert(t.subrange(0, n) =~= head);
        assert(t.subrange(n, n + path.len()) =~= path);
        assert(occurs_at(t, path, n));
    }
}

} // verus!
