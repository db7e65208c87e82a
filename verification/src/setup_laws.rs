//! How the mode, the paths and the steps of the programs are chosen.
use crate::card_data::ResolutionModel;
use crate::card_laws::{blank, trimming_takes_white_space_only};
use crate::client::{catalog_word, copies_in, redraft_policy, unknown_cards, CaptureRequest};
use crate::daemon::{part_place, serve_action, version_in_url, ServeEvent};
use crate::ini::char_place_is_first;
use crate::paths::{
    below, configured, coverage, discover_macos, existing_logs, first_with, install_places,
    installed, is_latest_session, log_config_places, log_root_of, log_root_places, offers,
    with_override, GamePaths, PathFact, PathOverrides, SessionFacts, Wanted, LOG_COMPONENTS,
};
use crate::popup::{pick_text, progress_text, run_text, Progress, RunStats};
use crate::rules::{
    canonical, first_mode_fault, manifest_fault, mode_fault, mode_ids, place_of, rules_text,
    selected_mode, ArenaModeRules, ArenaRulesManifest, ResolvedArenaRules, RulesError,
};
use crate::snapshot::ResolvedDeckCard;
use crate::state::opt_text;
use crate::text::{contains_part, decimal, occurs_at, texts, trimmed};
use crate::text_map::TextMap;
use vstd::prelude::*;

verus! {

/// Whether two characters are the same up to the case of a letter.
pub open spec fn same_letter(a: char, b: char) -> bool {
    ||| a == b
    ||| 'A' <= a <= 'Z' && b as int == a as int + 32
    ||| 'A' <= b <= 'Z' && a as int == b as int + 32
}

/// Whether two names are the same up to letter case and the white space around them.
pub open spec fn same_name(a: Seq<char>, b: Seq<char>) -> bool {
    let x = trimmed(a);
    let y = trimmed(b);
    x.len() == y.len() && forall|i: int| 0 <= i < x.len() ==> same_letter(#[trigger] x[i], y[i])
}

/// Mode names are compared without regard to letter case and to the white space around them.
pub proof fn names_are_compared_without_case(a: Seq<char>, b: Seq<char>)
    ensures
        canonical(a) == canonical(b) <==> same_name(a, b),
        canonical(a).len() == 0 <==> blank(a),
{
    let x = trimmed(a);
    let y = trimmed(b);
    trimming_takes_white_space_only(a);
    if canonical(a) == canonical(b) {
        assert(canonical(a).len() == x.len() && canonical(b).len() == y.len());
        assert forall|i: int| 0 <= i < x.len() implies same_letter(#[trigger] x[i], y[i]) by {
            assert(canonical(a)[i] == canonical(b)[i]);
        }
    }
    if same_name(a, b) {
        assert forall|i: int| 0 <= i < x.len() implies canonical(a)[i] == canonical(b)[i] by {
            assert(same_letter(x[i], y[i]));
        }
        assert(canonical(a) =~= canonical(b));
    }
}

/// Whether a mode can be used: it has a name that no mode before it has, room for cards, and a
/// Redraft with picks and discards, if any.
pub open spec fn usable_mode(modes: Seq<ArenaModeRules>, i: int) -> bool {
    &&& !blank(modes[i].id@)
    &&& modes[i].expected_deck_slots > 0
    &&& modes[i].redraft matches Some(p) ==> p.pick_rounds > 0 && p.discard_count > 0
    &&& forall|j: int| 0 <= j < i ==> !same_name((#[trigger] modes[j]).id@, modes[i].id@)
}

proof fn faultless_modes_are_usable(modes: Seq<ArenaModeRules>, i: int)
    requires
        0 <= i < modes.len(),
    ensures
        mode_fault(modes, i) is None <==> usable_mode(modes, i),
        mode_fault(modes, i) == Some(RulesError::EmptyModeId) <==> blank(modes[i].id@),
        mode_fault(modes, i) == Some(RulesError::ZeroSlots { mode: i as usize }) <==> !blank(
            modes[i].id@,
        ) && modes[i].expected_deck_slots == 0,
{
    names_are_compared_without_case(modes[i].id@, modes[i].id@);
    assert forall|j: int| 0 <= j < i implies (mode_ids(modes)[j] == canonical(modes[i].id@)
        <==> same_name((#[trigger] modes[j]).id@, modes[i].id@)) by {
        names_are_compared_without_case(modes[j].id@, modes[i].id@);
    }
    if exists|j: int| 0 <= j < i && #[trigger] mode_ids(modes)[j] == canonical(modes[i].id@) {
        let j = choose|j: int|
            0 <= j < i && #[trigger] mode_ids(modes)[j] == canonical(modes[i].id@);
        assert(same_name(modes[j].id@, modes[i].id@));
    }
}

proof fn modes_without_fault(modes: Seq<ArenaModeRules>, n: int)
    requires
        0 <= n <= modes.len(),
    ensures
        first_mode_fault(modes, n) is None <==> forall|i: int|
            0 <= i < n ==> #[trigger] usable_mode(modes, i),
        first_mode_fault(modes, n) is Some ==> exists|i: int|
            0 <= i < n && !#[trigger] usable_mode(modes, i) && first_mode_fault(modes, n)
                == mode_fault(modes, i) && forall|j: int|
                0 <= j < i ==> #[trigger] usable_mode(modes, j),
    decreases n,
{
    if n > 0 {
        modes_without_fault(modes, n - 1);
        faultless_modes_are_usable(modes, n - 1);
        if first_mode_fault(modes, n - 1) is Some {
            let i = choose|i: int|
                0 <= i < n - 1 && !#[trigger] usable_mode(modes, i) && first_mode_fault(
                    modes,
                    n - 1,
                ) == mode_fault(modes, i) && forall|j: int|
                    0 <= j < i ==> #[trigger] usable_mode(modes, j);
            assert(!usable_mode(modes, i));
        } else if mode_fault(modes, n - 1) is Some {
            assert(!usable_mode(modes, n - 1));
        } else {
            assert forall|i: int| 0 <= i < n implies #[trigger] usable_mode(modes, i) by {
                if i == n - 1 {
                }
            }
        }
    }
}

proof fn places_have_the_name(modes: Seq<ArenaModeRules>, id: Seq<char>, i: int)
    requires
        0 <= i,
    ensures
        match place_of(modes, canonical(id), i) {
            Some(k) => i <= k < modes.len() && same_name(modes[k].id@, id) && forall|j: int|
                i <= j < k ==> !same_name((#[trigger] modes[j]).id@, id),
            None => forall|j: int| i <= j < modes.len() ==> !same_name((#[trigger] modes[j]).id@, id),
        },
    decreases modes.len() - i,
{
    if i < modes.len() {
        names_are_compared_without_case(modes[i].id@, id);
        places_have_the_name(modes, id, i + 1);
    }
}

/// Whether some mode has a name.
pub open spec fn some_mode_named(modes: Seq<ArenaModeRules>, id: Seq<char>) -> bool {
    exists|i: int| 0 <= i < modes.len() && same_name((#[trigger] modes[i]).id@, id)
}

/// Rules are accepted exactly where they are of the first format, name at least one mode, all
/// modes can be used, and the default, if there is one, names one of them.
pub proof fn rules_are_accepted_where_they_are_sound(m: ArenaRulesManifest)
    ensures
        manifest_fault(m) is None <==> {
            &&& m.schema_version == 1
            &&& m.modes@.len() > 0
            &&& forall|i: int| 0 <= i < m.modes@.len() ==> #[trigger] usable_mode(m.modes@, i)
            &&& m.default_mode matches Some(d) ==> !blank(d@) && some_mode_named(m.modes@, d@)
        },
        manifest_fault(m) == Some(RulesError::Schema) <==> m.schema_version != 1,
        manifest_fault(m) == Some(RulesError::NoModes) <==> m.schema_version == 1 && m.modes@.len()
            == 0,
{
    modes_without_fault(m.modes@, m.modes@.len() as int);
    if m.default_mode is Some {
        let d = m.default_mode->0@;
        names_are_compared_without_case(d, d);
        places_have_the_name(m.modes@, d, 0);
        if some_mode_named(m.modes@, d) {
            let i = choose|i: int|
                0 <= i < m.modes@.len() && same_name((#[trigger] m.modes@[i]).id@, d);
            assert(same_name(m.modes@[i].id@, d));
        }
    }
    if first_mode_fault(m.modes@, m.modes@.len() as int) is Some {
        let i = choose|i: int|
            0 <= i < m.modes@.len() && !#[trigger] usable_mode(m.modes@, i) && first_mode_fault(
                m.modes@,
                m.modes@.len() as int,
            ) == mode_fault(m.modes@, i) && forall|j: int|
                0 <= j < i ==> #[trigger] usable_mode(m.modes@, j);
        assert(!usable_mode(m.modes@, i));
    }
}

/// Of sound rules the requested mode is chosen, by its name; without a request the default; without
/// both the only mode, and none where there are several.
pub proof fn modes_are_chosen_by_name(m: ArenaRulesManifest, requested: Option<Seq<char>>)
    requires
        manifest_fault(m) is None,
    ensures
        ({
            let r = selected_mode(m, requested);
            &&& r matches Ok(i) ==> 0 <= i < m.modes@.len()
            &&& requested matches Some(id) ==> {
                &&& r == Err::<int, RulesError>(RulesError::EmptyRequest) <==> blank(id)
                &&& r == Err::<int, RulesError>(RulesError::UnknownRequest) <==> !blank(id)
                    && !some_mode_named(m.modes@, id)
                &&& r matches Ok(i) ==> same_name(m.modes@[i].id@, id)
                &&& !blank(id) && some_mode_named(m.modes@, id) ==> r is Ok
            }
            &&& requested is None && m.default_mode is Some ==> r is Ok && same_name(
                m.modes@[r->Ok_0].id@,
                m.default_mode->0@,
            )
            &&& requested is None && m.default_mode is None ==> {
                &&& m.modes@.len() == 1 <==> r == Ok::<int, RulesError>(0)
                &&& m.modes@.len() > 1 <==> r == Err::<int, RulesError>(RulesError::Ambiguous)
            }
        }),
{
    rules_are_accepted_where_they_are_sound(m);
    if requested is Some {
        let id = requested->0;
        names_are_compared_without_case(id, id);
        places_have_the_name(m.modes@, id, 0);
        if some_mode_named(m.modes@, id) {
            let i = choose|i: int|
                0 <= i < m.modes@.len() && same_name((#[trigger] m.modes@[i]).id@, id);
            assert(same_name(m.modes@[i].id@, id));
        }
    }
    if m.default_mode is Some {
        places_have_the_name(m.modes@, m.default_mode->0@, 0);
    }
}

/// A search gives the first path that is what is wanted, and none only where no path is.
pub proof fn searches_give_the_first_path(
    facts: TextMap<PathFact>,
    paths: Seq<Seq<char>>,
    wanted: Wanted,
    n: int,
)
    requires
        0 <= n <= paths.len(),
    ensures
        match first_with(facts, paths, wanted, n) {
            Some(p) => exists|i: int|
                0 <= i < n && p == #[trigger] paths[i] && offers(facts, p, wanted) && forall|j: int|
                    0 <= j < i ==> !offers(facts, #[trigger] paths[j], wanted),
            None => forall|j: int| 0 <= j < n ==> !offers(facts, #[trigger] paths[j], wanted),
        },
    decreases n,
{
    if n > 0 {
        searches_give_the_first_path(facts, paths, wanted, n - 1);
        if first_with(facts, paths, wanted, n - 1) is Some {
            let p = first_with(facts, paths, wanted, n - 1)->0;
            let i = choose|i: int|
                0 <= i < n - 1 && p == #[trigger] paths[i] && offers(facts, p, wanted) && forall|j: int|
                    0 <= j < i ==> !offers(facts, #[trigger] paths[j], wanted);
            assert(p == paths[i]);
        } else if offers(facts, paths[n - 1], wanted) {
            assert(paths[n - 1] == first_with(facts, paths, wanted, n)->0);
        }
    }
}

/// The log root is a directory of the list. A directory with logs comes before one without, and an
/// earlier one before a later one. A path given by the user is looked at first.
pub proof fn log_roots_with_logs_come_first(
    facts: TextMap<PathFact>,
    roots: Seq<Seq<char>>,
    first: Option<String>,
)
    ensures
        match log_root_of(facts, roots) {
            Some(p) => {
                &&& roots.contains(p)
                &&& facts.lookup(p) matches Some(fact)
                &&& fact.is_dir
                &&& !fact.has_logs ==> forall|j: int|
                    0 <= j < roots.len() ==> !offers(
                        facts,
                        #[trigger] roots[j],
                        Wanted::DirectoryWithLogs,
                    )
            },
            None => forall|j: int|
                0 <= j < roots.len() ==> !(facts.lookup(#[trigger] roots[j]) matches Some(fact)
                    && fact.is_dir),
        },
        first matches Some(p) ==> with_override(first, roots).len() == roots.len() + 1
            && with_override(first, roots)[0] == p@,
        first is None ==> with_override(first, roots) == roots,
{
    searches_give_the_first_path(facts, roots, Wanted::DirectoryWithLogs, roots.len() as int);
    searches_give_the_first_path(facts, roots, Wanted::Directory, roots.len() as int);
    if log_root_of(facts, roots) is None {
        assert forall|j: int| 0 <= j < roots.len() implies !(facts.lookup(#[trigger] roots[j]) matches Some(
            fact,
        ) && fact.is_dir) by {
            assert(!offers(facts, roots[j], Wanted::Directory));
        }
    }
}

/// The number of logs among those that are there.
pub open spec fn present(has: Seq<bool>) -> nat
    decreases has.len(),
{
    if has.len() == 0 {
        0
    } else if has[0] {
        present(has.skip(1)) + 1
    } else {
        present(has.skip(1))
    }
}

/// A session covers as many logs as it holds. Of two sessions that cover the same number of logs
/// the one written later is the latest, and the later in the list where both were written at
/// the same time.
pub proof fn later_sessions_win(sessions: Seq<SessionFacts>, at: int, j: int)
    requires
        is_latest_session(sessions, at),
        0 <= j < sessions.len(),
        coverage(sessions[j]) == coverage(sessions[at]),
        sessions[at].newest_millis matches Some(t) ==> t < 100_000_000_000_000_000_000,
        sessions[j].newest_millis matches Some(t) ==> t < 100_000_000_000_000_000_000,
    ensures
        coverage(sessions[at]) == present(sessions[at].has_log@),
        (match sessions[j].newest_millis {
            Some(t) => t as int,
            None => 0,
        }) <= (match sessions[at].newest_millis {
            Some(t) => t as int,
            None => 0,
        }),
        sessions[j].newest_millis == sessions[at].newest_millis ==> j <= at,
{
    let has = sessions[at].has_log@;
    reveal_with_fuel(present, 6);
    assert(has.len() == 5);
    assert(has.skip(1).skip(1) =~= has.skip(2));
    assert(has.skip(2).skip(1) =~= has.skip(3));
    assert(has.skip(3).skip(1) =~= has.skip(4));
    assert(has.skip(4).skip(1).len() == 0);
}

/// The logs of a session are listed in their order, each that is there with its own path.
pub proof fn listed_logs_are_there(session: Seq<char>, has_log: Seq<bool>, n: int)
    requires
        0 <= n <= 5,
        has_log.len() == 5,
    ensures
        existing_logs(session, has_log, n).len() == present(has_log.take(n)),
        forall|i: int|
            0 <= i < n && #[trigger] has_log[i] ==> existing_logs(session, has_log, n).contains(
                (LOG_COMPONENTS@[i]@, crate::paths::below(session, crate::paths::log_name(i))),
            ),
    decreases n,
{
    let all = existing_logs(session, has_log, n);
    if n > 0 {
        let before = existing_logs(session, has_log, n - 1);
        listed_logs_are_there(session, has_log, n - 1);
        present_of_longer(has_log.take(n - 1), has_log[n - 1]);
        assert(has_log.take(n) =~= has_log.take(n - 1).push(has_log[n - 1]));
        assert forall|i: int| 0 <= i < n && #[trigger] has_log[i] implies all.contains(
            (LOG_COMPONENTS@[i]@, crate::paths::below(session, crate::paths::log_name(i))),
        ) by {
            let entry = (
                LOG_COMPONENTS@[i]@,
                crate::paths::below(session, crate::paths::log_name(i)),
            );
            if i < n - 1 {
                let k = choose|k: int| 0 <= k < before.len() && before[k] == entry;
                assert(all[k] == entry);
            } else {
                assert(all[all.len() - 1] == entry);
            }
        }
    } else {
        assert(has_log.take(0).len() == 0);
    }
}

proof fn present_of_longer(has: Seq<bool>, one: bool)
    ensures
        present(has.push(one)) == present(has) + if one {
            1nat
        } else {
            0
        },
    decreases has.len(),
{
    let all = has.push(one);
    if has.len() == 0 {
        assert(all.skip(1) =~= Seq::<bool>::empty());
        assert(present(all.skip(1)) == 0);
    } else {
        assert(all.skip(1) =~= has.skip(1).push(one));
        present_of_longer(has.skip(1), one);
    }
}

/// The service attaches to a newer session as soon as there is one, and reads on in the old one
/// where that fails. It reads a session again from its start exactly where reading on failed, and
/// waits with what it published where there is no news or no success.
pub proof fn serving_follows_the_newest_session(event: ServeEvent)
    ensures
        serve_action(event) is AttachNext <==> event == (ServeEvent::Ticked { newer_session: true }),
        serve_action(event) is Poll <==> event == (ServeEvent::Ticked { newer_session: false })
            || event is NextNotReady,
        serve_action(event) is Replay <==> event is PollFailed,
        serve_action(event) is PublishAndPoll <==> event is NextAttached,
        serve_action(event) is Publish <==> event is Replayed || event == (ServeEvent::Polled {
            changed: true,
        }),
        serve_action(event) is Wait <==> event is ReplayFailed || event == (ServeEvent::Polled {
            changed: false,
        }),
{
}

proof fn first_part(whole: Seq<char>, part: Seq<char>, i: int)
    requires
        0 <= i,
    ensures
        match part_place(whole, part, i) {
            Some(k) => i <= k && occurs_at(whole, part, k) && forall|j: int|
                i <= j < k ==> !#[trigger] occurs_at(whole, part, j),
            None => forall|j: int| i <= j ==> !#[trigger] occurs_at(whole, part, j),
        },
    decreases whole.len() + 1 - i,
{
    if i <= whole.len() {
        first_part(whole, part, i + 1);
    }
}

/// A request captures what it asks for, the offer before the deck before the frame, and only with
/// the permission and a window; a request that asks for nothing reports.
pub proof fn captures_are_what_was_asked_for(
    request: CaptureRequest,
    granted: bool,
    window_found: bool,
)
    ensures
        ({
            let c = request.chosen(granted, window_found);
            let asked = request.capture_window || request.read_deck || request.read_offer;
            let ready = granted && window_found;
            &&& c is ReportOnly <==> !asked
            &&& c is PermissionRequired <==> asked && !granted
            &&& c is NoWindow <==> asked && granted && !window_found
            &&& c is ReadOffer <==> ready && request.read_offer
            &&& c is ReadDeck <==> ready && request.read_deck && !request.read_offer
            &&& c is CaptureFrame <==> ready && request.capture_window && !request.read_deck
                && !request.read_offer
        }),
{
}

/// The unknown cards of a deck are those of which the catalog has no record, with their copies, in
/// the order of the deck.
pub proof fn unknown_cards_have_no_record(deck: Seq<ResolvedDeckCard>)
    ensures
        forall|i: int|
            0 <= i < deck.len() ==> ((#[trigger] deck[i]).resolution@ matches ResolutionModel::MissingMetadata {
                card_id,
            } ==> unknown_cards(deck).contains((card_id, deck[i].count))),
        forall|k: int|
            0 <= k < unknown_cards(deck).len() ==> exists|i: int|
                0 <= i < deck.len() && (#[trigger] deck[i]).resolution@
                    == (ResolutionModel::MissingMetadata {
                    card_id: (#[trigger] unknown_cards(deck)[k]).0,
                }) && deck[i].count == unknown_cards(deck)[k].1,
    decreases deck.len(),
{
    let all = unknown_cards(deck);
    if deck.len() > 0 {
        let rest = deck.drop_last();
        let before = unknown_cards(rest);
        unknown_cards_have_no_record(rest);
        assert forall|i: int| 0 <= i < deck.len() implies ((#[trigger] deck[i]).resolution@ matches ResolutionModel::MissingMetadata {
            card_id,
        } ==> all.contains((card_id, deck[i].count))) by {
            if deck[i].resolution@ is MissingMetadata {
                let entry = (deck[i].resolution@->MissingMetadata_card_id, deck[i].count);
                if i < rest.len() {
                    assert(rest[i] == deck[i]);
                    let k = choose|k: int| 0 <= k < before.len() && before[k] == entry;
                    assert(all[k] == entry);
                } else {
                    assert(all[all.len() - 1] == entry);
                }
            }
        }
        assert forall|k: int| 0 <= k < all.len() implies exists|i: int|
            0 <= i < deck.len() && (#[trigger] deck[i]).resolution@
                == (ResolutionModel::MissingMetadata { card_id: (#[trigger] all[k]).0 })
                && deck[i].count == all[k].1 by {
            if k < before.len() {
                assert(all[k] == before[k]);
                let i = choose|i: int|
                    0 <= i < rest.len() && (#[trigger] rest[i]).resolution@
                        == (ResolutionModel::MissingMetadata { card_id: before[k].0 })
                        && rest[i].count == before[k].1;
                assert(deck[i] == rest[i]);
            } else {
                assert(deck[deck.len() - 1] == deck.last());
            }
        }
    }
}

/// The copies of a card are those of its first entry.
pub proof fn copies_are_of_the_first_entry(deck: Seq<ResolvedDeckCard>, id: Seq<char>, n: int)
    requires
        0 <= n <= deck.len(),
    ensures
        match copies_in(deck, id, n) {
            Some(count) => exists|i: int|
                0 <= i < n && (#[trigger] deck[i]).card_id@ == id && deck[i].count == count
                    && forall|j: int| 0 <= j < i ==> (#[trigger] deck[j]).card_id@ != id,
            None => forall|j: int| 0 <= j < n ==> (#[trigger] deck[j]).card_id@ != id,
        },
    decreases n,
{
    if n > 0 {
        copies_are_of_the_first_entry(deck, id, n - 1);
        if copies_in(deck, id, n - 1) is Some {
            let i = choose|i: int|
                0 <= i < n - 1 && (#[trigger] deck[i]).card_id@ == id && deck[i].count
                    == copies_in(deck, id, n - 1)->0 && forall|j: int|
                    0 <= j < i ==> (#[trigger] deck[j]).card_id@ != id;
            assert(deck[i].card_id@ == id);
        } else if deck[n - 1].card_id@ == id {
            assert(deck[n - 1].card_id@ == id);
        }
    }
}

/// A Redraft follows the rules of the mode; where these say nothing of it, it has five picks and
/// five discards.
pub proof fn redrafts_follow_the_rules(rules: Option<ResolvedArenaRules>)
    ensures
        rules matches Some(r) ==> (r.redraft matches Some(p) ==> redraft_policy(rules) == p),
        !(rules matches Some(r) && r.redraft is Some) ==> redraft_policy(rules).pick_rounds == 5
            && redraft_policy(rules).discard_count == 5,
{
}

/// Each way in which a card of a deck can be known has a word of its own.
pub proof fn cards_are_called_by_how_they_are_known(a: ResolutionModel)
    ensures
        catalog_word(a) == "resolved"@ <==> a is Resolved,
        catalog_word(a) == "missing"@ <==> a is MissingMetadata,
        catalog_word(a) == "unrevealed"@ <==> a is Unrevealed,
        catalog_word(a) == "non_card_entity"@ <==> a is NonCardEntity,
        catalog_word(a) == "invalid_id"@ <==> a is InvalidCardId,
{
    reveal_strlit("resolved");
    reveal_strlit("missing");
    reveal_strlit("unrevealed");
    reveal_strlit("non_card_entity");
    reveal_strlit("invalid_id");
    assert("resolved"@.len() == 8 && "missing"@.len() == 7 && "unrevealed"@.len() == 10
        && "non_card_entity"@.len() == 15 && "invalid_id"@.len() == 10);
    assert("unrevealed"@[0] == 'u' && "invalid_id"@[0] == 'i');
}

/// The version of the card data is what stands in its address between the first mark of the
/// interface and the next slash, or is the latest where there is no such mark.
pub proof fn versions_stand_behind_the_mark(url: Seq<char>, k: int)
    ensures
        (forall|j: int| !#[trigger] occurs_at(url, "/v1/"@, j)) ==> version_in_url(url) == "latest"@,
        occurs_at(url, "/v1/"@, k) && (forall|j: int| j < k ==> !#[trigger] occurs_at(url, "/v1/"@, j))
            ==> {
            let v = version_in_url(url);
            &&& k + 4 + v.len() <= url.len()
            &&& forall|i: int| 0 <= i < v.len() ==> #[trigger] v[i] == url[k + 4 + i] && v[i] != '/'
            &&& k + 4 + v.len() < url.len() ==> url[k + 4 + v.len()] == '/'
        },
{
    reveal_strlit("/v1/");
    first_part(url, "/v1/"@, 0);
    if occurs_at(url, "/v1/"@, k) && forall|j: int| j < k ==> !#[trigger] occurs_at(url, "/v1/"@, j) {
        assert(part_place(url, "/v1/"@, 0) == Some(k));
        char_place_is_first(url.skip(k + 4), '/', 0);
    }
}

/// Progress is told as the pick that is next of all picks, and is unknown without either number.
pub proof fn progress_tells_both_numbers(p: Progress)
    ensures
        p.current == 0 || p.total == 0 ==> progress_text(p) == "Unknown"@,
        p.current > 0 && p.total > 0 ==> {
            let t = progress_text(p);
            let a = decimal(p.current as nat);
            let b = decimal(p.total as nat);
            &&& occurs_at(t, a, 0)
            &&& occurs_at(t, b, t.len() - b.len())
            &&& t.len() == a.len() + 3 + b.len()
            &&& t[a.len() as int + 1] == '/'
        },
        pick_text(Some(p)) == progress_text(p),
        pick_text(None) == "Unknown"@,
{
    reveal_strlit(" / ");
    let t = progress_text(p);
    let a = decimal(p.current as nat);
    let b = decimal(p.total as nat);
    if p.current > 0 && p.total > 0 {
        assert(t.subrange(0, a.len() as int) =~= a);
        assert(t.subrange(t.len() - b.len(), t.len() as int) =~= b);
    }
}

/// A run is told by its wins, then its losses.
pub proof fn runs_tell_wins_then_losses(run: RunStats)
    ensures
        ({
            let t = run_text(run);
            let a = decimal(run.wins as nat);
            let b = decimal(run.losses as nat);
            occurs_at(t, a, 0) && occurs_at(t, b, t.len() - b.len()) && t.len() == a.len() + 1
                + b.len()
        }),
{
    reveal_strlit("–");
    let t = run_text(run);
    let a = decimal(run.wins as nat);
    let b = decimal(run.losses as nat);
    assert(t.subrange(0, a.len() as int) =~= a);
    assert(t.subrange(t.len() - b.len(), t.len() as int) =~= b);
}

/// The game is looked for at the path the user gave, then where it is installed for all, then where
/// it is installed for the user alone. The configuration is the first of its places that is there:
/// the path the user gave, then beside the game, then in the home directory. Where none is there,
/// it is the one beside the game, or the one in the home directory where there is no game.
pub proof fn configurations_are_the_first_that_is_there(
    home: Seq<char>,
    overrides: PathOverrides,
    facts: TextMap<PathFact>,
)
    ensures
        ({
            let dir = installed(home, overrides, facts);
            let places = log_config_places(home, dir, overrides);
            let games = install_places(home, overrides);
            let found = configured(home, overrides, facts);
            let there = exists|i: int|
                0 <= i < places.len() && offers(facts, #[trigger] places[i], Wanted::Anything);
            let kept = below(home, "Library/Preferences/Blizzard/Hearthstone/log.config"@);
            let first = match dir {
                Some(d) => below(d, "log.config"@),
                None => kept,
            };
            &&& there ==> places.contains(found) && offers(facts, found, Wanted::Anything)
            &&& !there ==> found == first
            &&& match overrides.log_config {
                Some(p) => places[0] == p@ && places[1] == first && (offers(
                    facts,
                    p@,
                    Wanted::Anything,
                ) ==> found == p@),
                None => places[0] == first,
            }
            &&& places.contains(kept)
            &&& dir matches Some(d) ==> games.contains(d) && offers(facts, d, Wanted::Anything)
            &&& dir is None ==> forall|i: int|
                0 <= i < games.len() ==> !offers(facts, #[trigger] games[i], Wanted::Anything)
            &&& overrides.install_dir matches Some(p) ==> games[0] == p@ && (offers(
                facts,
                p@,
                Wanted::Anything,
            ) ==> dir == Some(p@))
            &&& games.contains("/Applications/Hearthstone/Hearthstone.app"@)
            &&& games.last() == below(home, "Applications/Hearthstone/Hearthstone.app"@)
            &&& overrides.log_dir matches Some(p) ==> log_root_places(home, overrides)[0] == p@
            &&& log_root_places(home, overrides).contains("/Applications/Hearthstone/Logs"@)
        }),
{
    let dir = installed(home, overrides, facts);
    let places = log_config_places(home, dir, overrides);
    let games = install_places(home, overrides);
    let roots = log_root_places(home, overrides);
    let kept = below(home, "Library/Preferences/Blizzard/Hearthstone/log.config"@);
    searches_give_the_first_path(facts, places, Wanted::Anything, places.len() as int);
    searches_give_the_first_path(facts, games, Wanted::Anything, games.len() as int);
    let before: int = if overrides.log_config is Some {
        1
    } else {
        0
    };
    assert(places[before + if dir is Some {
        2int
    } else {
        0
    }] == kept);
    assert(games[if overrides.install_dir is Some {
        1int
    } else {
        0
    }] == "/Applications/Hearthstone/Hearthstone.app"@);
    assert(roots[if overrides.log_dir is Some {
        1int
    } else {
        0
    }] == "/Applications/Hearthstone/Logs"@);
    if let Some(p) = overrides.log_config {
        assert(places[0] == p@);
    }
    if let Some(p) = overrides.install_dir {
        assert(games[0] == p@);
    }
}

/// A path below another is parted from it by one slash.
pub proof fn paths_are_parted_by_one_slash(base: Seq<char>, name: Seq<char>)
    ensures
        base.len() > 0 && base.last() != '/' ==> below(base, name) == base + seq!['/'] + name,
        base.len() == 0 || base.last() == '/' ==> below(base, name) == base + name,
{
    reveal_strlit("/");
    assert("/"@ =~= seq!['/']);
}

/// The rules that are resolved are those of the chosen mode: its deck and its Redraft, under the
/// season and source of the whole list.
pub proof fn resolved_rules_are_those_of_the_mode(
    m: ArenaRulesManifest,
    requested: Option<&str>,
    x: ResolvedArenaRules,
)
    requires
        call_ensures(
            ArenaRulesManifest::resolve,
            (&m, requested),
            Ok::<ResolvedArenaRules, RulesError>(x),
        ),
    ensures
        exists|i: int|
            {
                &&& 0 <= i < m.modes@.len()
                &&& x.mode_id@ == (#[trigger] m.modes@[i]).id@
                &&& x.expected_deck_slots == m.modes@[i].expected_deck_slots
                &&& x.redraft == m.modes@[i].redraft
            },
        x.schema_version == m.schema_version,
        opt_text(x.season) == opt_text(m.season),
        opt_text(x.source) == opt_text(m.source),
        x.expected_deck_slots > 0,
{
    let wanted = selected_mode(
        m,
        match requested {
            Some(s) => Some(s@),
            None => None,
        },
    );
    if let Ok(i) = wanted {
        assert(x.mode_id@ == m.modes@[i].id@);
    }
}

/// The session that is found is one of those below the log root, and there is none without a root.
pub proof fn found_sessions_lie_below_the_root(
    home: Option<&str>,
    overrides: PathOverrides,
    facts: TextMap<PathFact>,
    sessions: Vec<SessionFacts>,
    r: Result<GamePaths, &'static str>,
)
    requires
        call_ensures(discover_macos, (home, &overrides, &facts, &sessions), r),
    ensures
        r is Err <==> home is None,
        r matches Ok(paths) ==> {
            &&& paths.log_root is None ==> paths.latest_session is None
            &&& paths.latest_session matches Some(p) ==> exists|i: int|
                0 <= i < sessions@.len() && (#[trigger] sessions@[i]).path@ == p@
            &&& paths.log_config is Some
            &&& overrides.log_dir matches Some(p) ==> paths.log_roots_checked@[0]@ == p@
        },
{
    if let Ok(paths) = r {
        if let Some(p) = paths.latest_session {
            let at = choose|at: int| #[trigger]
                is_latest_session(sessions@, at) && sessions@[at].path@ == p@;
            assert(sessions@[at].path@ == p@);
        }
        if let Some(p) = overrides.log_dir {
            let all = texts(paths.log_roots_checked@);
            assert(all[0] == p@);
            assert(all[0] == paths.log_roots_checked@[0]@);
        }
    }
}

/// A session with more logs comes before one with fewer, however new that is.
pub proof fn sessions_with_more_logs_win(sessions: Seq<SessionFacts>, at: int, j: int)
    requires
        is_latest_session(sessions, at),
        0 <= j < sessions.len(),
        sessions[at].newest_millis matches Some(t) ==> t < 100_000_000_000_000_000_000,
        sessions[j].newest_millis matches Some(t) ==> t < 100_000_000_000_000_000_000,
    ensures
        coverage(sessions[j]) <= coverage(sessions[at]),
{
}

/// What is wrong with rules is told with the mode it is about.
pub proof fn refused_rules_name_their_mode(
    e: RulesError,
    m: ArenaRulesManifest,
    requested: Seq<char>,
)
    ensures
        ({
            let t = rules_text(e, m, requested);
            &&& e matches RulesError::ZeroSlots { mode } ==> contains_part(
                t,
                m.modes@[mode as int].id@,
            ) && contains_part(t, "` has expectedDeckSlots 0"@)
            &&& e matches RulesError::ZeroRedraft { mode } ==> contains_part(
                t,
                m.modes@[mode as int].id@,
            ) && contains_part(t, "` redraft pickRounds and discardCount must both be positive"@)
            &&& e matches RulesError::DuplicateMode { mode } ==> contains_part(
                t,
                m.modes@[mode as int].id@,
            )
            &&& e is UnknownRequest ==> contains_part(t, requested)
            &&& e is Schema ==> contains_part(t, decimal(m.schema_version as nat))
        }),
{
    let t = rules_text(e, m, requested);
    match e {
        RulesError::ZeroSlots { mode } => {
            let id = m.modes@[mode as int].id@;
            let n = "Arena rules mode `"@.len() as int;
            let tail = "` has expectedDeckSlots 0"@;
            assert(t.subrange(n, n + id.len()) =~= id);
            assert(occurs_at(t, id, n));
            assert(t.subrange(n + id.len(), n + id.len() + tail.len()) =~= tail);
            assert(occurs_at(t, tail, n + id.len()));
        },
        RulesError::ZeroRedraft { mode } => {
            let id = m.modes@[mode as int].id@;
            let n = "Arena rules mode `"@.len() as int;
            let tail = "` redraft pickRounds and discardCount must both be positive"@;
            assert(t.subrange(n, n + id.len()) =~= id);
            assert(occurs_at(t, id, n));
            assert(t.subrange(n + id.len(), n + id.len() + tail.len()) =~= tail);
            assert(occurs_at(t, tail, n + id.len()));
        },
        RulesError::DuplicateMode { mode } => {
            let id = m.modes@[mode as int].id@;
            let n = "Arena rules manifest contains duplicate mode id `"@.len() as int;
            assert(t.subrange(n, n + id.len()) =~= id);
            assert(occurs_at(t, id, n));
        },
        RulesError::UnknownRequest => {
            let n = "Arena rules manifest has no mode `"@.len() as int;
            assert(t.subrange(n, n + requested.len()) =~= requested);
            assert(occurs_at(t, requested, n));
        },
        RulesError::Schema => {
            let n = "unsupported Arena rules schemaVersion "@.len() as int;
            let d = decimal(m.schema_version as nat);
            assert(t.subrange(n, n + d.len()) =~= d);
            assert(occurs_at(t, d, n));
        },
        _ => {},
    }
}

} // verus!
