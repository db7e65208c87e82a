//! Which session is observed, whether its logs still advance, and how large they may grow.
use crate::card_data::Timestamp;
use crate::log_component::{filename_of, ComponentMap, LogComponent, REQUIRED_COMPONENTS};
use crate::log_reader::{find_newline, newline_from, newline_from_is_first, NEWLINE};
use crate::text;
use vstd::prelude::*;

verus! {

/// What one poll of a live observer did.
#[derive(Clone, Copy, Debug, PartialEq, Eq, Structural)]
pub struct PollResult {
    /// A record was read, the session changed, or the current deck was found anew.
    pub changed: bool,
    /// A rotation, a late component or an early record led to a fresh attach.
    pub recovered_from_rotation: bool,
    /// The observer attached to a newer session.
    pub switched_session: bool,
    /// The logs are not stable enough yet. What was known stays; the next poll tries again.
    pub recovery_pending: bool,
}

impl Default for PollResult {
    fn default() -> (r: Self)
        ensures
            r == (PollResult {
                changed: false,
                recovered_from_rotation: false,
                switched_session: false,
                recovery_pending: false,
            }),
    {
        PollResult {
            changed: false,
            recovered_from_rotation: false,
            switched_session: false,
            recovery_pending: false,
        }
    }
}

/// How attaching to a session went.
#[derive(Clone, Copy, Debug, PartialEq, Eq, Structural)]
pub enum AttachAttempt {
    Attached,
    ReplayRequired,
    Failed,
}

/// How reading on went.
#[derive(Clone, Copy, Debug, PartialEq, Eq, Structural)]
pub enum ReadAttempt {
    Read { changed: bool },
    ReplayRequired,
    Failed,
}

/// What happens in the course of a poll.
#[derive(Clone, Copy, Debug, PartialEq, Eq, Structural)]
pub enum PollEvent {
    /// The poll begins. A newer session may have become the one to follow.
    Begun { newer_session: bool },
    /// The newer session was attached to, or was not.
    Switched(AttachAttempt),
    /// The session was read on, or was not.
    Read(ReadAttempt),
    /// The session was attached to afresh, or was not.
    Recovered(AttachAttempt),
}

/// What is done next in a poll.
#[derive(Clone, Copy, Debug, PartialEq, Eq, Structural)]
pub enum PollAction {
    /// Attach to the newer session.
    AttachNext,
    /// Read on in the session.
    ReadOn,
    /// Attach afresh to the session.
    AttachAgain,
    /// The poll is over.
    Finish(PollResult),
    /// The poll fails with the error that came last.
    Fail,
}

/// What a poll has done so far, and what it does next, after an event.
pub open spec fn poll_step(so_far: PollResult, event: PollEvent) -> (PollResult, PollAction) {
    match event {
        PollEvent::Begun { newer_session } => (
            so_far,
            if newer_session {
                PollAction::AttachNext
            } else {
                PollAction::ReadOn
            },
        ),
        PollEvent::Switched(AttachAttempt::Attached) => (
            PollResult { changed: true, switched_session: true, ..so_far },
            PollAction::ReadOn,
        ),
        PollEvent::Switched(AttachAttempt::ReplayRequired) => (
            PollResult { recovery_pending: true, ..so_far },
            PollAction::ReadOn,
        ),
        PollEvent::Read(ReadAttempt::Read { changed }) => {
            let done = PollResult { changed: so_far.changed || changed, ..so_far };
            (done, PollAction::Finish(done))
        },
        PollEvent::Read(ReadAttempt::ReplayRequired) => (so_far, PollAction::AttachAgain),
        PollEvent::Recovered(AttachAttempt::Attached) => {
            let done = PollResult { changed: true, recovered_from_rotation: true, ..so_far };
            (done, PollAction::Finish(done))
        },
        PollEvent::Recovered(AttachAttempt::ReplayRequired) => {
            let done = PollResult { recovery_pending: true, ..so_far };
            (done, PollAction::Finish(done))
        },
        PollEvent::Switched(AttachAttempt::Failed)
        | PollEvent::Read(ReadAttempt::Failed)
        | PollEvent::Recovered(AttachAttempt::Failed) => (so_far, PollAction::Fail),
    }
}

impl PollResult {
    /// Takes an event of the poll in and tells what to do next.
    pub fn next_action(&mut self, event: PollEvent) -> (r: PollAction)
        ensures
            (*final(self), r) == poll_step(*old(self), event),
    {
        match event {
            PollEvent::Begun { newer_session } => {
                if newer_session {
                    PollAction::AttachNext
                } else {
                    PollAction::ReadOn
                }
            },
            PollEvent::Switched(AttachAttempt::Attached) => {
                self.changed = true;
                self.switched_session = true;
                PollAction::ReadOn
            },
            PollEvent::Switched(AttachAttempt::ReplayRequired) => {
                self.recovery_pending = true;
                PollAction::ReadOn
            },
            PollEvent::Read(ReadAttempt::Read { changed }) => {
                self.changed = self.changed || changed;
                PollAction::Finish(*self)
            },
            PollEvent::Read(ReadAttempt::ReplayRequired) => PollAction::AttachAgain,
            PollEvent::Recovered(AttachAttempt::Attached) => {
                self.changed = true;
                self.recovered_from_rotation = true;
                PollAction::Finish(*self)
            },
            PollEvent::Recovered(AttachAttempt::ReplayRequired) => {
                self.recovery_pending = true;
                PollAction::Finish(*self)
            },
            PollEvent::Switched(AttachAttempt::Failed) => PollAction::Fail,
            PollEvent::Read(ReadAttempt::Failed) => PollAction::Fail,
            PollEvent::Recovered(AttachAttempt::Failed) => PollAction::Fail,
        }
    }
}

/// The start of a poll.
pub open spec fn nothing_done() -> PollResult {
    PollResult {
        changed: false,
        recovered_from_rotation: false,
        switched_session: false,
        recovery_pending: false,
    }
}

/// What one poll did, for a switch of session where there was a newer one, reading on, and a fresh
/// attach where that was needed. An error that a fresh attach does not answer ends the poll.
pub open spec fn poll_result_of(
    switch: Option<AttachAttempt>,
    read: ReadAttempt,
    recovery: AttachAttempt,
) -> Option<PollResult> {
    let switched = switch == Some(AttachAttempt::Attached);
    let recovers = read is ReplayRequired;
    if switch == Some(AttachAttempt::Failed) || read is Failed || (recovers && recovery is Failed) {
        None
    } else {
        Some(
            PollResult {
                changed: switched || (read matches ReadAttempt::Read { changed } && changed) || (
                recovers && recovery is Attached),
                recovered_from_rotation: recovers && recovery is Attached,
                switched_session: switched,
                recovery_pending: switch == Some(AttachAttempt::ReplayRequired) || (recovers
                    && recovery is ReplayRequired),
            },
        )
    }
}

/// A poll tells what it did: whatever its parts come to, it ends with the result that sums them
/// up, or fails where one of them did. A session that is not stable yet never makes it fail.
pub proof fn polls_tell_what_they_did(
    switch: Option<AttachAttempt>,
    read: ReadAttempt,
    recovery: AttachAttempt,
)
    ensures
        ({
            let (begun, first) = poll_step(
                nothing_done(),
                PollEvent::Begun { newer_session: switch is Some },
            );
            let (switched, second) = match switch {
                Some(attempt) => poll_step(begun, PollEvent::Switched(attempt)),
                None => (begun, first),
            };
            let (done, third) = poll_step(switched, PollEvent::Read(read));
            let last = if second is Fail {
                second
            } else if third is AttachAgain {
                poll_step(done, PollEvent::Recovered(recovery)).1
            } else {
                third
            };
            &&& first == (if switch is Some {
                PollAction::AttachNext
            } else {
                PollAction::ReadOn
            })
            &&& second is ReadOn || second is Fail
            &&& last == (match poll_result_of(switch, read, recovery) {
                Some(result) => PollAction::Finish(result),
                None => PollAction::Fail,
            })
        }),
{
}

/// Whether a moment comes before another.
pub open spec fn before(a: Timestamp, b: Timestamp) -> bool {
    a.seconds < b.seconds || (a.seconds == b.seconds && a.nanoseconds < b.nanoseconds)
}

/// Whether a moment comes before another.
pub fn comes_before(a: Timestamp, b: Timestamp) -> (r: bool)
    ensures
        r == before(a, b),
{
    a.seconds < b.seconds || (a.seconds == b.seconds && a.nanoseconds < b.nanoseconds)
}

/// The moment at which time begins.
pub open spec fn epoch() -> Timestamp {
    Timestamp { seconds: 0, nanoseconds: 0 }
}

/// Whether a moment is the latest of some, or the epoch where there are none.
pub open spec fn is_activity(t: Timestamp, times: Seq<Timestamp>) -> bool {
    if times.len() == 0 {
        t == epoch()
    } else {
        &&& times.contains(t)
        &&& forall|i: int| 0 <= i < times.len() ==> !before(t, #[trigger] times[i])
    }
}

/// The moment at which the newest component log of a session was written.
pub fn session_activity_time(modified: &Vec<Timestamp>) -> (r: Timestamp)
    ensures
        is_activity(r, modified@),
{
    if modified.len() == 0 {
        return Timestamp { seconds: 0, nanoseconds: 0 };
    }
    let mut best = modified[0];
    let mut i: usize = 1;
    assert(modified@[0] == best);
    while i < modified.len()
        invariant
            1 <= i <= modified.len(),
            modified@.contains(best),
            forall|k: int| 0 <= k < i ==> !before(best, #[trigger] modified@[k]),
        decreases modified.len() - i,
    {
        if comes_before(best, modified[i]) {
            best = modified[i];
            assert(modified@[i as int] == best);
        }
        i = i + 1;
    }
    best
}

/// A directory that may be a session.
pub struct SessionCandidate {
    pub path: String,
    /// Whether it is a directory with at least one component log.
    pub is_session: bool,
    pub activity: Timestamp,
}

/// Whether a candidate is the session with the newest log: of several the last.
pub open spec fn is_newest(candidates: Seq<SessionCandidate>, i: int) -> bool {
    &&& 0 <= i < candidates.len()
    &&& candidates[i].is_session
    &&& forall|j: int|
        0 <= j < candidates.len() && (#[trigger] candidates[j]).is_session ==> !before(
            candidates[i].activity,
            candidates[j].activity,
        ) && (j > i ==> before(candidates[j].activity, candidates[i].activity))
}

/// The session with the newest log.
pub fn newest_live_session(candidates: &Vec<SessionCandidate>) -> (r: Option<usize>)
    ensures
        match r {
            Some(i) => is_newest(candidates@, i as int),
            None => forall|j: int|
                0 <= j < candidates@.len() ==> !(#[trigger] candidates@[j]).is_session,
        },
{
    let mut best: Option<usize> = None;
    let mut i: usize = 0;
    while i < candidates.len()
        invariant
            i <= candidates.len(),
            match best {
                Some(b) => b < i && candidates@[b as int].is_session && forall|j: int|
                    0 <= j < i && (#[trigger] candidates@[j]).is_session ==> !before(
                        candidates@[b as int].activity,
                        candidates@[j].activity,
                    ) && (j > b ==> before(
                        candidates@[j].activity,
                        candidates@[b as int].activity,
                    )),
                None => forall|j: int|
                    0 <= j < i ==> !(#[trigger] candidates@[j]).is_session,
            },
        decreases candidates.len() - i,
    {
        if candidates[i].is_session {
            let newer = match best {
                None => true,
                Some(b) => !comes_before(candidates[i].activity, candidates[b].activity),
            };
            if newer {
                best = Some(i);
            }
        }
        i = i + 1;
    }
    best
}

/// Whether the observer goes over to another session: one with a newer log.
pub fn switches_session(
    follow_latest: bool,
    current: &str,
    current_activity: Timestamp,
    next: &str,
    next_activity: Timestamp,
) -> (r: bool)
    ensures
        r == (follow_latest && next@ != current@ && before(current_activity, next_activity)),
{
    follow_latest && !text::str_eq(next, current) && comes_before(current_activity, next_activity)
}

/// Whether the newest component log of a session still advances. A log that reaches the size
/// limit of the game stops all logs while the game goes on; then the player has to restart it.
#[derive(Clone, Copy, Debug, PartialEq, Eq, Structural)]
pub enum LogStaleness {
    /// A log was written within the threshold.
    Live,
    /// The newest log was last written that many seconds ago.
    Stale { age_secs: u64 },
    /// There is no component log.
    NoLogs,
}

/// Ten minutes without any write count as stopped logs.
pub const LOG_STALENESS_THRESHOLD_SECS: u64 = 10 * 60;

/// The nanoseconds from one moment to another.
pub open spec fn nanoseconds_between(from: Timestamp, to: Timestamp) -> int {
    (to.seconds - from.seconds) * 1_000_000_000 + (to.nanoseconds - from.nanoseconds)
}

/// How a session with a newest write stands at a moment.
pub open spec fn staleness_of(newest: Timestamp, now: Timestamp, threshold: nat) -> LogStaleness {
    if newest == epoch() {
        LogStaleness::NoLogs
    } else if nanoseconds_between(newest, now) > threshold {
        LogStaleness::Stale {
            age_secs: (nanoseconds_between(newest, now) / 1_000_000_000) as u64,
        }
    } else {
        LogStaleness::Live
    }
}

/// Says whether a session still advances, from the moment of its newest write. A moment without
/// any log is the epoch. The threshold is in nanoseconds.
pub fn session_staleness(newest: Timestamp, now: Timestamp, threshold: u64) -> (r: LogStaleness)
    requires
        newest.nanoseconds < 1_000_000_000,
        now.nanoseconds < 1_000_000_000,
    ensures
        r == staleness_of(newest, now, threshold as nat),
{
    if newest.seconds == 0 && newest.nanoseconds == 0 {
        return LogStaleness::NoLogs;
    }
    let seconds: i128 = now.seconds as i128 - newest.seconds as i128;
    let age: i128 = seconds * 1_000_000_000 + (now.nanoseconds as i128
        - newest.nanoseconds as i128);
    if age > threshold as i128 {
        let age_secs: i128 = age / 1_000_000_000;
        assert(0 <= age_secs <= u64::MAX);
        LogStaleness::Stale { age_secs: age_secs as u64 }
    } else {
        LogStaleness::Live
    }
}

/// The game's own limit for each component log. At it the game stops writing all logs.
pub const GAME_LOG_CAP_BYTES: u64 = 10_000 * 1024;

/// A component log longer than this is shortened.
pub const ROTATE_AT_BYTES: u64 = 9 * 1024 * 1024 + 512 * 1024;

/// The most bytes that stay of a log that is shortened.
pub const ROTATION_KEEP_BYTES: u64 = 2 * 1024 * 1024;

/// One component log that was shortened.
#[derive(Clone, Copy, Debug, PartialEq, Eq)]
pub struct ComponentRotation {
    pub component: &'static str,
    pub previous_bytes: u64,
    pub retained_bytes: u64,
}

/// One component log that was shortened, over texts.
pub struct RotationModel {
    pub component: Seq<char>,
    pub previous_bytes: nat,
    pub retained_bytes: nat,
}

impl View for ComponentRotation {
    type V = RotationModel;

    open spec fn view(&self) -> RotationModel {
        RotationModel {
            component: self.component@,
            previous_bytes: self.previous_bytes as nat,
            retained_bytes: self.retained_bytes as nat,
        }
    }
}

/// Which component logs were shortened. A log that could not be read or written is among the
/// failures; it does not keep the others from being shortened.
pub struct RotationOutcome {
    pub rotations: Vec<ComponentRotation>,
    pub failures: Vec<String>,
}

/// What stays of a component log: all of it up to the limit, and else the newest records.
pub open spec fn rotated(b: Seq<u8>) -> Seq<u8> {
    if b.len() <= ROTATE_AT_BYTES {
        b
    } else {
        let tail = b.skip(b.len() - ROTATION_KEEP_BYTES);
        match newline_from(tail, 0) {
            Some(k) => tail.skip(k + 1),
            None => tail,
        }
    }
}

/// Shortens a component log that has grown too long: the newest records stay, from the start of
/// a record on.
pub fn rotate_component_log(b: &[u8]) -> (r: Option<Vec<u8>>)
    ensures
        match r {
            Some(kept) => b.len() > ROTATE_AT_BYTES && kept@ == rotated(b@),
            None => b.len() <= ROTATE_AT_BYTES,
        },
{
    if b.len() as u64 <= ROTATE_AT_BYTES {
        return None;
    }
    let start: usize = b.len() - ROTATION_KEEP_BYTES as usize;
    let tail = vstd::slice::slice_subrange(b, start, b.len());
    assert(tail@ =~= b@.skip(start as int));
    let first: usize = match find_newline(tail, 0) {
        Some(k) => k + 1,
        None => 0,
    };
    let kept = vstd::slice::slice_subrange(tail, first, tail.len());
    assert(kept@ =~= tail@.skip(first as int));
    assert(tail@.skip(0) =~= tail@);
    Some(vstd::slice::slice_to_vec(kept))
}

/// The logs after shortening: the Arena log stays as it is.
pub open spec fn rotated_log(c: LogComponent, b: Seq<u8>) -> Seq<u8> {
    if c == LogComponent::Arena {
        b
    } else {
        rotated(b)
    }
}

/// The logs, among the first ones, that are shortened.
pub open spec fn rotations_of(files: Map<LogComponent, Vec<u8>>, n: int) -> Seq<RotationModel>
    decreases n,
{
    if n <= 0 {
        Seq::empty()
    } else {
        let done = rotations_of(files, n - 1);
        let c = REQUIRED_COMPONENTS@[n - 1];
        if c != LogComponent::Arena && files.contains_key(c) && files[c]@.len() > ROTATE_AT_BYTES {
            done.push(
                RotationModel {
                    component: filename_of(c),
                    previous_bytes: files[c]@.len(),
                    retained_bytes: rotated(files[c]@).len(),
                },
            )
        } else {
            done
        }
    }
}

/// Shortens every component log that has grown too long. The Arena log holds the record of the
/// drafted deck and is never shortened, so that no deck can be lost.
pub fn rotate_overlarge_component_logs(files: &mut ComponentMap<Vec<u8>>) -> (r: RotationOutcome)
    requires
        old(files).wf(),
    ensures
        final(files).wf(),
        final(files).entries().dom() == old(files).entries().dom(),
        forall|c: LogComponent| #[trigger]
            old(files).entries().contains_key(c) ==> final(files).entries()[c]@ == rotated_log(
                c,
                old(files).entries()[c]@,
            ),
        r.rotations@.map_values(|x: ComponentRotation| x@) == rotations_of(
            old(files).entries(),
            5,
        ),
        r.failures@.len() == 0,
{
    let ghost first = files.entries();
    let mut rotations: Vec<ComponentRotation> = Vec::new();
    let mut i: usize = 0;
    assert(rotations@.map_values(|x: ComponentRotation| x@) =~= Seq::<RotationModel>::empty());
    while i < 5
        invariant
            i <= 5,
            files.wf(),
            first == old(files).entries(),
            files.entries().dom() == first.dom(),
            forall|c: LogComponent| #[trigger]
                first.contains_key(c) ==> files.entries()[c]@ == if c.rank() < i {
                    rotated_log(c, first[c]@)
                } else {
                    first[c]@
                },
            forall|c: LogComponent| #[trigger]
                first.contains_key(c) && c.rank() >= i ==> files.entries()[c] == first[c],
            rotations@.map_values(|x: ComponentRotation| x@) == rotations_of(first, i as int),
        decreases 5 - i,
    {
        let component = REQUIRED_COMPONENTS[i];
        assert(component.rank() == i && forall|c: LogComponent| #[trigger]
            c.rank() == i ==> c == component) by {
            crate::merge::rank_of_required(i as int);
        }
        if component != LogComponent::Arena {
            let ghost before = files.entries();
            let kept = match files.get(component) {
                None => None,
                Some(bytes) => match rotate_component_log(bytes.as_slice()) {
                    None => None,
                    Some(kept) => Some((bytes.len(), kept)),
                },
            };
            if let Some((length, kept)) = kept {
                let rotation = ComponentRotation {
                    component: component.filename(),
                    previous_bytes: length as u64,
                    retained_bytes: kept.len() as u64,
                };
                let ghost listed = rotations@;
                rotations.push(rotation);
                assert(rotations@.map_values(|x: ComponentRotation| x@) =~= listed.map_values(
                    |x: ComponentRotation| x@,
                ).push(rotation@));
                files.insert(component, kept);
                assert(files.entries().dom() =~= first.dom());
            }
        }
        i = i + 1;
    }
    RotationOutcome { rotations, failures: Vec::new() }
}

/// What stays of a log are its newest bytes, from the start of a record on where one starts
/// among them, and never more than the limit.
pub proof fn rotation_keeps_the_newest_records(b: Seq<u8>)
    requires
        b.len() > ROTATE_AT_BYTES,
    ensures
        rotated(b).len() <= ROTATION_KEEP_BYTES,
        rotated(b) == b.skip(b.len() - rotated(b).len()),
        (exists|k: int| b.len() - ROTATION_KEEP_BYTES <= k < b.len() && #[trigger] b[k] == NEWLINE)
            ==> b[b.len() - rotated(b).len() - 1] == NEWLINE,
{
    let start = b.len() - ROTATION_KEEP_BYTES;
    let tail = b.skip(start);
    newline_from_is_first(tail, 0);
    match newline_from(tail, 0) {
        Some(k) => {
            assert(rotated(b) =~= b.skip(start + k + 1));
            assert(tail[k] == b[start + k]);
        },
        None => {
            assert forall|k: int| start <= k < b.len() implies #[trigger] b[k] != NEWLINE by {
                assert(tail[k - start] == b[k]);
            }
        },
    }
}

/// A log that was shortened is not shortened again before it has grown, and stays below the
/// game's limit.
pub proof fn rotation_is_stable(b: Seq<u8>)
    ensures
        rotated(rotated(b)) == rotated(b),
        rotated(b).len() <= ROTATE_AT_BYTES < GAME_LOG_CAP_BYTES,
{
    if b.len() > ROTATE_AT_BYTES {
        rotation_keeps_the_newest_records(b);
    }
}

} // verus!
