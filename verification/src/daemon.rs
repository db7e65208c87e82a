//! The decisions of the background service: which session it serves, how it takes its socket, and
//! which version a refreshed card catalog has.
use crate::ini::{char_place, find_char};
use crate::merge::FileIdentity;
use crate::state::opt_text;
use crate::text::{self, decimal, occurs_at};
use vstd::prelude::*;

verus! {

/// The session to serve, and the directory in which newer ones are looked for. A session that was
/// asked for is served as it is, and nothing is looked for.
pub fn select_serve_session(
    explicit: Option<String>,
    log_root: Option<String>,
    newest: Option<String>,
    latest: Option<String>,
) -> (r: Result<(String, Option<String>), &'static str>)
    ensures
        match r {
            Ok((session, root)) => match explicit {
                Some(path) => session@ == path@ && root is None,
                None => opt_text(root) == opt_text(log_root) && Some(session@) == (if newest is Some {
                    opt_text(newest)
                } else {
                    opt_text(latest)
                }),
            },
            Err(reason) => explicit is None && newest is None && latest is None && reason@
                == "no Hearthstone log session found; launch Hearthstone or pass --logs"@,
        },
{
    match explicit {
        Some(session) => return Ok((session, None)),
        None => {},
    }
    match newest {
        Some(session) => return Ok((session, log_root)),
        None => {},
    }
    match latest {
        Some(session) => Ok((session, log_root)),
        None => Err("no Hearthstone log session found; launch Hearthstone or pass --logs"),
    }
}

/// What has happened to a service that reads a session at a fixed interval.
#[derive(Clone, Copy, Debug, PartialEq, Eq, Structural)]
pub enum ServeEvent {
    /// The interval has passed. A newer session may have become the one to serve.
    Ticked { newer_session: bool },
    /// The newer session was attached to.
    NextAttached,
    /// The newer session could not be attached to yet.
    NextNotReady,
    /// The session was read on.
    Polled { changed: bool },
    /// The session could not be read on.
    PollFailed,
    /// The session was read again from its start.
    Replayed,
    /// The session could not be read again yet.
    ReplayFailed,
}

/// What the service does next.
#[derive(Clone, Copy, Debug, PartialEq, Eq, Structural)]
pub enum ServeAction {
    /// Attach to the newer session.
    AttachNext,
    /// Publish the state of the session, then read on.
    PublishAndPoll,
    /// Read on.
    Poll,
    /// Read the session again from its start.
    Replay,
    /// Publish the state of the session, then wait for the interval.
    Publish,
    /// Wait for the interval, with the state that was published last.
    Wait,
}

/// What follows an event.
pub open spec fn serve_action(event: ServeEvent) -> ServeAction {
    match event {
        ServeEvent::Ticked { newer_session } => if newer_session {
            ServeAction::AttachNext
        } else {
            ServeAction::Poll
        },
        ServeEvent::NextAttached => ServeAction::PublishAndPoll,
        ServeEvent::NextNotReady => ServeAction::Poll,
        ServeEvent::Polled { changed } => if changed {
            ServeAction::Publish
        } else {
            ServeAction::Wait
        },
        ServeEvent::PollFailed => ServeAction::Replay,
        ServeEvent::Replayed => ServeAction::Publish,
        ServeEvent::ReplayFailed => ServeAction::Wait,
    }
}

/// What the service does after an event. No failure ends it: a session that cannot be read is
/// tried again, and what was published stays until something newer is known.
pub fn next_serve_action(event: ServeEvent) -> (r: ServeAction)
    ensures
        r == serve_action(event),
{
    match event {
        ServeEvent::Ticked { newer_session } => if newer_session {
            ServeAction::AttachNext
        } else {
            ServeAction::Poll
        },
        ServeEvent::NextAttached => ServeAction::PublishAndPoll,
        ServeEvent::NextNotReady => ServeAction::Poll,
        ServeEvent::Polled { changed } => if changed {
            ServeAction::Publish
        } else {
            ServeAction::Wait
        },
        ServeEvent::PollFailed => ServeAction::Replay,
        ServeEvent::Replayed => ServeAction::Publish,
        ServeEvent::ReplayFailed => ServeAction::Wait,
    }
}

/// Whether an event is a possible outcome of an action.
pub open spec fn outcome_of(action: ServeAction, event: ServeEvent) -> bool {
    match action {
        ServeAction::AttachNext => event is NextAttached || event is NextNotReady,
        ServeAction::PublishAndPoll | ServeAction::Poll => event is Polled || event is PollFailed,
        ServeAction::Replay => event is Replayed || event is ReplayFailed,
        ServeAction::Publish | ServeAction::Wait => event is Ticked,
    }
}

/// How many more outcomes there can be before the service waits for its interval.
pub open spec fn steps_left(action: ServeAction) -> nat {
    match action {
        ServeAction::AttachNext => 3,
        ServeAction::PublishAndPoll | ServeAction::Poll => 2,
        ServeAction::Replay => 1,
        ServeAction::Publish | ServeAction::Wait => 0,
    }
}

/// Between two intervals the service comes to rest: each outcome leaves fewer to come. Whatever
/// came in that is new is published, and nothing is published where nothing new came in.
pub proof fn serving_settles_and_publishes_news(action: ServeAction, event: ServeEvent)
    requires
        outcome_of(action, event),
    ensures
        steps_left(action) > 0 ==> steps_left(serve_action(event)) < steps_left(action),
        (serve_action(event) is Publish || serve_action(event) is PublishAndPoll) <==> (event
            is NextAttached || event is Replayed || event == (ServeEvent::Polled { changed: true })),
{
}

/// The time between two reads, in milliseconds: never below a tenth of a second.
pub fn poll_interval_millis(asked: u64) -> (r: u64)
    ensures
        r == (if asked < 100 {
            100
        } else {
            asked
        }),
{
    if asked < 100 {
        100
    } else {
        asked
    }
}

/// What stands under the path of the socket.
#[derive(Clone, Copy, Debug, PartialEq, Eq, Structural)]
pub enum SocketProbe {
    Nothing,
    /// Something that is no socket.
    OtherFile,
    /// A socket that answers.
    Live,
    /// A socket that nobody listens to.
    Stale,
    /// A socket of which neither is known.
    Unknown,
}

/// What is done with the path of the socket.
#[derive(Clone, Copy, Debug, PartialEq, Eq, Structural)]
pub enum SocketAction {
    Bind,
    RemoveAndBind,
    Refuse,
}

/// What is done with the path of the socket: only a socket that nobody listens to is replaced.
pub fn socket_action(probe: SocketProbe) -> (r: SocketAction)
    ensures
        r == (match probe {
            SocketProbe::Nothing => SocketAction::Bind,
            SocketProbe::Stale => SocketAction::RemoveAndBind,
            _ => SocketAction::Refuse,
        }),
{
    match probe {
        SocketProbe::Nothing => SocketAction::Bind,
        SocketProbe::Stale => SocketAction::RemoveAndBind,
        SocketProbe::OtherFile | SocketProbe::Live | SocketProbe::Unknown => SocketAction::Refuse,
    }
}

/// Why the path of the socket is refused.
pub open spec fn socket_refusal_text(probe: SocketProbe, path: Seq<char>) -> Option<Seq<char>> {
    match probe {
        SocketProbe::OtherFile => Some("refusing to replace non-socket path "@ + path),
        SocketProbe::Live => Some(
            "a live local service is already listening at "@ + path
                + "; refusing to displace it"@,
        ),
        SocketProbe::Unknown => Some(
            "could not verify whether the existing socket "@ + path
                + " is stale; refusing to replace it"@,
        ),
        _ => None,
    }
}

/// Why the path of the socket is refused.
pub fn socket_refusal(probe: SocketProbe, path: &str) -> (r: Option<String>)
    ensures
        opt_text(r) == socket_refusal_text(probe, path@),
{
    match probe {
        SocketProbe::OtherFile => {
            let mut out = text::copy("refusing to replace non-socket path ");
            out.append(path);
            Some(out)
        },
        SocketProbe::Live => {
            let mut out = text::copy("a live local service is already listening at ");
            out.append(path);
            out.append("; refusing to displace it");
            Some(out)
        },
        SocketProbe::Unknown => {
            let mut out = text::copy("could not verify whether the existing socket ");
            out.append(path);
            out.append(" is stale; refusing to replace it");
            Some(out)
        },
        SocketProbe::Nothing | SocketProbe::Stale => None,
    }
}

/// Whether the socket may be removed at the end: it is still the one that was made.
pub fn may_remove_socket(own: FileIdentity, found: Option<FileIdentity>, is_socket: bool) -> (r: bool)
    ensures
        r == (found == Some(own) && is_socket),
{
    match found {
        Some(identity) => identity == own && is_socket,
        None => false,
    }
}

/// A text without the characters at its start that are `c`.
pub open spec fn without_leading(s: Seq<char>, c: char) -> Seq<char>
    decreases s.len(),
{
    if s.len() > 0 && s[0] == c {
        without_leading(s.skip(1), c)
    } else {
        s
    }
}

/// A text without the characters at its end that are `c`.
pub open spec fn without_trailing(s: Seq<char>, c: char) -> Seq<char>
    decreases s.len(),
{
    if s.len() > 0 && s.last() == c {
        without_trailing(s.drop_last(), c)
    } else {
        s
    }
}

fn trim_char(s: &[char], c: char) -> (r: String)
    ensures
        r@ == without_trailing(without_leading(s@, c), c),
{
    let mut start: usize = 0;
    assert(s@.skip(0) =~= s@);
    while start < s.len() && s[start] == c
        invariant
            start <= s.len(),
            without_leading(s@, c) == without_leading(s@.skip(start as int), c),
        decreases s.len() - start,
    {
        assert(s@.skip(start as int).skip(1) =~= s@.skip(start + 1));
        start = start + 1;
    }
    let ghost rest = s@.skip(start as int);
    assert(without_leading(s@, c) == rest);
    let mut end: usize = s.len();
    assert(rest.take(rest.len() as int) =~= rest);
    while end > start && s[end - 1] == c
        invariant
            start <= end <= s.len(),
            rest == s@.skip(start as int),
            without_trailing(rest, c) == without_trailing(rest.take(end - start), c),
        decreases end - start,
    {
        assert(rest.take(end - start).drop_last() =~= rest.take(end - start - 1));
        assert(rest.take(end - start).last() == s@[end - 1]);
        end = end - 1;
    }
    proof {
        let kept = rest.take(end - start);
        if end > start {
            assert(kept.last() == s@[end - 1]);
        }
        assert(without_trailing(kept, c) == kept);
    }
    let part = vstd::slice::slice_subrange(s, start, end);
    assert(part@ =~= rest.take(end - start));
    text::string_of(part)
}

/// The first index, not below `i`, at which `part` stands in `whole`.
pub open spec fn part_place(whole: Seq<char>, part: Seq<char>, i: int) -> Option<int>
    decreases whole.len() + 1 - i,
{
    if i > whole.len() {
        None
    } else if occurs_at(whole, part, i) {
        Some(i)
    } else {
        part_place(whole, part, i + 1)
    }
}

proof fn first_place_is_found(whole: Seq<char>, part: Seq<char>, i: int, at: Option<int>)
    requires
        0 <= i,
        match at {
            Some(at) => i <= at && occurs_at(whole, part, at) && forall|k: int|
                i <= k < at ==> !occurs_at(whole, part, k),
            None => forall|k: int| i <= k ==> !occurs_at(whole, part, k),
        },
    ensures
        part_place(whole, part, i) == at,
    decreases whole.len() + 1 - i,
{
    if i <= whole.len() {
        if occurs_at(whole, part, i) {
            assert(at == Some(i));
        } else {
            first_place_is_found(whole, part, i + 1, at);
        }
    }
}

/// The version that the address of a card catalog names: what follows the first `/v1/` in it.
pub open spec fn version_in_url(url: Seq<char>) -> Seq<char> {
    match part_place(url, "/v1/"@, 0) {
        None => "latest"@,
        Some(k) => {
            let rest = url.skip(k + 4);
            match char_place(rest, '/', 0) {
                Some(end) => rest.take(end),
                None => rest,
            }
        },
    }
}

/// The version of a card catalog: the tag that came with it, without quotes, else what its address
/// says.
pub fn catalog_version(tag: Option<&str>, url: &str) -> (r: String)
    ensures
        r@ == (match tag {
            Some(tag) => without_trailing(without_leading(tag@, '"'), '"'),
            None => version_in_url(url@),
        }),
{
    match tag {
        Some(tag) => {
            let chars = text::chars_of(tag);
            return trim_char(chars.as_slice(), '"');
        },
        None => {},
    }
    let chars = text::chars_of(url);
    let mark = text::chars_of("/v1/");
    let found = text::find_from(chars.as_slice(), mark.as_slice(), 0);
    proof {
        reveal_strlit("/v1/");
        first_place_is_found(
            url@,
            "/v1/"@,
            0,
            match found {
                Some(k) => Some(k as int),
                None => None,
            },
        );
    }
    match found {
        None => text::copy("latest"),
        Some(k) => {
            assert(mark@.len() == 4);
            assert(k + 4 <= chars@.len());
            assert(chars@.len() == chars.len());
            let rest = vstd::slice::slice_subrange(chars.as_slice(), k + 4, chars.len());
            assert(rest@ =~= url@.skip(k + 4));
            match find_char(rest, '/', 0) {
                Some(end) => {
                    let part = vstd::slice::slice_subrange(rest, 0, end);
                    assert(part@ =~= rest@.take(end as int));
                    text::string_of(part)
                },
                None => text::string_of(rest),
            }
        },
    }
}

/// Why a configuration is not changed without being told so.
pub fn write_refusal(path: &str) -> (r: String)
    ensures
        r@ == "refusing to modify "@ + path@ + "; rerun with `config enable --write`"@,
{
    let mut out = text::copy("refusing to modify ");
    out.append(path);
    out.append("; rerun with `config enable --write`");
    out
}

/// The name of the file into which a state is written before it takes its place.
pub fn temporary_state_name(file_name: &str, process: u32, nonce: u64, attempt: u8) -> (r: String)
    ensures
        r@ == "."@ + file_name@ + "."@ + decimal(process as nat) + "."@ + decimal(nonce as nat)
            + "."@ + decimal(attempt as nat) + ".tmp"@,
{
    let mut out = text::copy(".");
    out.append(file_name);
    out.append(".");
    text::push_decimal(&mut out, process as u64);
    out.append(".");
    text::push_decimal(&mut out, nonce);
    out.append(".");
    text::push_decimal(&mut out, attempt as u64);
    out.append(".tmp");
    out
}

} // verus!
