//! Where the game, its configuration and its logs are found.
//!
//! Nothing is looked up here: the caller says what stands under a path. Finding paths never changes
//! anything.
use crate::text::{self, texts};
use crate::text_map::TextMap;
use vstd::prelude::*;

verus! {

/// The components whose logs make up a session.
pub const LOG_COMPONENTS: [&'static str; 5] = ["LoadingScreen", "Power", "Zone", "Arena", "Asset"];

/// A path below another one. The name is relative.
pub open spec fn below(base: Seq<char>, name: Seq<char>) -> Seq<char> {
    if base.len() == 0 || base.last() == '/' {
        base + name
    } else {
        base + "/"@ + name
    }
}

/// A path below another one. The name is relative.
pub fn join_path(base: &str, name: &str) -> (r: String)
    ensures
        r@ == below(base@, name@),
{
    let chars = text::chars_of(base);
    let mut out = text::copy(base);
    if chars.len() > 0 && chars[chars.len() - 1] != '/' {
        out.append("/");
    }
    out.append(name);
    assert(out@ =~= below(base@, name@));
    out
}

/// The name of a component's log.
pub open spec fn log_name(i: int) -> Seq<char> {
    LOG_COMPONENTS@[i]@ + ".log"@
}

/// Paths that the user set.
pub struct PathOverrides {
    pub install_dir: Option<String>,
    pub log_dir: Option<String>,
    pub log_config: Option<String>,
}

/// A list of texts, with one more in front where it is given.
pub open spec fn with_override(first: Option<String>, rest: Seq<Seq<char>>) -> Seq<Seq<char>> {
    match first {
        Some(path) => seq![path@] + rest,
        None => rest,
    }
}

/// Where the game may be installed, in the order in which that is looked up.
pub open spec fn install_places(home: Seq<char>, overrides: PathOverrides) -> Seq<Seq<char>> {
    with_override(
        overrides.install_dir,
        seq![
            "/Applications/Hearthstone/Hearthstone.app"@,
            "/Applications/Hearthstone.app"@,
            below(home, "Applications/Hearthstone/Hearthstone.app"@),
        ],
    )
}

/// Where the logs may be, in the order in which that is looked up.
pub open spec fn log_root_places(home: Seq<char>, overrides: PathOverrides) -> Seq<Seq<char>> {
    with_override(
        overrides.log_dir,
        seq![
            "/Applications/Hearthstone/Logs"@,
            "/Applications/Hearthstone.app/Logs"@,
            below(home, "Library/Preferences/Blizzard/Hearthstone/Logs"@),
            below(home, "Library/Application Support/Blizzard/Hearthstone/Logs"@),
            below(home, "Library/Application Support/Blizzard/Hearthstone"@),
        ],
    )
}

/// Where the logging configuration may be, in the order in which that is looked up.
pub open spec fn log_config_places(
    home: Seq<char>,
    install_dir: Option<Seq<char>>,
    overrides: PathOverrides,
) -> Seq<Seq<char>> {
    with_override(
        overrides.log_config,
        (match install_dir {
            Some(dir) => seq![
                below(dir, "log.config"@),
                below(dir, "Contents/Resources/log.config"@),
            ],
            None => Seq::empty(),
        }) + seq![
            below(home, "Library/Preferences/Blizzard/Hearthstone/log.config"@),
            below(home, "Library/Application Support/Blizzard/Hearthstone/log.config"@),
        ],
    )
}

fn start_list(first: &Option<String>) -> (r: Vec<String>)
    ensures
        texts(r@) == with_override(*first, Seq::empty()),
{
    let mut out: Vec<String> = Vec::new();
    match first {
        Some(path) => {
            out.push(text::copy(path.as_str()));
        },
        None => {},
    }
    assert(texts(out@) =~= with_override(*first, Seq::empty()));
    out
}

fn push_path(out: &mut Vec<String>, path: String)
    ensures
        texts(final(out)@) == texts(old(out)@).push(path@),
{
    out.push(path);
    assert(texts(out@) =~= texts(old(out)@).push(path@));
}

/// Where the game may be installed, in the order in which that is looked up.
pub fn install_candidates(home: &str, overrides: &PathOverrides) -> (r: Vec<String>)
    ensures
        texts(r@) == install_places(home@, *overrides),
{
    let mut out = start_list(&overrides.install_dir);
    push_path(&mut out, text::copy("/Applications/Hearthstone/Hearthstone.app"));
    push_path(&mut out, text::copy("/Applications/Hearthstone.app"));
    push_path(&mut out, join_path(home, "Applications/Hearthstone/Hearthstone.app"));
    assert(texts(out@) =~= install_places(home@, *overrides));
    out
}

/// Where the logs may be, in the order in which that is looked up.
pub fn log_root_candidates(home: &str, overrides: &PathOverrides) -> (r: Vec<String>)
    ensures
        texts(r@) == log_root_places(home@, *overrides),
{
    let mut out = start_list(&overrides.log_dir);
    push_path(&mut out, text::copy("/Applications/Hearthstone/Logs"));
    push_path(&mut out, text::copy("/Applications/Hearthstone.app/Logs"));
    push_path(&mut out, join_path(home, "Library/Preferences/Blizzard/Hearthstone/Logs"));
    push_path(&mut out, join_path(home, "Library/Application Support/Blizzard/Hearthstone/Logs"));
    push_path(&mut out, join_path(home, "Library/Application Support/Blizzard/Hearthstone"));
    assert(texts(out@) =~= log_root_places(home@, *overrides));
    out
}

/// The text of an optional path.
pub open spec fn path_text(path: Option<String>) -> Option<Seq<char>> {
    match path {
        Some(path) => Some(path@),
        None => None,
    }
}

/// Where the logging configuration may be, in the order in which that is looked up.
pub fn log_config_candidates(
    home: &str,
    install_dir: &Option<String>,
    overrides: &PathOverrides,
) -> (r: Vec<String>)
    ensures
        texts(r@) == log_config_places(home@, path_text(*install_dir), *overrides),
{
    let mut out = start_list(&overrides.log_config);
    match install_dir {
        Some(dir) => {
            push_path(&mut out, join_path(dir.as_str(), "log.config"));
            push_path(&mut out, join_path(dir.as_str(), "Contents/Resources/log.config"));
        },
        None => {},
    }
    push_path(&mut out, join_path(home, "Library/Preferences/Blizzard/Hearthstone/log.config"));
    push_path(
        &mut out,
        join_path(home, "Library/Application Support/Blizzard/Hearthstone/log.config"),
    );
    assert(texts(out@) =~= log_config_places(home@, path_text(*install_dir), *overrides));
    out
}

/// What stands under a path.
#[derive(Clone, Copy, Debug, PartialEq, Eq, Structural)]
pub struct PathFact {
    pub exists: bool,
    pub is_dir: bool,
    /// Whether it holds the log of a component.
    pub has_logs: bool,
}

/// What is asked of a path.
#[derive(Clone, Copy, Debug, PartialEq, Eq, Structural)]
pub enum Wanted {
    Anything,
    Directory,
    DirectoryWithLogs,
}

/// Whether what stands under a path is what is asked for.
pub open spec fn offers(facts: TextMap<PathFact>, path: Seq<char>, wanted: Wanted) -> bool {
    match facts.lookup(path) {
        None => false,
        Some(fact) => match wanted {
            Wanted::Anything => fact.exists,
            Wanted::Directory => fact.is_dir,
            Wanted::DirectoryWithLogs => fact.is_dir && fact.has_logs,
        },
    }
}

/// The first of some paths that offers what is asked for.
pub open spec fn first_with(
    facts: TextMap<PathFact>,
    paths: Seq<Seq<char>>,
    wanted: Wanted,
    n: int,
) -> Option<Seq<char>>
    decreases n,
{
    if n <= 0 {
        None
    } else {
        match first_with(facts, paths, wanted, n - 1) {
            Some(path) => Some(path),
            None => if offers(facts, paths[n - 1], wanted) {
                Some(paths[n - 1])
            } else {
                None
            },
        }
    }
}

fn find_first(facts: &TextMap<PathFact>, paths: &Vec<String>, wanted: Wanted) -> (r: Option<String>)
    requires
        facts.wf(),
    ensures
        path_text(r) == first_with(*facts, texts(paths@), wanted, paths@.len() as int),
{
    let mut found: Option<String> = None;
    let mut i: usize = 0;
    while i < paths.len()
        invariant
            i <= paths.len(),
            facts.wf(),
            path_text(found) == first_with(*facts, texts(paths@), wanted, i as int),
        decreases paths.len() - i,
    {
        assert(texts(paths@)[i as int] == paths@[i as int]@);
        if found.is_none() {
            let fits = match facts.get(paths[i].as_str()) {
                None => false,
                Some(fact) => match wanted {
                    Wanted::Anything => fact.exists,
                    Wanted::Directory => fact.is_dir,
                    Wanted::DirectoryWithLogs => fact.is_dir && fact.has_logs,
                },
            };
            if fits {
                found = Some(text::copy(paths[i].as_str()));
            }
        }
        i = i + 1;
    }
    found
}

/// A directory that may hold a session.
pub struct SessionFacts {
    pub path: String,
    /// Which components have a log there.
    pub has_log: [bool; 5],
    /// When a log was written last, in milliseconds, where that is known.
    pub newest_millis: Option<u128>,
}

/// The number of components with a log.
pub open spec fn coverage(session: SessionFacts) -> nat {
    let has = session.has_log@;
    (if has[0] {
        1nat
    } else {
        0
    }) + (if has[1] {
        1nat
    } else {
        0
    }) + (if has[2] {
        1nat
    } else {
        0
    }) + (if has[3] {
        1nat
    } else {
        0
    }) + (if has[4] {
        1nat
    } else {
        0
    })
}

/// How useful a session is: first by the components it covers, next by how new it is.
pub open spec fn usefulness(session: SessionFacts) -> nat {
    let value = coverage(session) * 100_000_000_000_000_000_000 + match session.newest_millis {
        Some(millis) => millis as nat,
        None => 0,
    };
    if value < u128::MAX {
        value
    } else {
        u128::MAX as nat
    }
}

/// Whether a session is the most useful one, and the last of those that are as useful.
pub open spec fn is_latest_session(sessions: Seq<SessionFacts>, at: int) -> bool {
    &&& 0 <= at < sessions.len()
    &&& coverage(sessions[at]) > 0
    &&& forall|j: int|
        0 <= j < sessions.len() && coverage(#[trigger] sessions[j]) > 0 ==> {
            &&& usefulness(sessions[j]) <= usefulness(sessions[at])
            &&& j > at ==> usefulness(sessions[j]) < usefulness(sessions[at])
        }
}

fn count_logs(session: &SessionFacts) -> (r: u128)
    ensures
        r == coverage(*session),
{
    let mut count: u128 = 0;
    if session.has_log[0] {
        count = count + 1;
    }
    if session.has_log[1] {
        count = count + 1;
    }
    if session.has_log[2] {
        count = count + 1;
    }
    if session.has_log[3] {
        count = count + 1;
    }
    if session.has_log[4] {
        count = count + 1;
    }
    count
}

fn measure(session: &SessionFacts) -> (r: u128)
    ensures
        r == usefulness(*session),
{
    let base: u128 = count_logs(session) * 100_000_000_000_000_000_000;
    let millis: u128 = match session.newest_millis {
        Some(millis) => millis,
        None => 0,
    };
    if millis > u128::MAX - base {
        u128::MAX
    } else {
        base + millis
    }
}

/// The session to follow among the directories of the logs: the one that covers the most
/// components, and of those the newest.
pub fn latest_log_session(sessions: &Vec<SessionFacts>) -> (r: Option<usize>)
    ensures
        match r {
            Some(at) => is_latest_session(sessions@, at as int),
            None => forall|j: int| 0 <= j < sessions@.len() ==> coverage(#[trigger] sessions@[j]) == 0,
        },
{
    let mut best: Option<usize> = None;
    let mut i: usize = 0;
    while i < sessions.len()
        invariant
            i <= sessions.len(),
            match best {
                Some(at) => at < i && coverage(sessions@[at as int]) > 0 && forall|j: int|
                    0 <= j < i && coverage(#[trigger] sessions@[j]) > 0 ==> {
                        &&& usefulness(sessions@[j]) <= usefulness(sessions@[at as int])
                        &&& j > at ==> usefulness(sessions@[j]) < usefulness(sessions@[at as int])
                    },
                None => forall|j: int| 0 <= j < i ==> coverage(#[trigger] sessions@[j]) == 0,
            },
        decreases sessions.len() - i,
    {
        if count_logs(&sessions[i]) > 0 {
            let better = match best {
                None => true,
                Some(at) => measure(&sessions[i]) >= measure(&sessions[at]),
            };
            if better {
                best = Some(i);
            }
        }
        i = i + 1;
    }
    best
}

/// A session that covers more components is preferred to any newer one. Times are of this age of
/// the world: below ten to the twentieth milliseconds.
pub proof fn covering_sessions_win(sessions: Seq<SessionFacts>, at: int, j: int)
    requires
        is_latest_session(sessions, at),
        0 <= j < sessions.len(),
        sessions[at].newest_millis matches Some(t) ==> t < 100_000_000_000_000_000_000,
        sessions[j].newest_millis matches Some(t) ==> t < 100_000_000_000_000_000_000,
    ensures
        coverage(sessions[j]) <= coverage(sessions[at]),
{
    if coverage(sessions[j]) > 0 {
        assert(usefulness(sessions[j]) <= usefulness(sessions[at]));
    }
}

/// The logs of a session that exist, with their components.
pub open spec fn existing_logs(session: Seq<char>, has_log: Seq<bool>, n: int) -> Seq<
    (Seq<char>, Seq<char>),
>
    decreases n,
{
    if n <= 0 {
        Seq::empty()
    } else if has_log[n - 1] {
        existing_logs(session, has_log, n - 1).push(
            (LOG_COMPONENTS@[n - 1]@, below(session, log_name(n - 1))),
        )
    } else {
        existing_logs(session, has_log, n - 1)
    }
}

/// The models of pairs of texts.
pub open spec fn pair_models(v: Seq<(String, String)>) -> Seq<(Seq<char>, Seq<char>)> {
    v.map_values(|p: (String, String)| (p.0@, p.1@))
}

/// The logs of a session that exist, with their components.
pub fn component_paths(session_dir: &str, has_log: &[bool; 5]) -> (r: Vec<(String, String)>)
    ensures
        pair_models(r@) == existing_logs(session_dir@, has_log@, 5),
{
    let mut out: Vec<(String, String)> = Vec::new();
    let mut i: usize = 0;
    assert(pair_models(out@) =~= Seq::<(Seq<char>, Seq<char>)>::empty());
    while i < 5
        invariant
            i <= 5,
            pair_models(out@) == existing_logs(session_dir@, has_log@, i as int),
        decreases 5 - i,
    {
        if has_log[i] {
            let component = LOG_COMPONENTS[i];
            let mut name = text::copy(component);
            name.append(".log");
            let ghost before = out@;
            let path = join_path(session_dir, name.as_str());
            out.push((text::copy(component), path));
            assert(pair_models(out@) =~= pair_models(before).push((component@, path@)));
        }
        i = i + 1;
    }
    out
}

/// What was found of the game.
pub struct GamePaths {
    pub install_dir: Option<String>,
    pub log_config: Option<String>,
    pub log_roots_checked: Vec<String>,
    pub log_root: Option<String>,
    pub latest_session: Option<String>,
}

/// The directory of the logs: the first with logs in it, else the first that exists.
pub open spec fn log_root_of(facts: TextMap<PathFact>, roots: Seq<Seq<char>>) -> Option<Seq<char>> {
    match first_with(facts, roots, Wanted::DirectoryWithLogs, roots.len() as int) {
        Some(path) => Some(path),
        None => first_with(facts, roots, Wanted::Directory, roots.len() as int),
    }
}

/// The directory of the logs: the first with logs in it, else the first that exists.
pub fn choose_log_root(facts: &TextMap<PathFact>, roots: &Vec<String>) -> (r: Option<String>)
    requires
        facts.wf(),
    ensures
        path_text(r) == log_root_of(*facts, texts(roots@)),
{
    match find_first(facts, roots, Wanted::DirectoryWithLogs) {
        Some(path) => Some(path),
        None => find_first(facts, roots, Wanted::Directory),
    }
}

/// Where the game is installed.
pub open spec fn installed(
    home: Seq<char>,
    overrides: PathOverrides,
    facts: TextMap<PathFact>,
) -> Option<Seq<char>> {
    let places = install_places(home, overrides);
    first_with(facts, places, Wanted::Anything, places.len() as int)
}

/// Where the logging configuration is, or is to be.
pub open spec fn configured(
    home: Seq<char>,
    overrides: PathOverrides,
    facts: TextMap<PathFact>,
) -> Seq<char> {
    let install_dir = installed(home, overrides, facts);
    let places = log_config_places(home, install_dir, overrides);
    match first_with(facts, places, Wanted::Anything, places.len() as int) {
        Some(path) => path,
        None => match install_dir {
            Some(dir) => below(dir, "log.config"@),
            None => below(home, "Library/Preferences/Blizzard/Hearthstone/log.config"@),
        },
    }
}

/// Finds the game. `sessions` are the directories below the directory of the logs. Without a home
/// directory nothing can be found.
pub fn discover_macos(
    home: Option<&str>,
    overrides: &PathOverrides,
    facts: &TextMap<PathFact>,
    sessions: &Vec<SessionFacts>,
) -> (r: Result<GamePaths, &'static str>)
    requires
        facts.wf(),
    ensures
        match (home, r) {
            (None, Err(reason)) => reason@ == "could not determine a home directory"@,
            (Some(home), Ok(paths)) => {
                let roots = log_root_places(home@, *overrides);
                &&& path_text(paths.install_dir) == installed(home@, *overrides, *facts)
                &&& path_text(paths.log_config) == Some(configured(home@, *overrides, *facts))
                &&& texts(paths.log_roots_checked@) == roots
                &&& path_text(paths.log_root) == log_root_of(*facts, roots)
                &&& match paths.latest_session {
                    Some(path) => paths.log_root is Some && exists|at: int| #[trigger]
                        is_latest_session(sessions@, at) && sessions@[at].path@ == path@,
                    None => paths.log_root is None || forall|j: int|
                        0 <= j < sessions@.len() ==> coverage(#[trigger] sessions@[j]) == 0,
                }
            },
            _ => false,
        },
{
    let home = match home {
        None => return Err("could not determine a home directory"),
        Some(home) => home,
    };
    let install_dir = find_first(facts, &install_candidates(home, overrides), Wanted::Anything);
    let log_roots_checked = log_root_candidates(home, overrides);
    let log_root = choose_log_root(facts, &log_roots_checked);
    let log_config = match find_first(
        facts,
        &log_config_candidates(home, &install_dir, overrides),
        Wanted::Anything,
    ) {
        Some(path) => path,
        None => match &install_dir {
            Some(dir) => join_path(dir.as_str(), "log.config"),
            None => join_path(home, "Library/Preferences/Blizzard/Hearthstone/log.config"),
        },
    };
    let latest_session = if log_root.is_some() {
        match latest_log_session(sessions) {
            Some(at) => Some(text::copy(sessions[at].path.as_str())),
            None => None,
        }
    } else {
        None
    };
    Ok(
        GamePaths {
            install_dir,
            log_config: Some(log_config),
            log_roots_checked,
            log_root,
            latest_session,
        },
    )
}

} // verus!
