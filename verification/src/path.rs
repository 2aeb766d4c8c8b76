//! Validation of network paths.
//!
//! A path carries no application data before the peer has echoed a fresh challenge over it.
//! Times are milliseconds on a clock of the caller.

use crate::constant_time::ct_eq;
use crate::random::{random_array, RngError};
use dashmap::DashMap;
use vstd::prelude::*;

verus! {

/// Bytes in a challenge and in its echo.
pub const PATH_CHALLENGE_LEN: usize = 32;

/// Where a path is in its life.
#[derive(Debug, Clone, Copy, PartialEq, Eq, Structural)]
pub enum PathStateKind {
    /// Seen, not challenged yet.
    Unvalidated,
    /// Challenged, waiting for the echo.
    Validating,
    /// The echo matched; application data may use the path.
    Validated,
    /// The echo did not match; the path stays closed.
    Failed,
}

/// What is known of one path.
#[derive(Debug, Clone, Copy)]
pub struct PathState {
    pub path_id: u8,
    pub kind: PathStateKind,
    /// Round-trip estimate in milliseconds.
    pub rtt_ms: u32,
    /// Loss estimate in percent.
    pub loss_pct: u8,
    /// When the last packet came.
    pub last_packet_seen: Option<u64>,
    /// The challenge that waits for its echo.
    pub pending_challenge: Option<[u8; 32]>,
}

/// A path that was just seen, in state `kind`.
pub open spec fn fresh_path(path_id: u8, kind: PathStateKind) -> PathState {
    PathState {
        path_id,
        kind,
        rtt_ms: 0,
        loss_pct: 0,
        last_packet_seen: None,
        pending_challenge: None,
    }
}

impl PathState {
    fn new(path_id: u8) -> (p: Self)
        ensures
            p == fresh_path(path_id, PathStateKind::Unvalidated),
    {
        PathState {
            path_id,
            kind: PathStateKind::Unvalidated,
            rtt_ms: 0,
            loss_pct: 0,
            last_packet_seen: None,
            pending_challenge: None,
        }
    }

    /// The state of the path.
    pub fn state(&self) -> (k: PathStateKind)
        ensures
            k == self.kind,
    {
        self.kind
    }

    /// Note a packet at `now_ms`.
    pub fn mark_seen(&mut self, now_ms: u64)
        ensures
            *final(self) == (PathState { last_packet_seen: Some(now_ms), ..*old(self) }),
    {
        self.last_packet_seen = Some(now_ms);
    }
}

/// The paths in a table, by their numbers.
pub uninterp spec fn path_table(m: DashMap<u8, PathState>) -> Map<u8, PathState>;

/// No paths.
pub open spec fn no_paths() -> Map<u8, PathState> {
    Map::empty()
}

/// Calls `DashMap::new`: the table is empty.
#[verifier::external_body]
fn table_new() -> (m: DashMap<u8, PathState>)
    ensures
        path_table(m) == no_paths(),
{
    DashMap::new()
}

/// Calls `DashMap::get` and copies the entry out: `None` exactly when there is none.
#[verifier::external_body]
fn table_get(m: &DashMap<u8, PathState>, path_id: u8) -> (p: Option<PathState>)
    ensures
        match p {
            Some(path) => path_table(*m).contains_key(path_id) && path_table(*m)[path_id] == path,
            None => !path_table(*m).contains_key(path_id),
        },
{
    m.get(&path_id).map(|p| *p.value())
}

/// Calls `DashMap::insert`: the entry is there afterwards, and the others are as before.
#[verifier::external_body]
fn table_insert(m: &mut DashMap<u8, PathState>, path_id: u8, p: PathState)
    ensures
        path_table(*final(m)) == path_table(*old(m)).insert(path_id, p),
{
    m.insert(path_id, p);
}

/// Calls `DashMap::len`: the number of entries.
#[verifier::external_body]
fn table_len(m: &DashMap<u8, PathState>) -> (n: usize)
    ensures
        n == path_table(*m).dom().len(),
{
    m.len()
}

/// Calls `DashMap::iter` and keeps the keys: each key once, in an order that is left open.
#[verifier::external_body]
fn table_keys(m: &DashMap<u8, PathState>) -> (keys: Vec<u8>)
    ensures
        keys@.no_duplicates(),
        forall|k: u8| keys@.contains(k) <==> path_table(*m).contains_key(k),
{
    m.iter().map(|e| *e.key()).collect()
}

/// What registering a path did.
#[derive(Debug, Clone, Copy, PartialEq, Eq, Structural)]
pub enum RegistrationResult {
    /// The path is new.
    Created,
    /// The path was known; nothing changed.
    AlreadyKnown,
}

/// The paths after `path_id` was registered in state `kind`.
pub open spec fn registered(
    paths: Map<u8, PathState>,
    path_id: u8,
    kind: PathStateKind,
) -> Map<u8, PathState> {
    if paths.contains_key(path_id) {
        paths
    } else {
        paths.insert(path_id, fresh_path(path_id, kind))
    }
}

/// Whether a path may be challenged.
pub open spec fn may_challenge(paths: Map<u8, PathState>, path_id: u8) -> bool {
    paths.contains_key(path_id) && (paths[path_id].kind == PathStateKind::Unvalidated
        || paths[path_id].kind == PathStateKind::Validating)
}

/// Whether challenging a path takes fresh bytes: it may be challenged, and no challenge is in
/// flight.
pub open spec fn wants_fresh(paths: Map<u8, PathState>, path_id: u8) -> bool {
    may_challenge(paths, path_id) && paths[path_id].pending_challenge is None
}

/// The challenge that `path_id` gets: the one in flight, else `fresh`. `None` where the path
/// may not be challenged.
pub open spec fn challenge_for(paths: Map<u8, PathState>, path_id: u8, fresh: [u8; 32]) -> Option<
    [u8; 32],
> {
    if !may_challenge(paths, path_id) {
        None
    } else {
        match paths[path_id].pending_challenge {
            Some(existing) => Some(existing),
            None => Some(fresh),
        }
    }
}

/// The paths after `path_id` was challenged with `fresh`, unless one was in flight.
pub open spec fn challenged(paths: Map<u8, PathState>, path_id: u8, fresh: [u8; 32]) -> Map<
    u8,
    PathState,
> {
    if may_challenge(paths, path_id) && paths[path_id].pending_challenge is None {
        paths.insert(
            path_id,
            PathState {
                kind: PathStateKind::Validating,
                pending_challenge: Some(fresh),
                ..paths[path_id]
            },
        )
    } else {
        paths
    }
}

/// Whether an echo reaches the comparison: the path waits for one, and it has the right
/// length.
pub open spec fn echo_counts(paths: Map<u8, PathState>, path_id: u8, response: Seq<u8>) -> bool {
    &&& paths.contains_key(path_id)
    &&& response.len() == PATH_CHALLENGE_LEN
    &&& paths[path_id].kind == PathStateKind::Validating
}

/// Whether an echo validates the path.
pub open spec fn echo_matches(paths: Map<u8, PathState>, path_id: u8, response: Seq<u8>) -> bool {
    &&& echo_counts(paths, path_id, response)
    &&& paths[path_id].pending_challenge matches Some(expected) && expected@ == response
}

/// The paths after an echo.
pub open spec fn answered(paths: Map<u8, PathState>, path_id: u8, response: Seq<u8>) -> Map<
    u8,
    PathState,
> {
    if echo_counts(paths, path_id, response) {
        paths.insert(
            path_id,
            PathState {
                kind: if echo_matches(paths, path_id, response) {
                    PathStateKind::Validated
                } else {
                    PathStateKind::Failed
                },
                pending_challenge: None,
                ..paths[path_id]
            },
        )
    } else {
        paths
    }
}

/// The paths of a session.
pub struct PathRegistry {
    paths: DashMap<u8, PathState>,
}

impl View for PathRegistry {
    type V = Map<u8, PathState>;

    closed spec fn view(&self) -> Map<u8, PathState> {
        path_table(self.paths)
    }
}

impl Default for PathRegistry {
    fn default() -> (r: Self)
        ensures
            r@ == no_paths(),
    {
        PathRegistry::new()
    }
}

impl PathRegistry {
    /// No paths.
    pub fn new() -> (r: Self)
        ensures
            r@ == no_paths(),
    {
        PathRegistry { paths: table_new() }
    }

    /// Register a path. A new one is unvalidated; a known one stays as it is.
    pub fn register(&mut self, path_id: u8) -> (r: RegistrationResult)
        ensures
            final(self)@ == registered(old(self)@, path_id, PathStateKind::Unvalidated),
            r == (if old(self)@.contains_key(path_id) {
                RegistrationResult::AlreadyKnown
            } else {
                RegistrationResult::Created
            }),
    {
        match table_get(&self.paths, path_id) {
            Some(_) => RegistrationResult::AlreadyKnown,
            None => {
                table_insert(&mut self.paths, path_id, PathState::new(path_id));
                RegistrationResult::Created
            },
        }
    }

    /// Register a path that needs no challenge, such as the one that the handshake took. A
    /// known path stays as it is.
    pub fn register_validated(&mut self, path_id: u8) -> (r: RegistrationResult)
        ensures
            final(self)@ == registered(old(self)@, path_id, PathStateKind::Validated),
            r == (if old(self)@.contains_key(path_id) {
                RegistrationResult::AlreadyKnown
            } else {
                RegistrationResult::Created
            }),
    {
        match table_get(&self.paths, path_id) {
            Some(_) => RegistrationResult::AlreadyKnown,
            None => {
                let mut p: PathState = PathState::new(path_id);
                p.kind = PathStateKind::Validated;
                table_insert(&mut self.paths, path_id, p);
                RegistrationResult::Created
            },
        }
    }

    /// Note a packet on a path at `now_ms`. Nothing happens on an unknown path.
    pub fn mark_seen(&mut self, path_id: u8, now_ms: u64)
        ensures
            final(self)@ == (if old(self)@.contains_key(path_id) {
                old(self)@.insert(
                    path_id,
                    (PathState { last_packet_seen: Some(now_ms), ..old(self)@[path_id] }),
                )
            } else {
                old(self)@
            }),
    {
        if let Some(mut p) = table_get(&self.paths, path_id) {
            p.mark_seen(now_ms);
            table_insert(&mut self.paths, path_id, p);
        }
    }

    /// Challenge a path with `fresh`, unless a challenge is in flight already: then that one
    /// is handed out again. `None` for an unknown path and for one that is validated or
    /// failed.
    pub fn issue_challenge_from(&mut self, path_id: u8, fresh: [u8; 32]) -> (c: Option<[u8; 32]>)
        ensures
            c == challenge_for(old(self)@, path_id, fresh),
            final(self)@ == challenged(old(self)@, path_id, fresh),
    {
        let mut path: PathState = match table_get(&self.paths, path_id) {
            Some(p) => p,
            None => {
                return None;
            },
        };
        match path.state() {
            PathStateKind::Unvalidated | PathStateKind::Validating => {},
            PathStateKind::Validated | PathStateKind::Failed => {
                return None;
            },
        }
        if let Some(existing) = path.pending_challenge {
            return Some(existing);
        }
        path.pending_challenge = Some(fresh);
        path.kind = PathStateKind::Validating;
        table_insert(&mut self.paths, path_id, path);
        Some(fresh)
    }

    /// Challenge a path with fresh random bytes, as `issue_challenge_from` does. Bytes are drawn
    /// only where a new challenge is made: only then it can fail, without a change, when the
    /// operating system has none.
    pub fn issue_challenge(&mut self, path_id: u8) -> (c: Result<Option<[u8; 32]>, RngError>)
        ensures
            !wants_fresh(old(self)@, path_id) ==> {
                &&& c == Ok::<Option<[u8; 32]>, RngError>(
                    if may_challenge(old(self)@, path_id) {
                        old(self)@[path_id].pending_challenge
                    } else {
                        None
                    },
                )
                &&& final(self)@ == old(self)@
            },
            wants_fresh(old(self)@, path_id) ==> match c {
                Ok(Some(fresh)) => final(self)@ == challenged(old(self)@, path_id, fresh),
                Ok(None) => false,
                Err(_) => final(self)@ == old(self)@,
            },
    {
        let path: PathState = match table_get(&self.paths, path_id) {
            Some(p) => p,
            None => {
                return Ok(None);
            },
        };
        match path.state() {
            PathStateKind::Unvalidated | PathStateKind::Validating => {},
            PathStateKind::Validated | PathStateKind::Failed => {
                return Ok(None);
            },
        }
        if let Some(existing) = path.pending_challenge {
            return Ok(Some(existing));
        }
        match random_array::<32>() {
            Ok(fresh) => Ok(self.issue_challenge_from(path_id, fresh)),
            Err(e) => Err(e),
        }
    }

    /// Compare an echo with the challenge in flight, in constant time. The path is validated
    /// on a match and fails otherwise. An echo of the wrong length, or one that no challenge
    /// waits for, changes nothing.
    pub fn verify_response(&mut self, path_id: u8, response: &[u8]) -> (ok: bool)
        ensures
            ok == echo_matches(old(self)@, path_id, response@),
            final(self)@ == answered(old(self)@, path_id, response@),
    {
        let mut path: PathState = match table_get(&self.paths, path_id) {
            Some(p) => p,
            None => {
                return false;
            },
        };
        if response.len() != PATH_CHALLENGE_LEN {
            return false;
        }
        match path.state() {
            PathStateKind::Validating => {},
            _ => {
                return false;
            },
        }
        let matched: bool = match path.pending_challenge {
            Some(expected) => ct_eq(expected.as_slice(), response),
            None => false,
        };
        path.pending_challenge = None;
        path.kind = if matched {
            PathStateKind::Validated
        } else {
            PathStateKind::Failed
        };
        table_insert(&mut self.paths, path_id, path);
        matched
    }

    /// The state of a path, or `None` for an unknown one.
    pub fn state(&self, path_id: u8) -> (k: Option<PathStateKind>)
        ensures
            k == (if self@.contains_key(path_id) {
                Some(self@[path_id].kind)
            } else {
                None
            }),
    {
        match table_get(&self.paths, path_id) {
            Some(p) => Some(p.state()),
            None => None,
        }
    }

    /// What is known of a path.
    pub fn path(&self, path_id: u8) -> (p: Option<PathState>)
        ensures
            p == (if self@.contains_key(path_id) {
                Some(self@[path_id])
            } else {
                None
            }),
    {
        table_get(&self.paths, path_id)
    }

    /// The validated paths, each once, in no particular order.
    pub fn validated_paths(&self) -> (ids: Vec<u8>)
        ensures
            ids@.no_duplicates(),
            forall|k: u8|
                ids@.contains(k) <==> self@.contains_key(k) && self@[k].kind
                    == PathStateKind::Validated,
    {
        let keys: Vec<u8> = table_keys(&self.paths);
        let mut ids: Vec<u8> = Vec::new();
        let mut i: usize = 0;
        while i < keys.len()
            invariant
                i <= keys@.len(),
                keys@.no_duplicates(),
                forall|k: u8| keys@.contains(k) <==> self@.contains_key(k),
                ids@.no_duplicates(),
                forall|k: u8|
                    ids@.contains(k) <==> keys@.take(i as int).contains(k) && self@[k].kind
                        == PathStateKind::Validated,
            decreases keys@.len() - i,
        {
            let k: u8 = keys[i];
            let ghost before = ids@;
            let ghost seen = keys@.take(i as int);
            let valid: bool = match self.state(k) {
                Some(kind) => kind == PathStateKind::Validated,
                None => false,
            };
            if valid {
                ids.push(k);
            }
            proof {
                assert(keys@.contains(k));
                assert(keys@.take(i + 1) =~= seen.push(k));
                assert(!seen.contains(k));
                assert forall|x: u8|
                    ids@.contains(x) <==> keys@.take(i + 1).contains(x) && self@[x].kind
                        == PathStateKind::Validated by {
                    lemma_push_contains(seen, k, x);
                    lemma_push_contains(before, k, x);
                }
                assert(!before.contains(k));
                assert forall|a: int, b: int| 0 <= a < b < ids@.len() implies ids@[a] != ids@[b] by {
                    if b == before.len() {
                        assert(before[a] == ids@[a]);
                    }
                }
            }
            i += 1;
        }
        assert(keys@.take(i as int) =~= keys@);
        ids
    }

    /// The number of paths in any state.
    pub fn len(&self) -> (n: usize)
        ensures
            n == self@.dom().len(),
    {
        table_len(&self.paths)
    }

    /// Whether there is no path.
    pub fn is_empty(&self) -> (b: bool)
        ensures
            b == (self@.dom().len() == 0),
    {
        table_len(&self.paths) == 0
    }
}

proof fn lemma_push_contains(s: Seq<u8>, k: u8, x: u8)
    ensures
        s.push(k).contains(x) <==> s.contains(x) || x == k,
{
    if s.contains(x) {
        let i = choose|i: int| 0 <= i < s.len() && s[i] == x;
        assert(s.push(k)[i] == x);
    }
    assert(s.push(k)[s.len() as int] == k);
    if s.push(k).contains(x) {
        let i = choose|i: int| 0 <= i < s.push(k).len() && s.push(k)[i] == x;
        if i < s.len() {
            assert(s[i] == x);
        }
    }
}

/// Whether a challenge is in flight exactly on the paths that are being validated.
pub open spec fn consistent(paths: Map<u8, PathState>) -> bool {
    forall|k: u8| #[trigger]
        paths.contains_key(k) ==> (paths[k].pending_challenge is Some <==> paths[k].kind
            == PathStateKind::Validating)
}

/// Every operation keeps challenges in flight exactly on the paths that are being validated.
pub proof fn law_challenges_stay_consistent(
    paths: Map<u8, PathState>,
    path_id: u8,
    fresh: [u8; 32],
    response: Seq<u8>,
)
    requires
        consistent(paths),
    ensures
        consistent(no_paths()),
        consistent(registered(paths, path_id, PathStateKind::Unvalidated)),
        consistent(registered(paths, path_id, PathStateKind::Validated)),
        consistent(challenged(paths, path_id, fresh)),
        consistent(answered(paths, path_id, response)),
{
}

/// The echo of the challenge that a path was given validates it; any other string of the
/// same length fails it, and then neither an echo nor a new challenge opens it again.
pub proof fn law_only_the_echo_validates(
    paths: Map<u8, PathState>,
    path_id: u8,
    fresh: [u8; 32],
    response: Seq<u8>,
)
    requires
        consistent(paths),
        may_challenge(paths, path_id),
        response.len() == PATH_CHALLENGE_LEN,
    ensures
        ({
            let given = challenge_for(paths, path_id, fresh)->0;
            let after = answered(challenged(paths, path_id, fresh), path_id, response);
            &&& after[path_id].kind == (if given@ == response {
                PathStateKind::Validated
            } else {
                PathStateKind::Failed
            })
            &&& challenge_for(after, path_id, fresh) is None
            &&& forall|again: Seq<u8>| answered(after, path_id, again) == after
        }),
{
}

/// A challenge that is asked for again is the same one, and nothing changes.
pub proof fn law_reissue_is_idempotent(
    paths: Map<u8, PathState>,
    path_id: u8,
    fresh: [u8; 32],
    later: [u8; 32],
)
    requires
        may_challenge(paths, path_id),
    ensures
        ({
            let after = challenged(paths, path_id, fresh);
            &&& challenge_for(after, path_id, later) == challenge_for(paths, path_id, fresh)
            &&& challenged(after, path_id, later) == after
        }),
{
}

/// How a path is opened, and by what alone: a new path is closed, a challenge opens nothing, and the
/// echo of the very bytes of the challenge opens it. An echo of another length, on an unknown path or
/// on one without a challenge changes nothing. Other paths are never touched.
pub proof fn law_path_is_opened_by_its_echo(
    paths: Map<u8, PathState>,
    path_id: u8,
    other: u8,
    fresh: [u8; 32],
    response: Seq<u8>,
)
    requires
        other != path_id,
    ensures
        ({
            let known = registered(paths, path_id, PathStateKind::Unvalidated);
            let asked = challenged(paths, path_id, fresh);
            let after = answered(paths, path_id, response);
            &&& paths.contains_key(path_id) ==> known == paths
            &&& !paths.contains_key(path_id) ==> known.contains_key(path_id) && known[path_id].kind
                == PathStateKind::Unvalidated && known[path_id].pending_challenge is None
                && known[path_id].last_packet_seen is None && known[path_id].path_id == path_id
            &&& asked.contains_key(path_id) && asked[path_id].kind == PathStateKind::Validated
                ==> paths[path_id].kind == PathStateKind::Validated
            &&& after.contains_key(path_id) && after[path_id].kind == PathStateKind::Validated
                && paths[path_id].kind != PathStateKind::Validated ==> paths[path_id].kind
                == PathStateKind::Validating && paths[path_id].pending_challenge is Some
                && paths[path_id].pending_challenge->0@ == response
            &&& paths.contains_key(path_id) && paths[path_id].kind == PathStateKind::Validating
                && response.len() == 32 ==> after[path_id].pending_challenge is None && (
            after[path_id].kind == PathStateKind::Validated || after[path_id].kind
                == PathStateKind::Failed)
            &&& !paths.contains_key(path_id) || paths[path_id].kind != PathStateKind::Validating
                || response.len() != 32 ==> after == paths
            &&& echo_matches(paths, path_id, response) <==> paths.contains_key(path_id)
                && paths[path_id].kind == PathStateKind::Validating && response.len() == 32
                && paths[path_id].pending_challenge is Some
                && paths[path_id].pending_challenge->0@ == response
            &&& known.contains_key(other) == paths.contains_key(other) && known[other]
                == paths[other]
            &&& asked.contains_key(other) == paths.contains_key(other) && asked[other]
                == paths[other]
            &&& after.contains_key(other) == paths.contains_key(other) && after[other]
                == paths[other]
        }),
{
    let after = answered(paths, path_id, response);
    if paths.contains_key(path_id) && paths[path_id].pending_challenge is Some {
        assert(paths[path_id].pending_challenge->0@.len() == 32);
    }
}

/// Which paths are challenged: one that is unvalidated gets the fresh bytes and waits for their echo,
/// one that waits already gets the bytes in flight again, and an unknown, validated or failed one gets
/// none.
pub proof fn law_challenges_are_given(paths: Map<u8, PathState>, path_id: u8, fresh: [u8; 32])
    requires
        consistent(paths),
    ensures
        ({
            let given = challenge_for(paths, path_id, fresh);
            let asked = challenged(paths, path_id, fresh);
            &&& !paths.contains_key(path_id) ==> given is None && asked == paths
            &&& paths.contains_key(path_id) && paths[path_id].kind == PathStateKind::Unvalidated
                ==> given == Some(fresh) && asked[path_id] == (PathState {
                kind: PathStateKind::Validating,
                pending_challenge: Some(fresh),
                ..paths[path_id]
            })
            &&& paths.contains_key(path_id) && paths[path_id].kind == PathStateKind::Validating
                ==> given == paths[path_id].pending_challenge && given is Some && asked == paths
            &&& paths.contains_key(path_id) && (paths[path_id].kind == PathStateKind::Validated
                || paths[path_id].kind == PathStateKind::Failed) ==> given is None && asked == paths
            &&& wants_fresh(paths, path_id) <==> paths.contains_key(path_id) && paths[path_id].kind
                == PathStateKind::Unvalidated
        }),
{
}

/// What is known of a path at first: nothing was measured, seen or asked yet, whatever its kind.
pub proof fn law_new_path_is_blank(paths: Map<u8, PathState>, path_id: u8, kind: PathStateKind)
    requires
        !paths.contains_key(path_id),
    ensures
        ({
            let p = registered(paths, path_id, kind)[path_id];
            &&& p.path_id == path_id && p.kind == kind
            &&& p.rtt_ms == 0 && p.loss_pct == 0
            &&& p.last_packet_seen is None && p.pending_challenge is None
        }),
{
}

} // verus!
