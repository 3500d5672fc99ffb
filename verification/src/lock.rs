//! Session lock files: where they live, what they hold, when a session
//! counts as alive, and finding one by a prefix of its id.
use crate::text::{chars_of, push_char, starts_with, string_of};
use std::path::PathBuf;
use vstd::prelude::*;

verus! {

/// The directory that holds the lock files and sockets of sessions.
pub const SESSION_DIR: &'static str = "/tmp/agent-terminal/sessions";

/// Seconds without a heartbeat before a session is considered dead.
pub const LOCK_TTL_SECS: u64 = 5;

#[verifier::external_type_specification]
#[verifier::external_body]
pub struct ExPathBuf(PathBuf);

/// The `PathBuf` that `PathBuf::from` makes of a string.
pub uninterp spec fn pathbuf_from(s: Seq<char>) -> PathBuf;

/// `PathBuf::from(String)`: the result is named by `pathbuf_from`.
#[verifier::external_body]
fn path_from_string(s: String) -> (p: PathBuf)
    ensures
        p == pathbuf_from(s@),
{
    PathBuf::from(s)
}

/// The current Unix time in whole seconds (0 if the clock is before the
/// epoch). It depends on the clock: nothing is promised of its value.
#[verifier::external_body]
pub fn now_secs() -> (secs: u64) {
    std::time::SystemTime::now().duration_since(std::time::UNIX_EPOCH).unwrap_or_default().as_secs()
}

/// A running session's lock file.
#[derive(Debug)]
pub struct LockFile {
    pub session_id: String,
    pub pid: u32,
    pub socket_path: String,
    /// Unix timestamp (seconds) of the last heartbeat tick.
    pub tick: u64,
    /// Unix timestamp (seconds) when the session started.
    pub started_at: u64,
}

/// A lock file with its texts as character sequences.
pub struct LockFileView {
    pub session_id: Seq<char>,
    pub pid: u32,
    pub socket_path: Seq<char>,
    pub tick: u64,
    pub started_at: u64,
}

impl View for LockFile {
    type V = LockFileView;

    open spec fn view(&self) -> LockFileView {
        LockFileView {
            session_id: self.session_id@,
            pid: self.pid,
            socket_path: self.socket_path@,
            tick: self.tick,
            started_at: self.started_at,
        }
    }
}

/// The file name of a session's lock: `<id>.lock`.
pub open spec fn lock_name(id: Seq<char>) -> Seq<char> {
    id + seq!['.', 'l', 'o', 'c', 'k']
}

/// `dir` joined with `name` as `Path::join` does on Unix: an absolute name
/// replaces the directory.
pub open spec fn joined_path(dir: Seq<char>, name: Seq<char>) -> Seq<char> {
    if name.len() > 0 && name[0] == '/' {
        name
    } else {
        dir + seq!['/'] + name
    }
}

/// The path of a session's lock file.
pub open spec fn lock_path(id: Seq<char>) -> Seq<char> {
    joined_path(SESSION_DIR@, lock_name(id))
}

/// The path of a session's socket: `<dir>/<id>.sock`.
pub open spec fn socket_path(id: Seq<char>) -> Seq<char> {
    SESSION_DIR@ + seq!['/'] + id + seq!['.', 's', 'o', 'c', 'k']
}

/// A session whose last tick was at `tick` is alive at `now` when at most
/// `LOCK_TTL_SECS` seconds have passed (a tick in the future counts as none
/// passed).
pub open spec fn alive_at(tick: u64, now: u64) -> bool {
    if now >= tick {
        now - tick <= LOCK_TTL_SECS
    } else {
        true
    }
}

/// The first of the sessions whose id starts with `prefix`.
pub open spec fn first_with_prefix(ls: Seq<LockFileView>, prefix: Seq<char>) -> Option<
    LockFileView,
>
    decreases ls.len(),
{
    if ls.len() == 0 {
        None
    } else if starts_with(ls[0].session_id, prefix) {
        Some(ls[0])
    } else {
        first_with_prefix(ls.drop_first(), prefix)
    }
}

/// The views of a sequence of lock files.
pub open spec fn lock_views(ls: Seq<LockFile>) -> Seq<LockFileView> {
    ls.map_values(|l: LockFile| l@)
}

/// The text of the lock file path of a session.
pub fn lock_path_string(session_id: &str) -> (r: String)
    ensures
        r@ == lock_path(session_id@),
{
    let dir = chars_of(SESSION_DIR);
    let id = chars_of(session_id);
    let mut out: Vec<char> = Vec::new();
    if id.len() > 0 && id[0] == '/' {
        crate::runner::append(&mut out, id.as_slice());
    } else {
        crate::runner::append(&mut out, dir.as_slice());
        out.push('/');
        crate::runner::append(&mut out, id.as_slice());
    }
    crate::runner::append(&mut out, &['.', 'l', 'o', 'c', 'k']);
    proof {
        if id@.len() > 0 && id@[0] == '/' {
            assert(lock_name(id@)[0] == '/');
        } else {
            assert(!(lock_name(id@).len() > 0 && lock_name(id@)[0] == '/'));
        }
    }
    assert(out@ =~= lock_path(session_id@));
    string_of(out.as_slice())
}

impl LockFile {
    /// Path to the lock file for a given session_id.
    pub fn path_for(session_id: &str) -> (p: PathBuf)
        ensures
            p == pathbuf_from(lock_path(session_id@)),
    {
        path_from_string(lock_path_string(session_id))
    }

    /// Path to the Unix socket for a given session_id.
    pub fn socket_path_for(session_id: &str) -> (r: String)
        ensures
            r@ == socket_path(session_id@),
    {
        let dir = chars_of(SESSION_DIR);
        let id = chars_of(session_id);
        let mut out: Vec<char> = Vec::new();
        crate::runner::append(&mut out, dir.as_slice());
        out.push('/');
        crate::runner::append(&mut out, id.as_slice());
        crate::runner::append(&mut out, &['.', 's', 'o', 'c', 'k']);
        assert(out@ =~= socket_path(session_id@));
        string_of(out.as_slice())
    }

    /// A lock file for the session, started and last ticked at `now`.
    pub fn new_at(session_id: String, pid: u32, now: u64) -> (r: Self)
        ensures
            r@ == (LockFileView {
                session_id: session_id@,
                pid,
                socket_path: socket_path(session_id@),
                tick: now,
                started_at: now,
            }),
    {
        let socket_path = Self::socket_path_for(session_id.as_str());
        LockFile { session_id, pid, socket_path, tick: now, started_at: now }
    }

    /// Create a new LockFile struct (does not write it yet), started and
    /// ticked now.
    pub fn new(session_id: String, pid: u32) -> (r: Self)
        ensures
            r.session_id@ == session_id@,
            r.pid == pid,
            r.socket_path@ == socket_path(session_id@),
            r.tick == r.started_at,
    {
        Self::new_at(session_id, pid, now_secs())
    }

    /// Records a heartbeat at `now`; nothing else changes.
    pub fn heartbeat_at(&mut self, now: u64)
        ensures
            final(self)@ == (LockFileView { tick: now, ..old(self)@ }),
    {
        self.tick = now;
    }

    /// Records a heartbeat now (writing the file is the caller's part);
    /// nothing but the tick changes.
    pub fn heartbeat(&mut self)
        ensures
            final(self)@ == (LockFileView { tick: final(self).tick, ..old(self)@ }),
    {
        self.heartbeat_at(now_secs());
    }

    /// Whether the session counts as alive at `now`.
    pub fn is_alive_at(&self, now: u64) -> (b: bool)
        ensures
            b == alive_at(self.tick, now),
    {
        now.saturating_sub(self.tick) <= LOCK_TTL_SECS
    }

    /// Returns true if this session is considered alive now: as
    /// `is_alive_at` says for the time the clock gave.
    pub fn is_alive(&self) -> (b: bool)
        ensures
            exists|now: u64| b == alive_at(self.tick, now),
    {
        let now = now_secs();
        self.is_alive_at(now)
    }

    /// The first of `sessions` whose id starts with the prefix.
    pub fn find_active(sessions: Vec<LockFile>, session_id_prefix: &str) -> (r: Option<LockFile>)
        ensures
            match r {
                Some(l) => first_with_prefix(lock_views(sessions@), session_id_prefix@) == Some(l@),
                None => first_with_prefix(lock_views(sessions@), session_id_prefix@) is None,
            },
    {
        let prefix = chars_of(session_id_prefix);
        let ghost all = lock_views(sessions@);
        let mut pool = sessions;
        let mut i: usize = 0;
        assert(all.skip(0) =~= all);
        while i < pool.len()
            invariant
                i <= pool@.len(),
                all == lock_views(pool@),
                all == lock_views(sessions@),
                prefix@ == session_id_prefix@,
                first_with_prefix(all, prefix@) == first_with_prefix(all.skip(i as int), prefix@),
            decreases pool@.len() - i,
        {
            let id = chars_of(pool[i].session_id.as_str());
            assert(all.skip(i as int)[0] == pool@[i as int]@);
            if crate::text::has_prefix(id.as_slice(), prefix.as_slice()) {
                let ghost seen = pool@[i as int]@;
                assert(first_with_prefix(all.skip(i as int), prefix@) == Some(seen));
                let l = pool.remove(i);
                assert(l@ == seen);
                return Some(l);
            }
            assert(all.skip(i as int).drop_first() =~= all.skip(i + 1));
            i += 1;
        }
        None
    }

    /// The sessions that are alive at `now`, in order.
    pub fn retain_alive(sessions: &Vec<LockFile>, now: u64) -> (r: Vec<LockFile>)
        ensures
            lock_views(r@) == alive_sessions(lock_views(sessions@), now),
    {
        let ghost all = lock_views(sessions@);
        let mut kept: Vec<LockFile> = Vec::new();
        let mut i: usize = 0;
        assert(all.take(0) =~= Seq::<LockFileView>::empty());
        assert(lock_views(kept@) =~= Seq::<LockFileView>::empty());
        while i < sessions.len()
            invariant
                i <= sessions@.len(),
                all == lock_views(sessions@),
                lock_views(kept@) == alive_sessions(all.take(i as int), now),
            decreases sessions@.len() - i,
        {
            let l = &sessions[i];
            assert(all.take(i + 1).drop_last() =~= all.take(i as int));
            assert(all.take(i + 1).last() == l@);
            let ghost before = lock_views(kept@);
            if l.is_alive_at(now) {
                kept.push(l.clone());
                assert(lock_views(kept@) =~= before.push(l@));
            } else {
                assert(lock_views(kept@) =~= before);
            }
            i += 1;
        }
        assert(all.take(i as int) =~= all);
        kept
    }
}

/// The sessions of `ls` that are alive at `now`, in order.
pub open spec fn alive_sessions(ls: Seq<LockFileView>, now: u64) -> Seq<LockFileView>
    decreases ls.len(),
{
    if ls.len() == 0 {
        seq![]
    } else if alive_at(ls.last().tick, now) {
        alive_sessions(ls.drop_last(), now).push(ls.last())
    } else {
        alive_sessions(ls.drop_last(), now)
    }
}

impl Clone for LockFile {
    fn clone(&self) -> (r: Self)
        ensures
            r@ == self@,
    {
        LockFile {
            session_id: self.session_id.clone(),
            pid: self.pid,
            socket_path: self.socket_path.clone(),
            tick: self.tick,
            started_at: self.started_at,
        }
    }
}

// ───────────────────────── laws ─────────────────────────

/// A session is alive from its heartbeat until `LOCK_TTL_SECS` seconds
/// after it.
pub proof fn lemma_alive_after_heartbeat(tick: u64, now: u64)
    requires
        tick <= now <= tick + LOCK_TTL_SECS,
    ensures
        alive_at(tick, now),
{
}

/// A session whose heartbeat stopped is dead once more than
/// `LOCK_TTL_SECS` seconds have passed since its last tick.
pub proof fn lemma_dead_after_ttl(tick: u64, now: u64)
    requires
        now > tick + LOCK_TTL_SECS,
    ensures
        !alive_at(tick, now),
{
}

/// The sessions kept by a scan are exactly the alive ones, in order: each
/// kept session is alive, and each alive session is kept.
pub proof fn lemma_scan_keeps_alive(ls: Seq<LockFileView>, now: u64)
    ensures
        forall|i: int|
            0 <= i < alive_sessions(ls, now).len() ==> alive_at(
                #[trigger] alive_sessions(ls, now)[i].tick,
                now,
            ),
        forall|i: int|
            0 <= i < ls.len() && alive_at(#[trigger] ls[i].tick, now) ==> alive_sessions(
                ls,
                now,
            ).contains(ls[i]),
        alive_sessions(ls, now).len() <= ls.len(),
    decreases ls.len(),
{
    if ls.len() > 0 {
        let init = ls.drop_last();
        lemma_scan_keeps_alive(init, now);
        let kept = alive_sessions(init, now);
        assert forall|i: int|
            0 <= i < ls.len() && alive_at(#[trigger] ls[i].tick, now) implies alive_sessions(
            ls,
            now,
        ).contains(ls[i]) by {
            if i < ls.len() - 1 {
                assert(init[i] == ls[i]);
                let j = choose|j: int| 0 <= j < kept.len() && kept[j] == init[i];
                if alive_at(ls.last().tick, now) {
                    assert(kept.push(ls.last())[j] == ls[i]);
                }
            } else {
                assert(alive_sessions(ls, now) == kept.push(ls.last()));
                assert(kept.push(ls.last())[kept.len() as int] == ls[i]);
            }
        }
    }
}

} // verus!
