use agent_terminal::lock::{LockFile, LOCK_TTL_SECS, SESSION_DIR};

fn lock(id: &str, tick: u64) -> LockFile {
    let mut l = LockFile::new_at(id.to_string(), 42, 100);
    l.heartbeat_at(tick);
    l
}

#[test]
fn test_error_malformed_session_id() {
    let path = LockFile::path_for("");
    assert!(path.to_str().unwrap().ends_with(".lock"));

    let path = LockFile::path_for("test/with/slashes");
    assert!(path.to_str().unwrap().contains("test"));
}

#[test]
fn test_lock_find_active_no_match() {
    let result = LockFile::find_active(Vec::new(), "nonexistent-prefix-xyz123");
    assert!(result.is_none());
}

#[test]
fn paths_of_a_session() {
    assert_eq!(
        LockFile::path_for("abc").to_str().unwrap(),
        "/tmp/agent-terminal/sessions/abc.lock"
    );
    assert_eq!(LockFile::path_for("/etc/x").to_str().unwrap(), "/etc/x.lock");
    assert_eq!(
        LockFile::socket_path_for("abc"),
        "/tmp/agent-terminal/sessions/abc.sock"
    );
    assert_eq!(SESSION_DIR, "/tmp/agent-terminal/sessions");
}

#[test]
fn new_lock_starts_and_ticks_now() {
    let l = LockFile::new_at("s1".to_string(), 7, 1000);
    assert_eq!(l.session_id, "s1");
    assert_eq!(l.pid, 7);
    assert_eq!(l.socket_path, "/tmp/agent-terminal/sessions/s1.sock");
    assert_eq!(l.tick, 1000);
    assert_eq!(l.started_at, 1000);
    let fresh = LockFile::new("s2".to_string(), 8);
    assert_eq!(fresh.tick, fresh.started_at);
    assert!(fresh.is_alive());
}

#[test]
fn alive_within_ttl() {
    let l = lock("a", 100);
    assert!(l.is_alive_at(100));
    assert!(l.is_alive_at(100 + LOCK_TTL_SECS));
    assert!(!l.is_alive_at(100 + LOCK_TTL_SECS + 1));
    assert!(l.is_alive_at(50));
}

#[test]
fn heartbeat_keeps_started_at() {
    let mut l = LockFile::new_at("a".to_string(), 1, 10);
    l.heartbeat_at(20);
    assert_eq!(l.tick, 20);
    assert_eq!(l.started_at, 10);
    l.heartbeat();
    assert_eq!(l.started_at, 10);
    assert!(l.tick >= 20);
}

#[test]
fn test_lock_prefix_matching_ambiguous() {
    let sessions = vec![lock("abc-1", 0), lock("abc-2", 0), lock("xyz", 0)];
    let found = LockFile::find_active(sessions, "abc").unwrap();
    assert_eq!(found.session_id, "abc-1");
    let sessions = vec![lock("abc-1", 0), lock("xyz", 0)];
    assert_eq!(LockFile::find_active(sessions, "xy").unwrap().session_id, "xyz");
    let sessions = vec![lock("abc-1", 0)];
    assert!(LockFile::find_active(sessions, "abd").is_none());
    let sessions = vec![lock("abc-1", 0)];
    assert_eq!(LockFile::find_active(sessions, "").unwrap().session_id, "abc-1");
}

#[test]
fn retain_alive_drops_stale_sessions() {
    let sessions = vec![lock("old", 10), lock("new", 98), lock("future", 200)];
    let alive = LockFile::retain_alive(&sessions, 100);
    let ids: Vec<&str> = alive.iter().map(|l| l.session_id.as_str()).collect();
    assert_eq!(ids, vec!["new", "future"]);
}
