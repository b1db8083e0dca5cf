//! The monitor's decisions: animation cadence, keepalive re-assertion,
//! dedup, giving up on a vanished server, and session naming.

use herdr_window_title::config::Config;
use herdr_window_title::indicator::{activity, SPINNER_FRAMES};
use herdr_window_title::monitor::{
    next_tick, resolve_session, session_from_socket_path, should_send, strike, MonitorState,
    MAX_SOCKET_FAILURES, MAX_TICK_MS,
};
use herdr_window_title::render::render_title;
use herdr_window_title::snapshot::{Snapshot, SnapshotEntry};

fn working_snapshot() -> Snapshot {
    Snapshot {
        focused_workspace_id: "w1".to_string(),
        focused_tab_id: "w1:t1".to_string(),
        focused_pane_id: "w1:p1".to_string(),
        agents: vec![SnapshotEntry {
            pane_id: Some("w1:p1".to_string()),
            workspace_id: Some("w1".to_string()),
            agent: Some("aider".to_string()),
            agent_status: Some("working".to_string()),
            ..SnapshotEntry::default()
        }],
        ..Snapshot::default()
    }
}

#[test]
fn spinner_animates_while_the_focused_agent_works() {
    let (config, _) = Config::parse("spinner_interval_ms = 50");
    let snap = working_snapshot();
    let mut frame = 0usize;
    let mut titles = Vec::new();
    for _ in 0..3 {
        titles.push(render_title(&snap, &config, "personal", "mbp", false, SPINNER_FRAMES[frame]));
        let focused = activity(&snap, config.spinner_scope).focused_working;
        let (next, wait) = next_tick(focused, frame, config.spinner_interval_ms, config.idle_keepalive_ms);
        assert_eq!(wait, 50);
        frame = next;
    }
    let distinct: std::collections::HashSet<&String> = titles.iter().collect();
    assert!(distinct.len() >= 2, "{titles:?}");
    assert!(
        titles.iter().all(|title| title.ends_with("herdr:personal")),
        "every frame keeps the template body: {titles:?}"
    );
    assert_eq!(titles[0], "⠋ herdr:personal");
    assert_eq!(titles[1], "⠙ herdr:personal");
}

#[test]
fn keepalive_reasserts_the_title_for_reattached_clients() {
    let (config, _) = Config::parse("idle_keepalive_ms = 100");
    let title = render_title(&Snapshot::default(), &config, "personal", "mbp", false, SPINNER_FRAMES[0]);
    assert_eq!(title, "herdr:personal");
    assert!(should_send(Some(&title), &title, 100, config.idle_keepalive_ms));
    assert!(should_send(Some(&title), &title, 150, config.idle_keepalive_ms));
    let (frame, wait) = next_tick(false, 0, config.spinner_interval_ms, config.idle_keepalive_ms);
    assert_eq!((frame, wait), (0, 100));
}

#[test]
fn duplicate_renders_between_keepalives_are_suppressed() {
    let (config, _) = Config::parse("idle_keepalive_ms = 60000\nspinner_interval_ms = 60000");
    let title = render_title(&Snapshot::default(), &config, "personal", "mbp", false, SPINNER_FRAMES[0]);
    assert!(should_send(None, &title, 0, config.idle_keepalive_ms));
    assert!(!should_send(Some(&title), &title, 400, config.idle_keepalive_ms));
    assert!(should_send(Some("other"), &title, 400, config.idle_keepalive_ms));
    // Long cadences still tick at least every MAX_TICK_MS.
    let (_, wait) = next_tick(false, 0, config.spinner_interval_ms, config.idle_keepalive_ms);
    assert_eq!(wait, MAX_TICK_MS);
}

#[test]
fn frames_wrap_and_reset_when_work_stops() {
    assert_eq!(next_tick(true, 9, 200, 2000), (0, 200));
    assert_eq!(next_tick(true, 4, 200, 2000), (5, 200));
    assert_eq!(next_tick(false, 4, 200, 2000), (0, 2000));
}

#[test]
fn monitor_gives_up_after_three_consecutive_failures() {
    let mut failures = 0u32;
    assert!(!strike(&mut failures));
    assert!(!strike(&mut failures));
    assert!(strike(&mut failures));
    assert_eq!(failures, 3);
}

#[test]
fn hook_sets_title_from_herdr_session_env() {
    let session = resolve_session(None, Some("personal".to_string()), None);
    let title = render_title(&Snapshot::default(), &Config::default(), &session, "mbp", false, "⠋");
    assert_eq!(title, "herdr:personal");
}

#[test]
fn session_name_derives_from_a_named_session_socket_path() {
    let from_socket = session_from_socket_path("/tmp/x/sessions/work/herdr.sock");
    assert_eq!(from_socket.as_deref(), Some("work"));
    let session = resolve_session(from_socket, None, None);
    let title = render_title(&Snapshot::default(), &Config::default(), &session, "mbp", false, "⠋");
    assert_eq!(title, "herdr:work");
}

#[test]
fn socket_path_outranks_a_foreign_herdr_session_env() {
    let from_socket = session_from_socket_path("sessions/work/herdr.sock");
    let session = resolve_session(from_socket, Some("personal".to_string()), None);
    assert_eq!(session, "work");
}

#[test]
fn hook_defaults_session_name_when_nothing_resolves() {
    let session = resolve_session(session_from_socket_path("/tmp/abc/herdr.sock"), None, None);
    let title = render_title(&Snapshot::default(), &Config::default(), &session, "mbp", false, "⠋");
    assert_eq!(title, "herdr:default");
}

#[test]
fn hook_still_sets_a_title_when_the_snapshot_request_fails() {
    // A failed snapshot request renders as an empty snapshot.
    let title = render_title(&Snapshot::default(), &Config::default(), "personal", "mbp", false, "⠋");
    assert_eq!(title, "herdr:personal");
}

#[test]
fn socket_paths_that_name_no_session() {
    assert_eq!(session_from_socket_path("herdr.sock"), None);
    assert_eq!(session_from_socket_path("/herdr.sock"), None);
    assert_eq!(session_from_socket_path("/a/sessions//herdr.sock"), None);
    assert_eq!(session_from_socket_path("/a/mysessions/work/herdr.sock"), None);
    assert_eq!(session_from_socket_path("/sessions/work/herdr.sock").as_deref(), Some("work"));
    assert_eq!(resolve_session(None, None, Some("status".to_string())), "status");
}

#[test]
fn monitor_state_gives_up_at_the_third_failure_since_a_fetch() {
    let mut state = MonitorState::new();
    assert!(!state.snapshot_fetched(false));
    assert!(!state.title_sent("a".to_string(), false));
    assert_eq!(state.socket_failures, 2);
    // A successful fetch starts the count over; a successful send does not.
    assert!(!state.snapshot_fetched(true));
    assert_eq!(state.socket_failures, 0);
    assert!(!state.snapshot_fetched(false));
    assert!(!state.title_sent("b".to_string(), true));
    assert_eq!(state.socket_failures, 1);
    assert_eq!(state.last_sent.as_deref(), Some("b"));
    assert!(!state.title_sent("c".to_string(), false));
    assert_eq!(state.last_sent.as_deref(), Some("b"));
    assert!(state.snapshot_fetched(false));
    assert_eq!(state.socket_failures, MAX_SOCKET_FAILURES);
}

#[test]
fn monitor_state_spins_while_work_runs_and_rests_otherwise() {
    let mut state = MonitorState::new();
    assert_eq!(state.frame_index, 0);
    for expected in [1usize, 2, 3, 4, 5, 6, 7, 8, 9, 0, 1] {
        assert_eq!(state.tick(true, 50, 2000), 50);
        assert_eq!(state.frame_index, expected);
    }
    assert_eq!(state.tick(false, 50, 60000), MAX_TICK_MS);
    assert_eq!(state.frame_index, 0);
    assert_eq!(state.tick(true, 5000, 2000), MAX_TICK_MS);
    assert_eq!(state.frame_index, 1);
}

#[test]
fn monitor_state_sends_changed_titles_and_keepalives() {
    let mut state = MonitorState::new();
    assert!(state.wants_to_send("herdr:work", 0, 2000));
    state.title_sent("herdr:work".to_string(), true);
    assert!(!state.wants_to_send("herdr:work", 100, 2000));
    assert!(state.wants_to_send("herdr:work", 2000, 2000));
    assert!(state.wants_to_send("herdr:home", 100, 2000));
}

#[test]
fn only_herdrs_own_socket_under_sessions_names_the_session() {
    let from_socket = session_from_socket_path("/run/user/1000/herdr/sessions/personal/herdr.sock");
    assert_eq!(from_socket.as_deref(), Some("personal"));
    let session = resolve_session(
        from_socket,
        Some("env".to_string()),
        Some("status".to_string()),
    );
    assert_eq!(session, "personal");
    let from_socket = session_from_socket_path("/a/sessions/w/x.sock");
    assert_eq!(from_socket, None);
    let session = resolve_session(from_socket, Some("personal".to_string()), None);
    assert_eq!(session, "personal");
}
