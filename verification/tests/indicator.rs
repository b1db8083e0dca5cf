//! Session activity aggregation and indicator rendering.

use herdr_window_title::config::{Config, SpinnerScope};
use herdr_window_title::indicator::{activity, indicator, SessionActivity};
use herdr_window_title::snapshot::{Snapshot, SnapshotEntry};

fn agent(pane_id: &str, workspace_id: &str, name: &str, status: &str) -> SnapshotEntry {
    SnapshotEntry {
        pane_id: Some(pane_id.to_string()),
        workspace_id: Some(workspace_id.to_string()),
        agent: Some(name.to_string()),
        agent_status: Some(status.to_string()),
        ..SnapshotEntry::default()
    }
}

fn workspace(id: &str, label: &str) -> SnapshotEntry {
    SnapshotEntry {
        workspace_id: Some(id.to_string()),
        label: Some(label.to_string()),
        ..SnapshotEntry::default()
    }
}

/// Two workspaces; focus on w1:p1. Statuses across the whole session:
/// one blocked (other workspace), one done, one unknown (ignored),
/// focused pane working, plus one background working pane.
fn snapshot() -> Snapshot {
    Snapshot {
        focused_workspace_id: "w1".to_string(),
        focused_tab_id: "w1:t1".to_string(),
        focused_pane_id: "w1:p1".to_string(),
        workspaces: vec![workspace("w1", "one"), workspace("w2", "two")],
        tabs: vec![],
        agents: vec![
            agent("w1:p1", "w1", "aider", "working"),
            agent("w1:p2", "w1", "codex", "working"),
            agent("w2:p1", "w2", "pi", "blocked"),
            agent("w2:p2", "w2", "grok", "done"),
            agent("w2:p3", "w2", "droid", "unknown"),
        ],
        panes: vec![],
    }
}

fn active(blocked: usize, done: usize, focused: bool, background: usize) -> SessionActivity {
    SessionActivity {
        blocked,
        done,
        focused_working: focused,
        background_working: background,
    }
}

#[test]
fn indicator_renders_one_segment_by_priority() {
    let config = Config::default();
    let frame = "⠋";
    // blocked beats everything; done beats working; spinner beats count.
    assert_eq!(indicator(&active(2, 1, true, 3), &config, frame), "●2 ");
    assert_eq!(indicator(&active(0, 1, true, 3), &config, frame), "✓1 ");
    assert_eq!(indicator(&active(0, 0, true, 3), &config, frame), "⠋ ");
    assert_eq!(indicator(&active(0, 0, false, 3), &config, frame), "③ ");
    assert_eq!(indicator(&active(0, 0, false, 0), &config, frame), "");
}

#[test]
fn counts_cap_for_display() {
    let config = Config::default();
    assert_eq!(indicator(&active(12, 0, false, 0), &config, "⠋"), "●9+ ");
    assert_eq!(indicator(&active(0, 10, false, 0), &config, "⠋"), "✓9+ ");
    assert_eq!(indicator(&active(0, 0, false, 20), &config, "⠋"), "⑳ ");
    assert_eq!(indicator(&active(0, 0, false, 21), &config, "⠋"), "⊕ ");
}

#[test]
fn glyphs_come_from_config() {
    let (config, warnings) = Config::parse(
        r#"
        blocked_glyph = "!"
        done_glyph = "ok"
        "#,
    );
    assert!(warnings.is_empty());
    assert_eq!(indicator(&active(1, 0, false, 0), &config, "⠋"), "!1 ");
    assert_eq!(indicator(&active(0, 2, false, 0), &config, "⠋"), "ok2 ");
}

#[test]
fn aggregates_all_five_statuses_across_the_session() {
    let activity = activity(&snapshot(), SpinnerScope::Pane);
    assert_eq!(
        activity,
        SessionActivity {
            blocked: 1,
            done: 1,
            focused_working: true,
            background_working: 1,
        }
    );
}

#[test]
fn workspace_scope_counts_focused_workspace_panes_as_focused_working() {
    let mut snap = snapshot();
    // Focused pane itself idle; another pane in the focused workspace works.
    snap.agents[0].agent_status = Some("idle".to_string());
    let pane_scope = activity(&snap, SpinnerScope::Pane);
    assert!(!pane_scope.focused_working);
    assert_eq!(pane_scope.background_working, 1);

    let workspace_scope = activity(&snap, SpinnerScope::Workspace);
    assert!(workspace_scope.focused_working, "same-workspace work counts");
    assert_eq!(workspace_scope.background_working, 0);
}

#[test]
fn session_scope_spins_for_any_work_and_never_counts_background() {
    let mut snap = snapshot();
    snap.agents[0].agent_status = Some("idle".to_string());
    let session_scope = activity(&snap, SpinnerScope::Session);
    assert!(session_scope.focused_working);
    assert_eq!(session_scope.background_working, 0);
    assert_eq!(session_scope.blocked, 1);
    assert_eq!(session_scope.done, 1);
}

#[test]
fn agent_without_status_counts_as_unknown() {
    let mut snap = snapshot();
    snap.agents[2].agent_status = None;
    snap.agents[3].agent_status = Some("idle".to_string());
    let a = activity(&snap, SpinnerScope::Pane);
    assert_eq!(a, active(0, 0, true, 1));
}

#[test]
fn idle_session_has_an_empty_indicator() {
    let snap = Snapshot::default();
    let config = Config::default();
    let a = activity(&snap, SpinnerScope::Session);
    assert_eq!(a, active(0, 0, false, 0));
    assert_eq!(indicator(&a, &config, "⠋"), "");
}

#[test]
fn every_circled_count_up_to_twenty() {
    let config = Config::default();
    let expected = [
        "①", "②", "③", "④", "⑤", "⑥", "⑦", "⑧", "⑨", "⑩", "⑪", "⑫", "⑬", "⑭", "⑮", "⑯", "⑰",
        "⑱", "⑲", "⑳",
    ];
    for (i, glyph) in expected.iter().enumerate() {
        assert_eq!(
            indicator(&active(0, 0, false, i + 1), &config, "⠋"),
            format!("{glyph} ")
        );
    }
    for count in 1..=9 {
        assert_eq!(
            indicator(&active(count, 0, false, 0), &config, "⠋"),
            format!("●{count} ")
        );
    }
}

#[test]
fn activity_ignores_the_order_of_agents() {
    let forward = snapshot();
    let mut backward = snapshot();
    backward.agents.reverse();
    for scope in [SpinnerScope::Pane, SpinnerScope::Workspace, SpinnerScope::Session] {
        assert_eq!(activity(&forward, scope), activity(&backward, scope));
    }
    assert_eq!(activity(&backward, SpinnerScope::Pane), active(1, 1, true, 1));
}

#[test]
fn activity_counts_each_status() {
    let mut snap = snapshot();
    snap.agents.push(agent("w2:p4", "w2", "pi", "blocked"));
    snap.agents.push(agent("w2:p5", "w2", "pi", "working"));
    snap.agents.push(agent("w2:p6", "w2", "pi", "idle"));
    assert_eq!(activity(&snap, SpinnerScope::Pane), active(2, 1, true, 2));
    assert_eq!(activity(&snap, SpinnerScope::Workspace), active(2, 1, true, 1));
    assert_eq!(activity(&snap, SpinnerScope::Session), active(2, 1, true, 0));
}
