//! Token extraction asserted through `render_title` output. The fixture
//! mirrors the real snapshot shape.

use herdr_window_title::config::{Config, HostDisplay};
use herdr_window_title::render::render_title;
use herdr_window_title::snapshot::{agents, focus, token_values, Snapshot, SnapshotEntry};

fn text(s: &str) -> Option<String> {
    Some(s.to_string())
}

fn snapshot() -> Snapshot {
    Snapshot {
        focused_workspace_id: "w2".to_string(),
        focused_tab_id: "w2:t2".to_string(),
        focused_pane_id: "w2:p3".to_string(),
        workspaces: vec![
            SnapshotEntry { workspace_id: text("w1"), label: text("github"), ..SnapshotEntry::default() },
            SnapshotEntry { workspace_id: text("w2"), label: text("dotfiles"), ..SnapshotEntry::default() },
        ],
        tabs: vec![
            SnapshotEntry { tab_id: text("w2:t1"), workspace_id: text("w2"), label: text("1"), ..SnapshotEntry::default() },
            SnapshotEntry { tab_id: text("w2:t2"), workspace_id: text("w2"), label: text("logs"), ..SnapshotEntry::default() },
            SnapshotEntry { tab_id: text("w1:t1"), workspace_id: text("w1"), label: text("1"), ..SnapshotEntry::default() },
        ],
        agents: vec![SnapshotEntry {
            pane_id: text("w2:p3"),
            workspace_id: text("w2"),
            tab_id: text("w2:t2"),
            agent: text("aider"),
            agent_status: text("idle"),
            terminal_title_stripped: text("fix titles"),
            ..SnapshotEntry::default()
        }],
        panes: vec![SnapshotEntry {
            pane_id: text("w2:p3"),
            workspace_id: text("w2"),
            tab_id: text("w2:t2"),
            agent_status: text("idle"),
            terminal_title_stripped: text("fix titles"),
            ..SnapshotEntry::default()
        }],
    }
}

fn token_config() -> Config {
    Config {
        template: "{workspace}/{tab} {agent}:{title}@{host}".into(),
        // Token extraction is under test, not host gating — pin it open.
        host_display: HostDisplay::Always,
        ..Config::default()
    }
}

#[test]
fn every_token_renders_its_focused_context_value() {
    let title = render_title(&snapshot(), &token_config(), "personal", "mbp", false, "⠋");
    assert_eq!(title, "dotfiles/logs aider:fix titles@mbp");
}

#[test]
fn numeric_tab_label_falls_back_to_switch_order() {
    let mut snap = snapshot();
    snap.tabs[1].label = text("2");
    let title = render_title(&snap, &token_config(), "personal", "mbp", false, "⠋");
    assert_eq!(
        title, "dotfiles/2 aider:fix titles@mbp",
        "second tab of the focused workspace by switch order"
    );
}

#[test]
fn missing_focus_collapses_optional_sections() {
    let config = Config {
        template: "herdr:{session}[ · {workspace}][ {agent}:{title}]".into(),
        ..Config::default()
    };
    let title = render_title(&Snapshot::default(), &config, "personal", "mbp", false, "⠋");
    assert_eq!(title, "herdr:personal");
}

#[test]
fn host_renders_only_on_remote_servers_by_default() {
    let config = Config::default();
    let local = render_title(&snapshot(), &config, "personal", "mbp", false, "⠋");
    assert_eq!(local, "herdr:personal", "local server: host section collapses");
    let remote = render_title(&snapshot(), &config, "personal", "devbox", true, "⠋");
    assert_eq!(remote, "herdr:personal (devbox)");
}

#[test]
fn host_display_always_and_never_override_ssh_detection() {
    let always = Config {
        host_display: HostDisplay::Always,
        ..Config::default()
    };
    let title = render_title(&snapshot(), &always, "personal", "mbp", false, "⠋");
    assert_eq!(title, "herdr:personal (mbp)");

    let never = Config {
        host_display: HostDisplay::Never,
        ..Config::default()
    };
    let title = render_title(&snapshot(), &never, "personal", "devbox", true, "⠋");
    assert_eq!(title, "herdr:personal");
}

#[test]
fn title_falls_back_to_the_pane_entry_when_the_agent_entry_lacks_one() {
    let mut snap = snapshot();
    snap.agents[0].terminal_title_stripped = None;
    let title = render_title(&snap, &token_config(), "personal", "mbp", false, "⠋");
    assert_eq!(
        title, "dotfiles/logs aider:fix titles@mbp",
        "field-level fallback: the pane entry still carries the title"
    );
}

#[test]
fn empty_or_missing_labels_count_as_numeric() {
    let mut snap = snapshot();
    snap.tabs[1].label = None;
    assert_eq!(token_values(&snap, "s", "h").tab, "2");
    snap.tabs[1].label = text("");
    assert_eq!(token_values(&snap, "s", "h").tab, "2");
    snap.focused_tab_id = "nope".to_string();
    assert_eq!(token_values(&snap, "s", "h").tab, "");
    snap.focused_tab_id = "w2:t1".to_string();
    assert_eq!(token_values(&snap, "s", "h").tab, "1");
}

#[test]
fn switch_order_counts_past_nine() {
    let mut snap = snapshot();
    snap.tabs = (0..12)
        .map(|i| SnapshotEntry {
            tab_id: text(&format!("w2:t{i}")),
            workspace_id: text("w2"),
            label: text(&i.to_string()),
            ..SnapshotEntry::default()
        })
        .collect();
    snap.focused_tab_id = "w2:t11".to_string();
    assert_eq!(token_values(&snap, "s", "h").tab, "12");
}

#[test]
fn focus_and_agents_read_the_snapshot() {
    let snap = snapshot();
    let f = focus(&snap);
    assert_eq!((f.workspace_id.as_str(), f.tab_id.as_str(), f.pane_id.as_str()), ("w2", "w2:t2", "w2:p3"));
    let mut snap = snapshot();
    snap.agents.push(SnapshotEntry::default());
    let list = agents(&snap);
    assert_eq!(list.len(), 2);
    assert_eq!((list[0].pane_id.as_str(), list[0].workspace_id.as_str(), list[0].status.as_str()), ("w2:p3", "w2", "idle"));
    assert_eq!((list[1].pane_id.as_str(), list[1].workspace_id.as_str(), list[1].status.as_str()), ("", "", "unknown"));
}
