//! Configuration: parsing `config.toml`, per-key fallbacks and warnings,
//! and the titles a configuration drives.

use herdr_window_title::config::{Config, HostDisplay, SpinnerScope, DEFAULT_TEMPLATE};
use herdr_window_title::monitor::config_and_template_warnings;
use herdr_window_title::render::render_title;
use herdr_window_title::snapshot::{Snapshot, SnapshotEntry};

fn text(s: &str) -> Option<String> {
    Some(s.to_string())
}

fn workspace_snapshot() -> Snapshot {
    Snapshot {
        focused_workspace_id: "w1".to_string(),
        workspaces: vec![SnapshotEntry {
            workspace_id: text("w1"),
            label: text("dotfiles"),
            ..SnapshotEntry::default()
        }],
        ..Snapshot::default()
    }
}

fn blocked_snapshot() -> Snapshot {
    Snapshot {
        focused_workspace_id: "w1".to_string(),
        focused_tab_id: "w1:t1".to_string(),
        focused_pane_id: "w1:p1".to_string(),
        workspaces: vec![SnapshotEntry {
            workspace_id: text("w1"),
            label: text("one"),
            ..SnapshotEntry::default()
        }],
        agents: vec![SnapshotEntry {
            pane_id: text("w2:p1"),
            workspace_id: text("w2"),
            agent: text("pi"),
            agent_status: text("blocked"),
            ..SnapshotEntry::default()
        }],
        ..Snapshot::default()
    }
}

#[test]
fn custom_template_from_config_drives_the_title() {
    let (config, warnings) = Config::parse(r#"template = "{session}@{workspace}""#);
    assert!(warnings.is_empty());
    let title = render_title(&workspace_snapshot(), &config, "personal", "mbp", false, "⠋");
    assert_eq!(title, "personal@dotfiles");
}

#[test]
fn blocked_agent_shows_in_the_default_title() {
    let title = render_title(&blocked_snapshot(), &Config::default(), "personal", "mbp", false, "⠋");
    assert_eq!(title, "●1 herdr:personal");
}

#[test]
fn blocked_template_reshapes_the_whole_title() {
    let (config, warnings) = Config::parse(r#"blocked_template = "attention: {session}""#);
    assert!(warnings.is_empty());
    let title = render_title(&blocked_snapshot(), &config, "personal", "mbp", false, "⠋");
    assert_eq!(title, "attention: personal");
    // Without a blocked agent the main template applies.
    let title = render_title(&workspace_snapshot(), &config, "personal", "mbp", false, "⠋");
    assert_eq!(title, "herdr:personal");
}

#[test]
fn empty_config_is_the_default() {
    let (config, warnings) = Config::parse("");
    assert!(warnings.is_empty());
    assert_eq!(config.template, DEFAULT_TEMPLATE);
    assert_eq!(config.working_template, None);
    assert_eq!(config.blocked_template, None);
    assert_eq!(config.done_template, None);
    assert_eq!(config.host_display, HostDisplay::Auto);
    assert_eq!(config.spinner_scope, SpinnerScope::Session);
    assert_eq!(config.spinner_interval_ms, 200);
    assert_eq!(config.idle_keepalive_ms, 2000);
    assert_eq!(config.blocked_glyph, "●");
    assert_eq!(config.done_glyph, "✓");
}

#[test]
fn every_key_is_read() {
    let (config, warnings) = Config::parse(
        r#"
        template = "t"
        working_template = "w"
        blocked_template = "b"
        done_template = "d"
        host_display = "always"
        spinner_scope = "pane"
        spinner_interval_ms = 50
        idle_keepalive_ms = 100
        blocked_glyph = "B"
        done_glyph = "D"
        "#,
    );
    assert!(warnings.is_empty(), "{warnings:?}");
    assert_eq!(config.template, "t");
    assert_eq!(config.working_template.as_deref(), Some("w"));
    assert_eq!(config.blocked_template.as_deref(), Some("b"));
    assert_eq!(config.done_template.as_deref(), Some("d"));
    assert_eq!(config.host_display, HostDisplay::Always);
    assert_eq!(config.spinner_scope, SpinnerScope::Pane);
    assert_eq!(config.spinner_interval_ms, 50);
    assert_eq!(config.idle_keepalive_ms, 100);
    assert_eq!(config.blocked_glyph, "B");
    assert_eq!(config.done_glyph, "D");

    let (config, _) = Config::parse("host_display = \"never\"\nspinner_scope = \"workspace\"");
    assert_eq!(config.host_display, HostDisplay::Never);
    assert_eq!(config.spinner_scope, SpinnerScope::Workspace);
}

#[test]
fn empty_state_templates_stay_unset() {
    let (config, warnings) = Config::parse(r#"working_template = """#);
    assert!(warnings.is_empty());
    assert_eq!(config.working_template, None);
}

#[test]
fn invalid_toml_falls_back_to_defaults_with_one_warning() {
    let (config, warnings) = Config::parse("template = ");
    assert_eq!(config.template, DEFAULT_TEMPLATE);
    assert_eq!(warnings.len(), 1);
    assert!(warnings[0].starts_with("config: invalid TOML, using defaults: "), "{warnings:?}");
}

#[test]
fn invalid_values_fall_back_per_key_with_warnings() {
    let (config, warnings) = Config::parse(
        r#"
        template = 5
        spinner_interval_ms = 0
        idle_keepalive_ms = -3
        host_display = "sometimes"
        spinner_scope = 3
        done_glyph = "ok"
        "#,
    );
    assert_eq!(config.template, DEFAULT_TEMPLATE);
    assert_eq!(config.spinner_interval_ms, 200);
    assert_eq!(config.idle_keepalive_ms, 2000);
    assert_eq!(config.host_display, HostDisplay::Auto);
    assert_eq!(config.spinner_scope, SpinnerScope::Session);
    assert_eq!(config.done_glyph, "ok");
    assert_eq!(
        warnings,
        vec![
            "config: `template` must be a string, got 5; using default".to_string(),
            "config: `spinner_interval_ms` must be a positive integer, got 0; using default".to_string(),
            "config: `idle_keepalive_ms` must be a positive integer, got -3; using default".to_string(),
            "config: `host_display` must be \"auto\", \"always\", or \"never\", got \"sometimes\"; using default".to_string(),
            "config: `spinner_scope` must be \"pane\", \"workspace\", or \"session\", got 3; using default".to_string(),
        ]
    );
}

#[test]
fn template_warnings_cover_every_configured_template() {
    let (config, warnings) = Config::parse(
        r#"
        template = "{nope}{session}"
        blocked_template = "{session"
        "#,
    );
    assert!(warnings.is_empty());
    let all = config_and_template_warnings(&config, vec!["earlier".to_string()]);
    assert_eq!(
        all,
        vec![
            "earlier".to_string(),
            "template: unknown token {nope} renders literally (known: indicator, session, workspace, tab, agent, title, host)".to_string(),
            "template: unclosed '{' before end of template: {session; using the default template".to_string(),
        ]
    );
}

#[test]
fn broken_configured_template_keeps_a_title() {
    let (config, _) = Config::parse(r#"template = "[{session}""#);
    let title = render_title(&workspace_snapshot(), &config, "personal", "mbp", false, "⠋");
    assert_eq!(title, "herdr:personal");
}

#[test]
fn an_invalid_key_changes_only_its_own_setting_and_adds_one_warning() {
    let (with, with_warnings) = Config::parse("done_glyph = \"ok\"\nspinner_interval_ms = 0\ntemplate = 5");
    let (without, without_warnings) = Config::parse("done_glyph = \"ok\"\ntemplate = 5");
    assert_eq!(with, without);
    assert_eq!(with.spinner_interval_ms, 200);
    assert_eq!(
        with_warnings,
        vec![
            "config: `template` must be a string, got 5; using default".to_string(),
            "config: `spinner_interval_ms` must be a positive integer, got 0; using default".to_string(),
        ]
    );
    assert_eq!(
        without_warnings,
        vec!["config: `template` must be a string, got 5; using default".to_string()]
    );
}

#[test]
fn only_invalid_toml_earns_the_invalid_toml_warning() {
    let (config, warnings) = Config::parse("[unclosed");
    assert_eq!(config, Config::default());
    assert_eq!(warnings.len(), 1);
    assert!(warnings[0].starts_with("config: invalid TOML, using defaults: "));
    assert!(warnings[0].len() > "config: invalid TOML, using defaults: ".len());
    let (_, warnings) = Config::parse("template = 1\nhost_display = 2");
    assert_eq!(warnings.len(), 2);
    assert!(warnings.iter().all(|w| !w.starts_with("config: invalid TOML")));
}
