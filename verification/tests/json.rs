//! Reading herdr's JSON replies and writing its requests.

use herdr_window_title::json::{
    entry_of, reply_is_json, session_of_status, set_title_request, snapshot_of, snapshot_of_reply,
    snapshot_request, Json,
};
use herdr_window_title::monitor::MonitorState;
use herdr_window_title::render::remote_from_env;

#[test]
fn a_snapshot_reply_is_read_field_by_field() {
    let line = r#"{"id":"herdr-window-title:snapshot","result":{"snapshot":{
        "focused_workspace_id":"w1","focused_tab_id":"w1:t2","focused_pane_id":"w1:p3",
        "workspaces":[{"workspace_id":"w1","label":"dotfiles"}],
        "tabs":[{"workspace_id":"w1","tab_id":"w1:t2","label":7}],
        "agents":[{"pane_id":"w1:p3","workspace_id":"w1","agent":"aider","agent_status":"working",
                   "terminal_title_stripped":"fix titles","extra":[1,2,{"x":null}]}],
        "panes":{"not":"an array"}}}}"#
        .replace('\n', "");
    let snapshot = snapshot_of_reply(&line).expect("a JSON reply");
    assert_eq!(snapshot.focused_workspace_id, "w1");
    assert_eq!(snapshot.focused_tab_id, "w1:t2");
    assert_eq!(snapshot.focused_pane_id, "w1:p3");
    assert_eq!(snapshot.workspaces.len(), 1);
    assert_eq!(snapshot.workspaces[0].label.as_deref(), Some("dotfiles"));
    assert_eq!(snapshot.workspaces[0].pane_id, None);
    assert_eq!(snapshot.tabs[0].tab_id.as_deref(), Some("w1:t2"));
    assert_eq!(snapshot.tabs[0].label, None);
    let agent = &snapshot.agents[0];
    assert_eq!(agent.agent.as_deref(), Some("aider"));
    assert_eq!(agent.agent_status.as_deref(), Some("working"));
    assert_eq!(agent.terminal_title_stripped.as_deref(), Some("fix titles"));
    assert!(snapshot.panes.is_empty());
}

#[test]
fn an_error_reply_is_the_empty_snapshot() {
    let snapshot = snapshot_of_reply(r#"{"id":"x","error":{"code":-1,"message":"no"}}"#)
        .expect("an error reply is still JSON");
    assert_eq!(snapshot.focused_pane_id, "");
    assert!(snapshot.agents.is_empty() && snapshot.tabs.is_empty());
    let snapshot = snapshot_of_reply("null\n").expect("null is JSON");
    assert!(snapshot.workspaces.is_empty());
}

#[test]
fn a_reply_that_is_not_json_is_a_failed_exchange() {
    assert!(snapshot_of_reply("").is_none());
    assert!(snapshot_of_reply("{\"result\":").is_none());
    assert!(snapshot_of_reply("{} {}").is_none());
    assert!(!reply_is_json("garbage"));
    assert!(reply_is_json("{\"id\":\"x\",\"result\":{}}\n"));
}

#[test]
fn the_status_output_names_the_session() {
    assert_eq!(
        session_of_status(r#"{"server":{"session":"work","pid":12}}"#).as_deref(),
        Some("work")
    );
    assert_eq!(session_of_status(r#"{"server":{"session":3}}"#), None);
    assert_eq!(session_of_status(r#"{"server":null}"#), None);
    assert_eq!(session_of_status("not json"), None);
}

#[test]
fn requests_are_one_json_line_with_params() {
    assert_eq!(
        snapshot_request(),
        "{\"id\":\"herdr-window-title:snapshot\",\"method\":\"session.snapshot\",\"params\":{}}\n"
    );
    assert_eq!(
        set_title_request("herdr:\"work\""),
        "{\"id\":\"herdr-window-title:set\",\"method\":\"client.window_title.set\",\"params\":{\"title\":\"herdr:\\\"work\\\"\"}}\n"
    );
}

#[test]
fn values_built_by_hand_read_the_same_way() {
    let item = Json::Object(vec![
        ("pane_id".to_string(), Json::String("w1:p1".to_string())),
        ("agent_status".to_string(), Json::Bool(true)),
    ]);
    let entry = entry_of(&item);
    assert_eq!(entry.pane_id.as_deref(), Some("w1:p1"));
    assert_eq!(entry.agent_status, None);
    let value = Json::Object(vec![
        ("focused_pane_id".to_string(), Json::String("w1:p1".to_string())),
        ("agents".to_string(), Json::Array(vec![item, Json::Null])),
    ]);
    let snapshot = snapshot_of(&value);
    assert_eq!(snapshot.focused_pane_id, "w1:p1");
    assert_eq!(snapshot.agents.len(), 2);
    assert_eq!(snapshot.agents[1].pane_id, None);
}

#[test]
fn ssh_is_seen_in_any_non_empty_ssh_variable() {
    assert!(!remote_from_env(None, None, None));
    assert!(!remote_from_env(Some(String::new()), None, Some(String::new())));
    assert!(remote_from_env(None, Some("10.0.0.1 5000 22".to_string()), None));
    assert!(remote_from_env(None, None, Some("/dev/pts/3".to_string())));
}

#[test]
fn warnings_are_reported_again_only_after_a_change() {
    let mut state = MonitorState::new();
    assert!(!state.note_warnings(Vec::new()));
    assert!(state.note_warnings(vec!["a".to_string()]));
    assert!(!state.note_warnings(vec!["a".to_string()]));
    assert!(state.note_warnings(vec!["a".to_string(), "b".to_string()]));
    assert!(state.note_warnings(vec!["b".to_string(), "a".to_string()]));
    assert_eq!(state.last_warnings, vec!["b".to_string(), "a".to_string()]);
}
