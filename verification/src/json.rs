//! herdr's JSON replies, read with `serde_json` into plain values: a reply
//! to `session.snapshot` becomes a [`Snapshot`], and the output of
//! `herdr status --json` gives the session name.

use vstd::prelude::*;

use crate::snapshot::{text_of, Snapshot, SnapshotEntry};
use crate::text::{push_char, str_eq};

verus! {

#[verifier::external_type_specification]
#[verifier::external_body]
pub struct ExJsonValue(serde_json::Value);

/// A JSON value, as the replies are read: numbers carry nothing, since no
/// reply field that is read holds one.
#[derive(Debug)]
pub enum Json {
    Null,
    Bool(bool),
    Number,
    String(String),
    Array(Vec<Json>),
    Object(Vec<(String, Json)>),
}

/// The mathematical model of a [`Json`] value.
pub enum JsonModel {
    Null,
    Bool(bool),
    Number,
    String(Seq<char>),
    Array(Seq<JsonModel>),
    Object(Seq<(Seq<char>, JsonModel)>),
}

impl Json {
    pub open spec fn model(self) -> JsonModel
        decreases self,
    {
        match self {
            Json::Null => JsonModel::Null,
            Json::Bool(b) => JsonModel::Bool(b),
            Json::Number => JsonModel::Number,
            Json::String(s) => JsonModel::String(s@),
            Json::Array(items) => JsonModel::Array(json_models(items@)),
            Json::Object(members) => JsonModel::Object(member_models(members@)),
        }
    }
}

impl View for Json {
    type V = JsonModel;

    open spec fn view(&self) -> JsonModel {
        self.model()
    }
}

/// The models of a sequence of values, element by element.
pub open spec fn json_models(items: Seq<Json>) -> Seq<JsonModel>
    decreases items,
{
    if items.len() == 0 {
        Seq::empty()
    } else {
        seq![items[0].model()] + json_models(items.subrange(1, items.len() as int))
    }
}

/// The models of an object's members, member by member.
pub open spec fn member_models(members: Seq<(String, Json)>) -> Seq<(Seq<char>, JsonModel)>
    decreases members,
{
    if members.len() == 0 {
        Seq::empty()
    } else {
        seq![(members[0].0@, members[0].1.model())] + member_models(members.subrange(1, members.len() as int))
    }
}

proof fn lemma_json_models(items: Seq<Json>)
    ensures
        json_models(items).len() == items.len(),
        forall|i: int| 0 <= i < items.len() ==> #[trigger] json_models(items)[i] == items[i].model(),
    decreases items.len(),
{
    if items.len() > 0 {
        lemma_json_models(items.subrange(1, items.len() as int));
    }
}

proof fn lemma_member_models(members: Seq<(String, Json)>)
    ensures
        member_models(members).len() == members.len(),
        forall|i: int|
            0 <= i < members.len() ==> #[trigger] member_models(members)[i] == (
                members[i].0@,
                members[i].1.model(),
            ),
    decreases members.len(),
{
    if members.len() > 0 {
        lemma_member_models(members.subrange(1, members.len() as int));
    }
}

/// The JSON value that the text `text` holds, if it is one JSON value
/// (with only whitespace around it).
pub uninterp spec fn json_text(text: Seq<char>) -> Option<JsonModel>;

/// Turns a parsed `serde_json::Value` into a [`Json`] value, variant by
/// variant; the members of an object come in the order of its map.
#[verifier::external_body]
fn json_of(value: serde_json::Value) -> Json {
    match value {
        serde_json::Value::Null => Json::Null,
        serde_json::Value::Bool(b) => Json::Bool(b),
        serde_json::Value::Number(_) => Json::Number,
        serde_json::Value::String(s) => Json::String(s),
        serde_json::Value::Array(items) => Json::Array(items.into_iter().map(json_of).collect()),
        serde_json::Value::Object(map) => Json::Object(map.into_iter().map(|(k, v)| (k, json_of(v))).collect()),
    }
}

/// Parses `text` with `serde_json::from_str` into a `serde_json::Value`.
/// Claimed: it succeeds exactly when `text` is one JSON value, and the
/// value depends on `text` alone.
#[verifier::external_body]
fn parse_json(text: &str) -> (r: Option<Json>)
    ensures
        r is Some <==> json_text(text@) is Some,
        r matches Some(j) ==> j@ == json_text(text@)->Some_0,
{
    match serde_json::from_str::<serde_json::Value>(text) {
        Ok(value) => Some(json_of(value)),
        Err(_) => None,
    }
}

/// The value under `key` among `members`: that of the first member with
/// that key, or `null` when there is none.
pub open spec fn member_value(members: Seq<(Seq<char>, JsonModel)>, key: Seq<char>) -> JsonModel
    decreases members.len(),
{
    if members.len() == 0 {
        JsonModel::Null
    } else if members[0].0 == key {
        members[0].1
    } else {
        member_value(members.subrange(1, members.len() as int), key)
    }
}

/// `value[key]`: the value under `key` of an object, and `null` for a
/// missing key or a value that is not an object.
pub open spec fn at(value: JsonModel, key: Seq<char>) -> JsonModel {
    match value {
        JsonModel::Object(members) => member_value(members, key),
        _ => JsonModel::Null,
    }
}

/// `value[key]` as a string, when it is one.
pub open spec fn string_at(value: JsonModel, key: Seq<char>) -> Option<Seq<char>> {
    match at(value, key) {
        JsonModel::String(s) => Some(s),
        _ => None,
    }
}

/// `value[key]` as an array, or no items when it is not one.
pub open spec fn array_at(value: JsonModel, key: Seq<char>) -> Seq<JsonModel> {
    match at(value, key) {
        JsonModel::Array(items) => items,
        _ => Seq::empty(),
    }
}

/// The model of an optional value, `None` standing for `null`.
pub open spec fn or_null(value: Option<&Json>) -> JsonModel {
    match value {
        Some(j) => j@,
        None => JsonModel::Null,
    }
}

proof fn lemma_member_value_skip(members: Seq<(Seq<char>, JsonModel)>, key: Seq<char>, n: int)
    requires
        0 <= n <= members.len(),
        forall|j: int| 0 <= j < n ==> (#[trigger] members[j]).0 != key,
    ensures
        member_value(members, key) == member_value(members.subrange(n, members.len() as int), key),
    decreases n,
{
    if n > 0 {
        let rest = members.subrange(1, members.len() as int);
        assert forall|j: int| 0 <= j < n - 1 implies (#[trigger] rest[j]).0 != key by {
            assert(rest[j] == members[j + 1]);
        }
        lemma_member_value_skip(rest, key, n - 1);
        assert(rest.subrange(n - 1, rest.len() as int) =~= members.subrange(n, members.len() as int));
    } else {
        assert(members.subrange(0, members.len() as int) =~= members);
    }
}

/// `value[key]`, with `None` for `null`.
fn get<'a>(value: Option<&'a Json>, key: &str) -> (r: Option<&'a Json>)
    ensures
        or_null(r) == at(or_null(value), key@),
{
    let json = match value {
        Some(json) => json,
        None => return None,
    };
    let members = match json {
        Json::Object(members) => members,
        _ => return None,
    };
    assert(or_null(value) == JsonModel::Object(member_models(members@)));
    proof {
        lemma_member_models(members@);
    }
    let ghost models = member_models(members@);
    let mut i: usize = 0;
    while i < members.len()
        invariant
            i <= members.len(),
            models == member_models(members@),
            models.len() == members.len(),
            or_null(value) == JsonModel::Object(models),
            forall|j: int| 0 <= j < i ==> (#[trigger] models[j]).0 != key@,
        decreases members.len() - i,
    {
        proof {
            lemma_member_models(members@);
            assert(models[i as int] == (members@[i as int].0@, members@[i as int].1.model()));
        }
        if str_eq(members[i].0.as_str(), key) {
            proof {
                lemma_member_value_skip(models, key@, i as int);
                let tail = models.subrange(i as int, models.len() as int);
                assert(tail[0] == models[i as int]);
                assert(tail[0].0 == key@);
                assert(member_value(tail, key@) == tail[0].1);
            }
            return Some(&members[i].1);
        }
        i += 1;
    }
    proof {
        lemma_member_value_skip(models, key@, i as int);
    }
    None
}

/// `value[key]` as a string, when it is one.
fn string_field(value: Option<&Json>, key: &str) -> (r: Option<String>)
    ensures
        text_of(r) == string_at(or_null(value), key@),
{
    match get(value, key) {
        Some(Json::String(s)) => Some(s.clone()),
        _ => None,
    }
}

/// What a snapshot entry holds of a JSON value: each field is the string
/// under its key, if there is one.
pub open spec fn entry_reads(entry: SnapshotEntry, item: JsonModel) -> bool {
    &&& text_of(entry.pane_id) == string_at(item, "pane_id"@)
    &&& text_of(entry.workspace_id) == string_at(item, "workspace_id"@)
    &&& text_of(entry.tab_id) == string_at(item, "tab_id"@)
    &&& text_of(entry.label) == string_at(item, "label"@)
    &&& text_of(entry.agent) == string_at(item, "agent"@)
    &&& text_of(entry.agent_status) == string_at(item, "agent_status"@)
    &&& text_of(entry.terminal_title_stripped) == string_at(item, "terminal_title_stripped"@)
}

/// A list of entries read item by item from JSON values.
pub open spec fn list_reads(list: Seq<SnapshotEntry>, items: Seq<JsonModel>) -> bool {
    &&& list.len() == items.len()
    &&& forall|i: int| 0 <= i < list.len() ==> entry_reads(#[trigger] list[i], items[i])
}

/// A string, or the empty string for none.
pub open spec fn or_empty(s: Option<Seq<char>>) -> Seq<char> {
    match s {
        Some(s) => s,
        None => Seq::empty(),
    }
}

/// What a snapshot holds of a JSON value: the focus ids are the strings
/// under their keys (empty when missing), and each list is read from the
/// array under its key (empty when missing).
pub open spec fn snapshot_reads(snapshot: Snapshot, value: JsonModel) -> bool {
    &&& snapshot.focused_workspace_id@ == or_empty(string_at(value, "focused_workspace_id"@))
    &&& snapshot.focused_tab_id@ == or_empty(string_at(value, "focused_tab_id"@))
    &&& snapshot.focused_pane_id@ == or_empty(string_at(value, "focused_pane_id"@))
    &&& list_reads(snapshot.workspaces@, array_at(value, "workspaces"@))
    &&& list_reads(snapshot.tabs@, array_at(value, "tabs"@))
    &&& list_reads(snapshot.agents@, array_at(value, "agents"@))
    &&& list_reads(snapshot.panes@, array_at(value, "panes"@))
}

/// The snapshot that a reply to `session.snapshot` carries: its
/// `result.snapshot` member (`null` for an error reply).
pub open spec fn reply_snapshot(reply: JsonModel) -> JsonModel {
    at(at(reply, "result"@), "snapshot"@)
}

/// The entry that a JSON value describes.
pub fn entry_of(item: &Json) -> (r: SnapshotEntry)
    ensures
        entry_reads(r, item@),
        text_of(r.pane_id) == string_at(item@, "pane_id"@),
        text_of(r.workspace_id) == string_at(item@, "workspace_id"@),
        text_of(r.tab_id) == string_at(item@, "tab_id"@),
        text_of(r.label) == string_at(item@, "label"@),
        text_of(r.agent) == string_at(item@, "agent"@),
        text_of(r.agent_status) == string_at(item@, "agent_status"@),
        text_of(r.terminal_title_stripped) == string_at(item@, "terminal_title_stripped"@),
{
    SnapshotEntry {
        pane_id: string_field(Some(item), "pane_id"),
        workspace_id: string_field(Some(item), "workspace_id"),
        tab_id: string_field(Some(item), "tab_id"),
        label: string_field(Some(item), "label"),
        agent: string_field(Some(item), "agent"),
        agent_status: string_field(Some(item), "agent_status"),
        terminal_title_stripped: string_field(Some(item), "terminal_title_stripped"),
    }
}

/// The entries read from the array `value[key]`.
fn list_field(value: Option<&Json>, key: &str) -> (r: Vec<SnapshotEntry>)
    ensures
        list_reads(r@, array_at(or_null(value), key@)),
{
    let items = match get(value, key) {
        Some(Json::Array(items)) => items,
        _ => return Vec::new(),
    };
    let ghost models = json_models(items@);
    proof {
        lemma_json_models(items@);
    }
    let mut list: Vec<SnapshotEntry> = Vec::new();
    let mut i: usize = 0;
    while i < items.len()
        invariant
            i <= items.len(),
            models == json_models(items@),
            models.len() == items.len(),
            list.len() == i,
            forall|j: int| 0 <= j < i ==> entry_reads(#[trigger] list@[j], models[j]),
        decreases items.len() - i,
    {
        proof {
            lemma_json_models(items@);
        }
        list.push(entry_of(&items[i]));
        i += 1;
    }
    list
}

fn snapshot_at(value: Option<&Json>) -> (r: Snapshot)
    ensures
        snapshot_reads(r, or_null(value)),
{
    let focused_workspace_id = match string_field(value, "focused_workspace_id") {
        Some(s) => s,
        None => String::new(),
    };
    let focused_tab_id = match string_field(value, "focused_tab_id") {
        Some(s) => s,
        None => String::new(),
    };
    let focused_pane_id = match string_field(value, "focused_pane_id") {
        Some(s) => s,
        None => String::new(),
    };
    Snapshot {
        focused_workspace_id,
        focused_tab_id,
        focused_pane_id,
        workspaces: list_field(value, "workspaces"),
        tabs: list_field(value, "tabs"),
        agents: list_field(value, "agents"),
        panes: list_field(value, "panes"),
    }
}

/// The snapshot that a JSON value describes.
pub fn snapshot_of(value: &Json) -> (r: Snapshot)
    ensures
        snapshot_reads(r, value@),
{
    snapshot_at(Some(value))
}

/// The snapshot in a reply line to `session.snapshot`: `None` when the
/// line is not JSON, otherwise the snapshot read from the reply's
/// `result.snapshot` member (an error reply gives the empty snapshot).
pub fn snapshot_of_reply(line: &str) -> (r: Option<Snapshot>)
    ensures
        match json_text(line@) {
            None => r is None,
            Some(reply) => r matches Some(snapshot) && snapshot_reads(snapshot, reply_snapshot(reply)),
        },
{
    match parse_json(line) {
        None => None,
        Some(reply) => {
            let result = get(Some(&reply), "result");
            Some(snapshot_at(get(result, "snapshot")))
        },
    }
}

/// Whether a reply line is JSON at all (a line that is not is a failed
/// exchange).
pub fn reply_is_json(line: &str) -> (r: bool)
    ensures
        r == json_text(line@) is Some,
{
    parse_json(line).is_some()
}

/// The session that `herdr status --json` reports: the string at
/// `server.session` of its output, if the output is JSON and holds one.
pub fn session_of_status(stdout: &str) -> (r: Option<String>)
    ensures
        text_of(r) == match json_text(stdout@) {
            Some(status) => string_at(at(status, "server"@), "session"@),
            None => None,
        },
{
    match parse_json(stdout) {
        None => None,
        Some(status) => string_field(get(Some(&status), "server"), "session"),
    }
}

/// Whether `value` holds no number anywhere (a [`Json`] number carries no
/// digits, so it cannot be written out).
pub open spec fn number_free(value: JsonModel) -> bool
    decreases value,
{
    match value {
        JsonModel::Number => false,
        JsonModel::Array(items) => forall|i: int| 0 <= i < items.len() ==> number_free(#[trigger] items[i]),
        JsonModel::Object(members) => forall|i: int|
            0 <= i < members.len() ==> number_free(#[trigger] members[i].1),
        _ => true,
    }
}

/// The compact JSON text of `value`, as `serde_json` writes it.
pub uninterp spec fn json_encoding(value: JsonModel) -> Seq<char>;

/// Turns a [`Json`] value back into a `serde_json::Value`, variant by
/// variant; a number, which carries nothing, becomes `null`.
#[verifier::external_body]
fn value_of(json: &Json) -> serde_json::Value {
    match json {
        Json::Null => serde_json::Value::Null,
        Json::Bool(b) => serde_json::Value::Bool(*b),
        Json::Number => serde_json::Value::Null,
        Json::String(s) => serde_json::Value::String(s.clone()),
        Json::Array(items) => serde_json::Value::Array(items.iter().map(value_of).collect()),
        Json::Object(members) => serde_json::Value::Object(members.iter().map(|(k, v)| (k.clone(), value_of(v))).collect()),
    }
}

/// Writes `json` out with `serde_json::Value`'s `Display` (compact JSON).
/// Claimed: the text depends on the value alone.
#[verifier::external_body]
fn encode_json(json: &Json) -> (r: String)
    requires
        number_free(json@),
    ensures
        r@ == json_encoding(json@),
{
    value_of(json).to_string()
}

/// A request in herdr's protocol: its id, its method and its parameters
/// (herdr rejects a request without `params`).
pub open spec fn request_model(id: Seq<char>, method: Seq<char>, params: Seq<(Seq<char>, JsonModel)>) -> JsonModel {
    JsonModel::Object(
        seq![
            ("id"@, JsonModel::String(id)),
            ("method"@, JsonModel::String(method)),
            ("params"@, JsonModel::Object(params)),
        ],
    )
}

/// The line that sends a request: its JSON text and a newline.
pub open spec fn request_line_model(id: Seq<char>, method: Seq<char>, params: Seq<(Seq<char>, JsonModel)>) -> Seq<char> {
    json_encoding(request_model(id, method, params)) + seq!['\n']
}

fn request_line(id: &str, method: &str, params: Vec<(String, Json)>) -> (r: String)
    requires
        forall|i: int| 0 <= i < params@.len() ==> number_free((#[trigger] params@[i]).1@),
    ensures
        r@ == request_line_model(id@, method@, member_models(params@)),
{
    let ghost param_models = member_models(params@);
    proof {
        lemma_member_models(params@);
    }
    let members = vec![
        (String::from_str("id"), Json::String(String::from_str(id))),
        (String::from_str("method"), Json::String(String::from_str(method))),
        (String::from_str("params"), Json::Object(params)),
    ];
    let request = Json::Object(members);
    proof {
        lemma_member_models(members@);
        assert(member_models(members@) =~= seq![
            ("id"@, JsonModel::String(id@)),
            ("method"@, JsonModel::String(method@)),
            ("params"@, JsonModel::Object(param_models)),
        ]);
        let m = member_models(members@);
        assert forall|i: int| 0 <= i < m.len() implies number_free(#[trigger] m[i].1) by {
            if i == 2 {
                assert forall|j: int| 0 <= j < param_models.len() implies number_free(#[trigger] param_models[j].1) by {
                    assert(param_models[j].1 == params@[j].1@);
                }
            }
        }
    }
    let mut line = encode_json(&request);
    push_char(&mut line, '\n');
    line
}

/// The request line for the session snapshot.
pub fn snapshot_request() -> (r: String)
    ensures
        r@ == request_line_model("herdr-window-title:snapshot"@, "session.snapshot"@, Seq::empty()),
{
    let r = request_line("herdr-window-title:snapshot", "session.snapshot", Vec::new());
    proof {
        assert(member_models(Seq::<(String, Json)>::empty()) =~= Seq::empty());
    }
    r
}

/// The request line that sets the outer terminal's title to `title`.
pub fn set_title_request(title: &str) -> (r: String)
    ensures
        r@ == request_line_model(
            "herdr-window-title:set"@,
            "client.window_title.set"@,
            seq![("title"@, JsonModel::String(title@))],
        ),
{
    let params = vec![(String::from_str("title"), Json::String(String::from_str(title)))];
    proof {
        lemma_member_models(params@);
        assert(member_models(params@) =~= seq![("title"@, JsonModel::String(title@))]);
    }
    request_line("herdr-window-title:set", "client.window_title.set", params)
}

/// A reply without a `result` object (an error reply) reads as the empty
/// snapshot: no focus and no entries.
pub proof fn lemma_error_reply_reads_empty(reply: JsonModel, snapshot: Snapshot)
    requires
        !(at(reply, "result"@) is Object),
        snapshot_reads(snapshot, reply_snapshot(reply)),
    ensures
        snapshot.focused_workspace_id@.len() == 0,
        snapshot.focused_tab_id@.len() == 0,
        snapshot.focused_pane_id@.len() == 0,
        snapshot.workspaces@.len() == 0,
        snapshot.tabs@.len() == 0,
        snapshot.agents@.len() == 0,
        snapshot.panes@.len() == 0,
{
}

/// The fields of an entry in a list under `key`: the `i`-th entry holds,
/// under each of herdr's field names, the string of the `i`-th item of the
/// array under `key`.
pub open spec fn list_fields(list: Seq<SnapshotEntry>, value: JsonModel, key: Seq<char>) -> bool {
    let items = array_at(value, key);
    &&& list.len() == items.len()
    &&& forall|i: int|
        0 <= i < list.len() ==> {
            &&& text_of((#[trigger] list[i]).pane_id) == string_at(items[i], "pane_id"@)
            &&& text_of(list[i].workspace_id) == string_at(items[i], "workspace_id"@)
            &&& text_of(list[i].tab_id) == string_at(items[i], "tab_id"@)
            &&& text_of(list[i].label) == string_at(items[i], "label"@)
            &&& text_of(list[i].agent) == string_at(items[i], "agent"@)
            &&& text_of(list[i].agent_status) == string_at(items[i], "agent_status"@)
            &&& text_of(list[i].terminal_title_stripped) == string_at(items[i], "terminal_title_stripped"@)
        }
}

/// A snapshot read from a JSON value holds herdr's fields: the focus ids
/// under `focused_workspace_id`, `focused_tab_id` and `focused_pane_id`
/// (empty when missing), and the lists `workspaces`, `tabs`, `agents` and
/// `panes`, whose entries hold the strings under `pane_id`,
/// `workspace_id`, `tab_id`, `label`, `agent`, `agent_status` and
/// `terminal_title_stripped`.
pub proof fn lemma_snapshot_reads_herdr_fields(snapshot: Snapshot, value: JsonModel)
    requires
        snapshot_reads(snapshot, value),
    ensures
        snapshot.focused_workspace_id@ == or_empty(string_at(value, "focused_workspace_id"@)),
        snapshot.focused_tab_id@ == or_empty(string_at(value, "focused_tab_id"@)),
        snapshot.focused_pane_id@ == or_empty(string_at(value, "focused_pane_id"@)),
        list_fields(snapshot.workspaces@, value, "workspaces"@),
        list_fields(snapshot.tabs@, value, "tabs"@),
        list_fields(snapshot.agents@, value, "agents"@),
        list_fields(snapshot.panes@, value, "panes"@),
{
}

} // verus!
