//! Read-side view over herdr's `session.snapshot` payload, held as plain
//! values: what the title logic reads of it, and nothing else.

use vstd::prelude::*;

use crate::template::{TokenValues, TokenValuesModel};
use crate::text::{all_ascii_digits, decimal, decimal_text, is_all_ascii_digits, str_eq};

verus! {

/// One entry of a snapshot list (`workspaces`, `tabs`, `agents` or
/// `panes`). A field is `None` when the entry has no string under that key.
#[derive(Debug, Default)]
pub struct SnapshotEntry {
    pub pane_id: Option<String>,
    pub workspace_id: Option<String>,
    pub tab_id: Option<String>,
    pub label: Option<String>,
    pub agent: Option<String>,
    pub agent_status: Option<String>,
    pub terminal_title_stripped: Option<String>,
}

/// The session snapshot. A focus id is empty when the snapshot carries no
/// string for it; a list is empty when the snapshot carries no array.
#[derive(Debug, Default)]
pub struct Snapshot {
    pub focused_workspace_id: String,
    pub focused_tab_id: String,
    pub focused_pane_id: String,
    pub workspaces: Vec<SnapshotEntry>,
    pub tabs: Vec<SnapshotEntry>,
    pub agents: Vec<SnapshotEntry>,
    pub panes: Vec<SnapshotEntry>,
}

pub open spec fn text_of(o: Option<String>) -> Option<Seq<char>> {
    match o {
        Some(s) => Some(s@),
        None => None,
    }
}

/// The id fields by which list entries are found.
#[derive(Debug, Clone, Copy, PartialEq, Eq, Structural)]
pub enum IdField {
    PaneId,
    WorkspaceId,
    TabId,
}

pub open spec fn id_of(entry: SnapshotEntry, field: IdField) -> Option<Seq<char>> {
    match field {
        IdField::PaneId => text_of(entry.pane_id),
        IdField::WorkspaceId => text_of(entry.workspace_id),
        IdField::TabId => text_of(entry.tab_id),
    }
}

/// The position of the first entry whose `field` is `wanted`.
pub open spec fn first_with(list: Seq<SnapshotEntry>, field: IdField, wanted: Seq<char>) -> Option<int>
    decreases list.len(),
{
    if list.len() == 0 {
        None
    } else if id_of(list[0], field) == Some(wanted) {
        Some(0)
    } else {
        match first_with(list.subrange(1, list.len() as int), field, wanted) {
            Some(k) => Some(k + 1),
            None => None,
        }
    }
}

/// The entry that a lookup by a non-empty id finds; an empty id finds none.
pub open spec fn find_model(list: Seq<SnapshotEntry>, field: IdField, wanted: Seq<char>) -> Option<int> {
    if wanted.len() == 0 {
        None
    } else {
        first_with(list, field, wanted)
    }
}

proof fn lemma_first_with(list: Seq<SnapshotEntry>, field: IdField, wanted: Seq<char>, n: int)
    requires
        0 <= n <= list.len(),
        forall|j: int| 0 <= j < n ==> id_of(#[trigger] list[j], field) != Some(wanted),
        n < list.len() ==> id_of(list[n], field) == Some(wanted),
    ensures
        first_with(list, field, wanted) == (if n == list.len() { None } else { Some(n) }),
    decreases n,
{
    if n > 0 {
        let rest = list.subrange(1, list.len() as int);
        assert forall|j: int| 0 <= j < n - 1 implies id_of(#[trigger] rest[j], field) != Some(wanted) by {
            assert(rest[j] == list[j + 1]);
        }
        lemma_first_with(rest, field, wanted, n - 1);
    }
}

fn id_matches(entry: &SnapshotEntry, field: IdField, wanted: &str) -> (r: bool)
    ensures
        r == (id_of(*entry, field) == Some(wanted@)),
{
    let id = match field {
        IdField::PaneId => &entry.pane_id,
        IdField::WorkspaceId => &entry.workspace_id,
        IdField::TabId => &entry.tab_id,
    };
    match id {
        Some(id) => str_eq(id.as_str(), wanted),
        None => false,
    }
}

/// The first entry of `list` whose `field` is `wanted`; none for an empty
/// `wanted`.
pub fn find_by<'a>(list: &'a Vec<SnapshotEntry>, field: IdField, wanted: &str) -> (r: Option<&'a SnapshotEntry>)
    ensures
        match find_model(list@, field, wanted@) {
            Some(k) => r matches Some(e) && *e == list@[k],
            None => r is None,
        },
{
    if wanted.is_empty() {
        return None;
    }
    let mut i: usize = 0;
    while i < list.len()
        invariant
            i <= list.len(),
            wanted@.len() > 0,
            forall|j: int| 0 <= j < i ==> id_of(#[trigger] list@[j], field) != Some(wanted@),
        decreases list.len() - i,
    {
        if id_matches(&list[i], field, wanted) {
            proof {
                lemma_first_with(list@, field, wanted@, i as int);
            }
            return Some(&list[i]);
        }
        i += 1;
    }
    proof {
        lemma_first_with(list@, field, wanted@, i as int);
    }
    None
}

/// The focused workspace/tab/pane ids.
pub struct Focus {
    pub workspace_id: String,
    pub tab_id: String,
    pub pane_id: String,
}

pub fn focus(snapshot: &Snapshot) -> (r: Focus)
    ensures
        r.workspace_id@ == snapshot.focused_workspace_id@,
        r.tab_id@ == snapshot.focused_tab_id@,
        r.pane_id@ == snapshot.focused_pane_id@,
{
    Focus {
        workspace_id: snapshot.focused_workspace_id.clone(),
        tab_id: snapshot.focused_tab_id.clone(),
        pane_id: snapshot.focused_pane_id.clone(),
    }
}

/// One entry of the snapshot's `agents` list — the only pane data the
/// indicator needs.
pub struct AgentEntry {
    pub pane_id: String,
    pub workspace_id: String,
    pub status: String,
}

pub open spec fn text_or(o: Option<String>, fallback: Seq<char>) -> Seq<char> {
    match o {
        Some(s) => s@,
        None => fallback,
    }
}

/// An agent's status; an entry without one counts as `unknown`.
pub open spec fn status_of(entry: SnapshotEntry) -> Seq<char> {
    text_or(entry.agent_status, "unknown"@)
}

fn text_or_copy(o: &Option<String>, fallback: &str) -> (r: String)
    ensures
        r@ == text_or(*o, fallback@),
{
    match o {
        Some(s) => s.clone(),
        None => String::from_str(fallback),
    }
}

pub fn agents(snapshot: &Snapshot) -> (r: Vec<AgentEntry>)
    ensures
        r.len() == snapshot.agents.len(),
        forall|i: int|
            0 <= i < r.len() ==> {
                &&& (#[trigger] r@[i]).pane_id@ == text_or(snapshot.agents@[i].pane_id, Seq::empty())
                &&& r@[i].workspace_id@ == text_or(snapshot.agents@[i].workspace_id, Seq::empty())
                &&& r@[i].status@ == status_of(snapshot.agents@[i])
            },
{
    let mut out: Vec<AgentEntry> = Vec::new();
    let mut i: usize = 0;
    while i < snapshot.agents.len()
        invariant
            i <= snapshot.agents.len(),
            out.len() == i,
            forall|k: int|
                0 <= k < i ==> {
                    &&& (#[trigger] out@[k]).pane_id@ == text_or(snapshot.agents@[k].pane_id, Seq::empty())
                    &&& out@[k].workspace_id@ == text_or(snapshot.agents@[k].workspace_id, Seq::empty())
                    &&& out@[k].status@ == status_of(snapshot.agents@[k])
                },
        decreases snapshot.agents.len() - i,
    {
        proof {
            reveal_strlit("");
        }
        let entry = &snapshot.agents[i];
        out.push(
            AgentEntry {
                pane_id: text_or_copy(&entry.pane_id, ""),
                workspace_id: text_or_copy(&entry.workspace_id, ""),
                status: text_or_copy(&entry.agent_status, "unknown"),
            },
        );
        i += 1;
    }
    out
}


/// The tabs of one workspace, in snapshot (switch) order.
pub open spec fn workspace_tabs(tabs: Seq<SnapshotEntry>, workspace_id: Seq<char>) -> Seq<SnapshotEntry>
    decreases tabs.len(),
{
    if tabs.len() == 0 {
        Seq::empty()
    } else {
        let earlier = workspace_tabs(tabs.subrange(0, tabs.len() - 1), workspace_id);
        if id_of(tabs[tabs.len() - 1], IdField::WorkspaceId) == Some(workspace_id) {
            earlier.push(tabs[tabs.len() - 1])
        } else {
            earlier
        }
    }
}

/// A tab's display label: its own label when non-numeric, otherwise its
/// 1-based switch order among its workspace's tabs; empty when the tab is
/// not among them.
pub open spec fn tab_label_model(tabs: Seq<SnapshotEntry>, workspace_id: Seq<char>, tab_id: Seq<char>) -> Seq<char> {
    let in_workspace = workspace_tabs(tabs, workspace_id);
    match first_with(in_workspace, IdField::TabId, tab_id) {
        None => Seq::empty(),
        Some(k) => {
            let label = text_or(in_workspace[k].label, Seq::empty());
            if label.len() == 0 || all_ascii_digits(label) {
                decimal_text((k + 1) as nat)
            } else {
                label
            }
        },
    }
}

proof fn lemma_first_with_found(list: Seq<SnapshotEntry>, field: IdField, wanted: Seq<char>)
    ensures
        first_with(list, field, wanted) matches Some(k) ==> 0 <= k < list.len() && id_of(list[k], field)
            == Some(wanted) && forall|j: int| 0 <= j < k ==> id_of(#[trigger] list[j], field) != Some(wanted),
        first_with(list, field, wanted) is None ==> forall|j: int|
            0 <= j < list.len() ==> id_of(#[trigger] list[j], field) != Some(wanted),
    decreases list.len(),
{
    if list.len() > 0 {
        let rest = list.subrange(1, list.len() as int);
        lemma_first_with_found(rest, field, wanted);
        assert forall|j: int| 1 <= j < list.len() implies list[j] == rest[j - 1] by {}
    }
}

proof fn lemma_workspace_tabs_grow(tabs: Seq<SnapshotEntry>, workspace_id: Seq<char>, m: int, n: int)
    requires
        0 <= m <= n <= tabs.len(),
    ensures
        workspace_tabs(tabs.subrange(0, m), workspace_id).len() <= workspace_tabs(tabs.subrange(0, n), workspace_id).len(),
        workspace_tabs(tabs.subrange(0, n), workspace_id).subrange(
            0,
            workspace_tabs(tabs.subrange(0, m), workspace_id).len() as int,
        ) == workspace_tabs(tabs.subrange(0, m), workspace_id),
    decreases n - m,
{
    if m < n {
        lemma_workspace_tabs_grow(tabs, workspace_id, m, n - 1);
        assert(tabs.subrange(0, n).subrange(0, n - 1) =~= tabs.subrange(0, n - 1));
        let a = workspace_tabs(tabs.subrange(0, m), workspace_id);
        let b = workspace_tabs(tabs.subrange(0, n - 1), workspace_id);
        let c = workspace_tabs(tabs.subrange(0, n), workspace_id);
        assert(c.subrange(0, a.len() as int) =~= b.subrange(0, a.len() as int));
    } else {
        let a = workspace_tabs(tabs.subrange(0, m), workspace_id);
        assert(a.subrange(0, a.len() as int) =~= a);
    }
}

/// The label that the focused tab shows; see [`tab_label_model`].
fn tab_label(snapshot: &Snapshot, workspace_id: &str, tab_id: &str) -> (r: String)
    ensures
        r@ == tab_label_model(snapshot.tabs@, workspace_id@, tab_id@),
{
    let tabs = &snapshot.tabs;
    let ghost all = workspace_tabs(tabs@, workspace_id@);
    let mut count: usize = 0;
    let mut i: usize = 0;
    assert(tabs@.subrange(0, 0) =~= Seq::<SnapshotEntry>::empty());
    while i < tabs.len()
        invariant
            i <= tabs.len(),
            tabs == &snapshot.tabs,
            all == workspace_tabs(tabs@, workspace_id@),
            count == workspace_tabs(tabs@.subrange(0, i as int), workspace_id@).len(),
            count <= i,
            first_with(workspace_tabs(tabs@.subrange(0, i as int), workspace_id@), IdField::TabId, tab_id@) is None,
        decreases tabs.len() - i,
    {
        let ghost before = workspace_tabs(tabs@.subrange(0, i as int), workspace_id@);
        let ghost after = workspace_tabs(tabs@.subrange(0, i + 1), workspace_id@);
        proof {
            assert(tabs@.subrange(0, i + 1).subrange(0, i as int) =~= tabs@.subrange(0, i as int));
            lemma_first_with_found(before, IdField::TabId, tab_id@);
        }
        let tab = &tabs[i];
        if id_matches(tab, IdField::WorkspaceId, workspace_id) {
            assert(after == before.push(tabs@[i as int]));
            if id_matches(tab, IdField::TabId, tab_id) {
                proof {
                    assert forall|j: int| 0 <= j < before.len() implies id_of(#[trigger] after[j], IdField::TabId) != Some(tab_id@) by {
                        assert(after[j] == before[j]);
                    }
                    lemma_first_with(after, IdField::TabId, tab_id@, before.len() as int);
                    lemma_workspace_tabs_grow(tabs@, workspace_id@, i + 1, tabs.len() as int);
                    assert(tabs@.subrange(0, tabs.len() as int) =~= tabs@);
                    lemma_first_with_found(all, IdField::TabId, tab_id@);
                    assert(all[count as int] == after[count as int]);
                    assert forall|j: int| 0 <= j < count implies id_of(#[trigger] all[j], IdField::TabId) != Some(tab_id@) by {
                        assert(all[j] == after[j]);
                    }
                    lemma_first_with(all, IdField::TabId, tab_id@, count as int);
                }
                let label: &str = match &tab.label {
                    Some(label) => label.as_str(),
                    None => "",
                };
                proof {
                    reveal_strlit("");
                }
                if label.is_empty() || is_all_ascii_digits(label) {
                    return decimal(count + 1);
                } else {
                    return String::from_str(label);
                }
            }
            proof {
                assert forall|j: int| 0 <= j < after.len() implies id_of(#[trigger] after[j], IdField::TabId) != Some(tab_id@) by {
                    if j < before.len() {
                        assert(after[j] == before[j]);
                    }
                }
                lemma_first_with(after, IdField::TabId, tab_id@, after.len() as int);
            }
            count += 1;
        } else {
            assert(after == before);
        }
        i += 1;
    }
    proof {
        assert(tabs@.subrange(0, i as int) =~= tabs@);
        reveal_strlit("");
    }
    String::new()
}

/// The first non-empty stripped terminal title of an entry, if any.
pub open spec fn title_in(entry: Option<SnapshotEntry>) -> Option<Seq<char>> {
    match entry {
        Some(e) => match e.terminal_title_stripped {
            Some(t) => if t@.len() > 0 {
                Some(t@)
            } else {
                None
            },
            None => None,
        },
        None => None,
    }
}

/// The entry that a lookup finds, as a value.
pub open spec fn found(list: Seq<SnapshotEntry>, field: IdField, wanted: Seq<char>) -> Option<SnapshotEntry> {
    match find_model(list, field, wanted) {
        Some(k) => Some(list[k]),
        None => None,
    }
}

/// The template token values a snapshot resolves to; anything that cannot
/// be resolved is empty. The indicator is left empty.
pub open spec fn token_values_model(snapshot: Snapshot, session: Seq<char>, host: Seq<char>) -> TokenValuesModel {
    let focused_workspace = found(snapshot.workspaces@, IdField::WorkspaceId, snapshot.focused_workspace_id@);
    let focused_agent = found(snapshot.agents@, IdField::PaneId, snapshot.focused_pane_id@);
    let focused_pane = found(snapshot.panes@, IdField::PaneId, snapshot.focused_pane_id@);
    TokenValuesModel {
        indicator: Seq::empty(),
        session: session,
        workspace: match focused_workspace {
            Some(w) => text_or(w.label, Seq::empty()),
            None => Seq::empty(),
        },
        tab: tab_label_model(snapshot.tabs@, snapshot.focused_workspace_id@, snapshot.focused_tab_id@),
        agent: match focused_agent {
            Some(a) => text_or(a.agent, Seq::empty()),
            None => Seq::empty(),
        },
        // Field-level fallback: an agent entry that carries no stripped title
        // must not shadow the pane entry that does.
        title: match title_in(focused_agent) {
            Some(t) => t,
            None => match title_in(focused_pane) {
                Some(t) => t,
                None => Seq::empty(),
            },
        },
        host: host,
    }
}

fn title_of(entry: Option<&SnapshotEntry>) -> (r: Option<&str>)
    ensures
        match title_in(match entry { Some(e) => Some(*e), None => None }) {
            Some(t) => r matches Some(s) && s@ == t,
            None => r is None,
        },
{
    match entry {
        Some(e) => match &e.terminal_title_stripped {
            Some(t) => if t.as_str().is_empty() {
                None
            } else {
                Some(t.as_str())
            },
            None => None,
        },
        None => None,
    }
}

fn field_text(entry: Option<&SnapshotEntry>, label: bool) -> (r: String)
    ensures
        r@ == match entry {
            Some(e) => text_or(if label { e.label } else { e.agent }, Seq::empty()),
            None => Seq::empty(),
        },
{
    match entry {
        Some(e) => {
            let field = if label { &e.label } else { &e.agent };
            match field {
                Some(s) => s.clone(),
                None => String::new(),
            }
        },
        None => String::new(),
    }
}

/// Build template token values from a snapshot. Anything that cannot be
/// resolved renders as the empty string so optional sections can collapse.
pub fn token_values(snapshot: &Snapshot, session: &str, host: &str) -> (r: TokenValues)
    ensures
        r@ == token_values_model(*snapshot, session@, host@),
{
    let focus = focus(snapshot);
    let workspace_entry = find_by(&snapshot.workspaces, IdField::WorkspaceId, focus.workspace_id.as_str());
    let workspace = field_text(workspace_entry, true);
    let tab = tab_label(snapshot, focus.workspace_id.as_str(), focus.tab_id.as_str());
    let focused_agent = find_by(&snapshot.agents, IdField::PaneId, focus.pane_id.as_str());
    let agent = field_text(focused_agent, false);
    let pane_entry = find_by(&snapshot.panes, IdField::PaneId, focus.pane_id.as_str());
    let title = match title_of(focused_agent) {
        Some(t) => String::from_str(t),
        None => match title_of(pane_entry) {
            Some(t) => String::from_str(t),
            None => String::new(),
        },
    };
    let r = TokenValues {
        indicator: String::new(),
        session: String::from_str(session),
        workspace,
        tab,
        agent,
        title,
        host: String::from_str(host),
    };
    assert(r@ =~= token_values_model(*snapshot, session@, host@));
    r
}

/// Whether an entry belongs to the workspace `workspace_id`.
pub open spec fn in_workspace(workspace_id: Seq<char>) -> spec_fn(SnapshotEntry) -> bool {
    |entry: SnapshotEntry| text_of(entry.workspace_id) == Some(workspace_id)
}

proof fn lemma_workspace_tabs_filter(tabs: Seq<SnapshotEntry>, workspace_id: Seq<char>)
    ensures
        workspace_tabs(tabs, workspace_id) == tabs.filter(in_workspace(workspace_id)),
    decreases tabs.len(),
{
    reveal_with_fuel(Seq::filter, 1);
    if tabs.len() > 0 {
        assert(tabs.drop_last() =~= tabs.subrange(0, tabs.len() - 1));
        lemma_workspace_tabs_filter(tabs.drop_last(), workspace_id);
    }
}

/// `{tab}` counts the focused workspace's tabs only. For the first tab of
/// workspace `workspace_id` with id `tab_id`, at position `k` of the
/// snapshot's tabs: its own label when that is neither empty nor all
/// digits, otherwise one more than the number of tabs before it that belong
/// to the same workspace, in decimal; tabs of other workspaces never count.
pub proof fn lemma_tab_label_counts_workspace_tabs(
    tabs: Seq<SnapshotEntry>,
    workspace_id: Seq<char>,
    tab_id: Seq<char>,
    k: int,
)
    requires
        0 <= k < tabs.len(),
        text_of(tabs[k].workspace_id) == Some(workspace_id),
        text_of(tabs[k].tab_id) == Some(tab_id),
        forall|j: int|
            0 <= j < k ==> !(text_of((#[trigger] tabs[j]).workspace_id) == Some(workspace_id) && text_of(
                tabs[j].tab_id,
            ) == Some(tab_id)),
    ensures
        ({
            let label = text_or(tabs[k].label, Seq::empty());
            let earlier = tabs.subrange(0, k).filter(in_workspace(workspace_id)).len();
            tab_label_model(tabs, workspace_id, tab_id) == if label.len() == 0 || all_ascii_digits(label) {
                decimal_text((earlier + 1) as nat)
            } else {
                label
            }
        }),
{
    let p = in_workspace(workspace_id);
    let pre = tabs.subrange(0, k);
    let post = tabs.subrange(k, tabs.len() as int);
    let rest = post.subrange(1, post.len() as int);
    lemma_workspace_tabs_filter(tabs, workspace_id);
    assert(tabs =~= pre + post);
    Seq::filter_distributes_over_add(pre, post, p);
    assert(post =~= seq![tabs[k]] + rest);
    Seq::filter_distributes_over_add(seq![tabs[k]], rest, p);
    reveal_with_fuel(Seq::filter, 2);
    assert(seq![tabs[k]].drop_last() =~= Seq::<SnapshotEntry>::empty());
    assert(seq![tabs[k]].filter(p) =~= seq![tabs[k]]);
    let front = pre.filter(p);
    let all = workspace_tabs(tabs, workspace_id);
    let n = front.len() as int;
    assert(all == front + (seq![tabs[k]] + rest.filter(p)));
    assert(all[n] == tabs[k]);
    assert forall|j: int| 0 <= j < n implies id_of(#[trigger] all[j], IdField::TabId) != Some(tab_id) by {
        assert(all[j] == front[j]);
        pre.lemma_filter_pred(p, j);
        assert(front.contains(front[j]));
        pre.lemma_filter_contains_rev(p, front[j]);
        let jj = choose|jj: int| 0 <= jj < pre.len() && pre[jj] == front[j];
        assert(pre[jj] == tabs[jj]);
    }
    lemma_first_with(all, IdField::TabId, tab_id, n);
}

/// A tab that is not among its workspace's tabs shows nothing.
pub proof fn lemma_tab_label_of_a_missing_tab(tabs: Seq<SnapshotEntry>, workspace_id: Seq<char>, tab_id: Seq<char>)
    requires
        forall|j: int|
            0 <= j < tabs.len() ==> !(text_of((#[trigger] tabs[j]).workspace_id) == Some(workspace_id) && text_of(
                tabs[j].tab_id,
            ) == Some(tab_id)),
    ensures
        tab_label_model(tabs, workspace_id, tab_id) == Seq::<char>::empty(),
{
    let p = in_workspace(workspace_id);
    let all = workspace_tabs(tabs, workspace_id);
    lemma_workspace_tabs_filter(tabs, workspace_id);
    assert forall|j: int| 0 <= j < all.len() implies id_of(#[trigger] all[j], IdField::TabId) != Some(tab_id) by {
        tabs.lemma_filter_pred(p, j);
        assert(all.contains(all[j]));
        tabs.lemma_filter_contains_rev(p, all[j]);
    }
    lemma_first_with(all, IdField::TabId, tab_id, all.len() as int);
}

/// `{agent}` and `{title}` come from the agent in the focused pane: the
/// first `agents` entry whose `pane_id` is the focused pane id, whatever
/// other agents the focused workspace holds.
pub proof fn lemma_agent_of_the_focused_pane(snapshot: Snapshot, session: Seq<char>, host: Seq<char>, k: int)
    requires
        snapshot.focused_pane_id@.len() > 0,
        0 <= k < snapshot.agents@.len(),
        text_of(snapshot.agents@[k].pane_id) == Some(snapshot.focused_pane_id@),
        forall|j: int| 0 <= j < k ==> text_of((#[trigger] snapshot.agents@[j]).pane_id) != Some(snapshot.focused_pane_id@),
    ensures
        token_values_model(snapshot, session, host).agent == text_or(snapshot.agents@[k].agent, Seq::empty()),
        title_in(Some(snapshot.agents@[k])) matches Some(t) ==> token_values_model(snapshot, session, host).title == t,
{
    lemma_first_with(snapshot.agents@, IdField::PaneId, snapshot.focused_pane_id@, k);
}

/// With no agent in the focused pane, `{agent}` is empty.
pub proof fn lemma_no_agent_in_the_focused_pane(snapshot: Snapshot, session: Seq<char>, host: Seq<char>)
    requires
        forall|j: int|
            0 <= j < snapshot.agents@.len() ==> text_of((#[trigger] snapshot.agents@[j]).pane_id) != Some(
                snapshot.focused_pane_id@,
            ),
    ensures
        token_values_model(snapshot, session, host).agent == Seq::<char>::empty(),
{
    lemma_first_with(snapshot.agents@, IdField::PaneId, snapshot.focused_pane_id@, snapshot.agents@.len() as int);
}

} // verus!
