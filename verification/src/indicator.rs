//! Agent-state aggregation across the session and the `{indicator}` token.

use vstd::prelude::*;

use crate::config::{Config, ConfigModel, SpinnerScope};
use crate::snapshot::{status_of, text_of, Snapshot, SnapshotEntry};
use crate::text::{digit, digit_char, push_char, str_eq};

verus! {

/// Braille spinner frames, advanced by the monitor while focused work runs.
pub const SPINNER_FRAMES: [&'static str; 10] = [
    "\u{280b}",
    "\u{2819}",
    "\u{2839}",
    "\u{2838}",
    "\u{283c}",
    "\u{2834}",
    "\u{2826}",
    "\u{2827}",
    "\u{2807}",
    "\u{280f}",
];

#[derive(Debug, Default, Clone, Copy, PartialEq, Eq, Structural)]
pub struct SessionActivity {
    pub blocked: usize,
    pub done: usize,
    pub focused_working: bool,
    pub background_working: usize,
}

/// A count as the indicator shows it: one digit, or `9+` beyond nine.
pub open spec fn capped_text(count: nat) -> Seq<char> {
    if count > 9 {
        seq!['9', '+']
    } else {
        seq![digit_char(count)]
    }
}

/// A background-work count as a circled number: ①–⑳, then ⊕ beyond.
pub open spec fn circled_text(count: nat) -> Seq<char> {
    if 1 <= count <= 20 {
        seq![(0x2460 + count - 1) as char]
    } else {
        seq!['\u{2295}']
    }
}

/// The `{indicator}` token: exactly one segment — the highest non-empty
/// priority — with a trailing space. Priority: blocked > done > focused
/// spinner > background count > empty.
pub open spec fn indicator_text(activity: SessionActivity, blocked_glyph: Seq<char>, done_glyph: Seq<char>, frame: Seq<char>) -> Seq<char> {
    if activity.blocked > 0 {
        blocked_glyph + capped_text(activity.blocked as nat) + seq![' ']
    } else if activity.done > 0 {
        done_glyph + capped_text(activity.done as nat) + seq![' ']
    } else if activity.focused_working {
        frame + seq![' ']
    } else if activity.background_working > 0 {
        circled_text(activity.background_working as nat) + seq![' ']
    } else {
        Seq::empty()
    }
}

fn capped(count: usize) -> (r: String)
    ensures
        r@ == capped_text(count as nat),
{
    let mut s = String::new();
    if count > 9 {
        push_char(&mut s, '9');
        push_char(&mut s, '+');
    } else {
        push_char(&mut s, digit(count));
    }
    assert(s@ =~= capped_text(count as nat));
    s
}

/// `char::from_u32`, as std documents it: the character with that code
/// point, or `None` for a surrogate or a value beyond `U+10FFFF`.
#[verifier::external_body]
fn char_from_u32(code: u32) -> (r: Option<char>)
    ensures
        (code < 0xD800 || (0xE000 <= code && code <= 0x10FFFF)) ==> r == Some(code as char),
        !(code < 0xD800 || (0xE000 <= code && code <= 0x10FFFF)) ==> r is None,
{
    char::from_u32(code)
}

fn circled(count: usize) -> (r: String)
    ensures
        r@ == circled_text(count as nat),
{
    let mut s = String::new();
    if 1 <= count && count <= 20 {
        match char_from_u32(0x2460 + (count as u32 - 1)) {
            Some(c) => push_char(&mut s, c),
            None => {},
        }
    } else {
        push_char(&mut s, '\u{2295}');
    }
    assert(s@ =~= circled_text(count as nat));
    s
}

/// The `{indicator}` token: exactly one segment — the highest non-empty
/// priority — with a trailing space so the default template collapses
/// cleanly when idle. Priority: blocked > done > focused spinner >
/// background count > empty.
pub fn indicator(activity: &SessionActivity, config: &Config, frame: &str) -> (r: String)
    ensures
        r@ == indicator_text(*activity, config.blocked_glyph@, config.done_glyph@, frame@),
{
    let mut s = String::new();
    if activity.blocked > 0 {
        s.append(config.blocked_glyph.as_str());
        s.append(capped(activity.blocked).as_str());
        push_char(&mut s, ' ');
    } else if activity.done > 0 {
        s.append(config.done_glyph.as_str());
        s.append(capped(activity.done).as_str());
        push_char(&mut s, ' ');
    } else if activity.focused_working {
        s.append(frame);
        push_char(&mut s, ' ');
    } else if activity.background_working > 0 {
        s.append(circled(activity.background_working).as_str());
        push_char(&mut s, ' ');
    }
    assert(s@ =~= indicator_text(*activity, config.blocked_glyph@, config.done_glyph@, frame@));
    s
}

/// Whether a working agent is in the spinner's scope: the focused pane,
/// any pane of the focused workspace, or anywhere in the session.
pub open spec fn in_scope(agent: SnapshotEntry, scope: SpinnerScope, focused_pane: Seq<char>, focused_workspace: Seq<char>) -> bool {
    match scope {
        SpinnerScope::Pane => text_of(agent.pane_id) == Some(focused_pane),
        SpinnerScope::Workspace => text_of(agent.workspace_id) == Some(focused_workspace),
        SpinnerScope::Session => true,
    }
}

/// Agent states counted over `agents`. `blocked` and `done` count those
/// statuses; a `working` agent in scope sets `focused_working`, one out of
/// scope counts as background work; every other status is ignored.
pub open spec fn activity_model(agents: Seq<SnapshotEntry>, scope: SpinnerScope, focused_pane: Seq<char>, focused_workspace: Seq<char>) -> SessionActivity
    decreases agents.len(),
{
    if agents.len() == 0 {
        SessionActivity { blocked: 0, done: 0, focused_working: false, background_working: 0 }
    } else {
        activity_step(
            activity_model(agents.subrange(0, agents.len() - 1), scope, focused_pane, focused_workspace),
            agents[agents.len() - 1],
            scope,
            focused_pane,
            focused_workspace,
        )
    }
}

/// The activity `before` with one more agent counted.
pub open spec fn activity_step(before: SessionActivity, agent: SnapshotEntry, scope: SpinnerScope, focused_pane: Seq<char>, focused_workspace: Seq<char>) -> SessionActivity {
    let status = status_of(agent);
    if status == "blocked"@ {
        SessionActivity { blocked: (before.blocked + 1) as usize, ..before }
    } else if status == "done"@ {
        SessionActivity { done: (before.done + 1) as usize, ..before }
    } else if status == "working"@ {
        if in_scope(agent, scope, focused_pane, focused_workspace) {
            SessionActivity { focused_working: true, ..before }
        } else {
            SessionActivity { background_working: (before.background_working + 1) as usize, ..before }
        }
    } else {
        before
    }
}

/// The activity of a whole snapshot.
pub open spec fn snapshot_activity(snapshot: Snapshot, scope: SpinnerScope) -> SessionActivity {
    activity_model(snapshot.agents@, scope, snapshot.focused_pane_id@, snapshot.focused_workspace_id@)
}

proof fn lemma_activity_bounded(agents: Seq<SnapshotEntry>, scope: SpinnerScope, focused_pane: Seq<char>, focused_workspace: Seq<char>)
    ensures
        ({
            let a = activity_model(agents, scope, focused_pane, focused_workspace);
            a.blocked + a.done + a.background_working <= agents.len()
        }),
    decreases agents.len(),
{
    if agents.len() > 0 {
        lemma_activity_bounded(agents.subrange(0, agents.len() - 1), scope, focused_pane, focused_workspace);
    }
}

fn status_is(agent: &SnapshotEntry, wanted: &str) -> (r: bool)
    ensures
        r == (status_of(*agent) == wanted@),
{
    match &agent.agent_status {
        Some(status) => str_eq(status.as_str(), wanted),
        None => str_eq("unknown", wanted),
    }
}

fn agent_in_scope(agent: &SnapshotEntry, scope: SpinnerScope, focused_pane: &str, focused_workspace: &str) -> (r: bool)
    ensures
        r == in_scope(*agent, scope, focused_pane@, focused_workspace@),
{
    match scope {
        SpinnerScope::Pane => match &agent.pane_id {
            Some(id) => str_eq(id.as_str(), focused_pane),
            None => false,
        },
        SpinnerScope::Workspace => match &agent.workspace_id {
            Some(id) => str_eq(id.as_str(), focused_workspace),
            None => false,
        },
        SpinnerScope::Session => true,
    }
}

/// Count agent states across every workspace in the snapshot. `unknown`
/// never participates. "Focused working" follows the spinner scope: the
/// focused pane only, any pane in the focused workspace, or the session.
pub fn activity(snapshot: &Snapshot, scope: SpinnerScope) -> (r: SessionActivity)
    ensures
        r == snapshot_activity(*snapshot, scope),
{
    let agents = &snapshot.agents;
    let focused_pane = snapshot.focused_pane_id.as_str();
    let focused_workspace = snapshot.focused_workspace_id.as_str();
    let mut activity = SessionActivity { blocked: 0, done: 0, focused_working: false, background_working: 0 };
    let mut i: usize = 0;
    assert(agents@.subrange(0, 0) =~= Seq::<SnapshotEntry>::empty());
    while i < agents.len()
        invariant
            i <= agents.len(),
            activity == activity_model(agents@.subrange(0, i as int), scope, focused_pane@, focused_workspace@),
        decreases agents.len() - i,
    {
        proof {
            assert(agents@.subrange(0, i + 1).subrange(0, i as int) =~= agents@.subrange(0, i as int));
            lemma_activity_bounded(agents@.subrange(0, i as int), scope, focused_pane@, focused_workspace@);
        }
        let agent = &agents[i];
        if status_is(agent, "blocked") {
            activity.blocked = activity.blocked + 1;
        } else if status_is(agent, "done") {
            activity.done = activity.done + 1;
        } else if status_is(agent, "working") {
            if agent_in_scope(agent, scope, focused_pane, focused_workspace) {
                activity.focused_working = true;
            } else {
                activity.background_working = activity.background_working + 1;
            }
        }
        i += 1;
    }
    assert(agents@.subrange(0, i as int) =~= agents@);
    activity
}

/// The state a template is chosen by, with the indicator's priority:
/// blocked, then done, then in-scope work; each state's own template when
/// configured, otherwise `template`.
pub open spec fn selected_template(activity: SessionActivity, config: ConfigModel) -> Seq<char> {
    let own = if activity.blocked > 0 {
        config.blocked_template
    } else if activity.done > 0 {
        config.done_template
    } else if activity.focused_working {
        config.working_template
    } else {
        None
    };
    match own {
        Some(t) => t,
        None => config.template,
    }
}

/// The template source for the session's current state; see
/// [`selected_template`].
pub fn select_template<'a>(activity: &SessionActivity, config: &'a Config) -> (r: &'a str)
    ensures
        r@ == selected_template(*activity, config@),
        activity.blocked > 0 ==> r@ == own_or_main(config@.blocked_template, config@),
        activity.blocked == 0 && activity.done > 0 ==> r@ == own_or_main(config@.done_template, config@),
        activity.blocked == 0 && activity.done == 0 && activity.focused_working ==> r@ == own_or_main(
            config@.working_template,
            config@,
        ),
        activity.blocked == 0 && activity.done == 0 && !activity.focused_working ==> r@ == config@.template,
{
    let own = if activity.blocked > 0 {
        &config.blocked_template
    } else if activity.done > 0 {
        &config.done_template
    } else if activity.focused_working {
        &config.working_template
    } else {
        return config.template.as_str();
    };
    match own {
        Some(t) => t.as_str(),
        None => config.template.as_str(),
    }
}


// ---------------------------------------------------------------------------
// Laws of the indicator.

/// The indicator is empty exactly when nothing is happening: no agent
/// blocked, done, or working anywhere in the session.
pub proof fn lemma_indicator_empty_iff_idle(activity: SessionActivity, blocked_glyph: Seq<char>, done_glyph: Seq<char>, frame: Seq<char>)
    ensures
        indicator_text(activity, blocked_glyph, done_glyph, frame).len() == 0 <==> (activity.blocked == 0
            && activity.done == 0 && !activity.focused_working && activity.background_working == 0),
{
}

/// A non-empty indicator ends in a space, so it separates itself from what
/// follows and collapses cleanly when idle.
pub proof fn lemma_indicator_trailing_space(activity: SessionActivity, blocked_glyph: Seq<char>, done_glyph: Seq<char>, frame: Seq<char>)
    ensures
        ({
            let text = indicator_text(activity, blocked_glyph, done_glyph, frame);
            text.len() > 0 ==> text[text.len() - 1] == ' '
        }),
{
}

/// Whether some agent in `agents` is working.
pub open spec fn some_working(agents: Seq<SnapshotEntry>) -> bool {
    exists|i: int| 0 <= i < agents.len() && status_of(#[trigger] agents[i]) == "working"@
}

/// The blocked and done counts do not depend on the spinner scope, and a
/// working agent is never lost: whatever the scope, it shows as in-scope
/// work or as background work. With the session scope all work is in
/// scope, so the background count never appears. (An agent list of a
/// snapshot holds at most `usize::MAX` entries.)
pub proof fn lemma_activity_scopes(agents: Seq<SnapshotEntry>, scope: SpinnerScope, other: SpinnerScope, focused_pane: Seq<char>, focused_workspace: Seq<char>)
    requires
        agents.len() <= usize::MAX,
    ensures
        activity_model(agents, scope, focused_pane, focused_workspace).blocked == activity_model(
            agents,
            other,
            focused_pane,
            focused_workspace,
        ).blocked,
        activity_model(agents, scope, focused_pane, focused_workspace).done == activity_model(
            agents,
            other,
            focused_pane,
            focused_workspace,
        ).done,
        some_working(agents) <==> ({
            let a = activity_model(agents, scope, focused_pane, focused_workspace);
            a.focused_working || a.background_working > 0
        }),
        activity_model(agents, SpinnerScope::Session, focused_pane, focused_workspace).background_working == 0,
        activity_model(agents, SpinnerScope::Session, focused_pane, focused_workspace).focused_working
            == some_working(agents),
    decreases agents.len(),
{
    reveal_strlit("working");
    reveal_strlit("blocked");
    reveal_strlit("done");
    if agents.len() > 0 {
        let shorter = agents.subrange(0, agents.len() - 1);
        let last = agents[agents.len() - 1];
        assert("working"@[0] == 'w' && "blocked"@[0] == 'b' && "done"@[0] == 'd');
        assert("working"@ != "blocked"@ && "working"@ != "done"@);
        lemma_activity_bounded(shorter, scope, focused_pane, focused_workspace);
        lemma_activity_scopes(shorter, scope, other, focused_pane, focused_workspace);
        if some_working(shorter) {
            let i = choose|i: int| 0 <= i < shorter.len() && status_of(#[trigger] shorter[i]) == "working"@;
            assert(agents[i] == shorter[i]);
        }
        if some_working(agents) {
            let i = choose|i: int| 0 <= i < agents.len() && status_of(#[trigger] agents[i]) == "working"@;
            if i < agents.len() - 1 {
                assert(agents[i] == shorter[i]);
            }
        }
    }
}

proof fn lemma_activity_concat_idle(first: Seq<SnapshotEntry>, idle: SnapshotEntry, second: Seq<SnapshotEntry>, scope: SpinnerScope, focused_pane: Seq<char>, focused_workspace: Seq<char>)
    requires
        status_of(idle) != "blocked"@,
        status_of(idle) != "done"@,
        status_of(idle) != "working"@,
    ensures
        activity_model(first + seq![idle] + second, scope, focused_pane, focused_workspace) == activity_model(
            first + second,
            scope,
            focused_pane,
            focused_workspace,
        ),
    decreases second.len(),
{
    if second.len() == 0 {
        assert(first + seq![idle] + second =~= first.push(idle));
        assert(first.push(idle).subrange(0, first.len() as int) =~= first);
        assert(first + second =~= first);
    } else {
        let shorter = second.subrange(0, second.len() - 1);
        let with = first + seq![idle] + second;
        let without = first + second;
        assert(with.subrange(0, with.len() - 1) =~= first + seq![idle] + shorter);
        assert(without.subrange(0, without.len() - 1) =~= first + shorter);
        assert(with[with.len() - 1] == second[second.len() - 1]);
        assert(without[without.len() - 1] == second[second.len() - 1]);
        lemma_activity_concat_idle(first, idle, shorter, scope, focused_pane, focused_workspace);
    }
}

/// Only the blocked, done and working statuses count: an agent with any
/// other status (idle, unknown, or none) can be added anywhere without
/// changing the activity.
pub proof fn lemma_other_statuses_ignored(first: Seq<SnapshotEntry>, idle: SnapshotEntry, second: Seq<SnapshotEntry>, scope: SpinnerScope, focused_pane: Seq<char>, focused_workspace: Seq<char>)
    requires
        status_of(idle) != "blocked"@,
        status_of(idle) != "done"@,
        status_of(idle) != "working"@,
    ensures
        activity_model(first + seq![idle] + second, scope, focused_pane, focused_workspace) == activity_model(
            first + second,
            scope,
            focused_pane,
            focused_workspace,
        ),
{
    lemma_activity_concat_idle(first, idle, second, scope, focused_pane, focused_workspace);
}

proof fn lemma_move_to_end(first: Seq<SnapshotEntry>, moved: SnapshotEntry, second: Seq<SnapshotEntry>, scope: SpinnerScope, focused_pane: Seq<char>, focused_workspace: Seq<char>)
    requires
        first.len() + second.len() + 1 <= usize::MAX,
    ensures
        activity_model(first + seq![moved] + second, scope, focused_pane, focused_workspace) == activity_model(
            first + second + seq![moved],
            scope,
            focused_pane,
            focused_workspace,
        ),
    decreases second.len(),
{
    if second.len() == 0 {
        assert(first + seq![moved] + second =~= first + second + seq![moved]);
    } else {
        let shorter = second.subrange(0, second.len() - 1);
        let last = second[second.len() - 1];
        let with = first + seq![moved] + second;
        let moved_out = first + second + seq![moved];
        let base = first + shorter;
        assert(with.subrange(0, with.len() - 1) =~= first + seq![moved] + shorter);
        assert(with[with.len() - 1] == last);
        assert(moved_out.subrange(0, moved_out.len() - 1) =~= base.push(last));
        assert(base.push(last).subrange(0, base.len() as int) =~= base);
        assert((base + seq![moved]).subrange(0, base.len() as int) =~= base);
        assert(first + shorter + seq![moved] =~= base + seq![moved]);
        lemma_move_to_end(first, moved, shorter, scope, focused_pane, focused_workspace);
        lemma_activity_bounded(base, scope, focused_pane, focused_workspace);
        let a = activity_model(base, scope, focused_pane, focused_workspace);
        let bp = base + seq![moved];
        assert(bp.subrange(0, bp.len() - 1) =~= base);
        assert(activity_model(bp, scope, focused_pane, focused_workspace) == activity_step(a, moved, scope, focused_pane, focused_workspace));
        assert(activity_model(base.push(last), scope, focused_pane, focused_workspace) == activity_step(a, last, scope, focused_pane, focused_workspace));
        assert(activity_model(with, scope, focused_pane, focused_workspace) == activity_step(
            activity_step(a, moved, scope, focused_pane, focused_workspace), last, scope, focused_pane, focused_workspace));
        assert(activity_model(moved_out, scope, focused_pane, focused_workspace) == activity_step(
            activity_step(a, last, scope, focused_pane, focused_workspace), moved, scope, focused_pane, focused_workspace));
    }
}

/// The activity does not depend on the order of the agents: two agent
/// lists holding the same agents, each as often, give the same activity.
/// (An agent list of a snapshot holds at most `usize::MAX` entries.)
pub proof fn lemma_activity_ignores_order(agents: Seq<SnapshotEntry>, reordered: Seq<SnapshotEntry>, scope: SpinnerScope, focused_pane: Seq<char>, focused_workspace: Seq<char>)
    requires
        agents.len() <= usize::MAX,
        agents.to_multiset() == reordered.to_multiset(),
    ensures
        activity_model(agents, scope, focused_pane, focused_workspace) == activity_model(
            reordered,
            scope,
            focused_pane,
            focused_workspace,
        ),
    decreases agents.len(),
{
    broadcast use vstd::seq_lib::group_to_multiset_ensures;

    agents.to_multiset_ensures();
    reordered.to_multiset_ensures();
    assert(agents.len() == reordered.len());
    if agents.len() > 0 {
        let shorter = agents.subrange(0, agents.len() - 1);
        let last = agents[agents.len() - 1];
        assert(shorter.push(last) =~= agents);
        assert(reordered.to_multiset().count(last) > 0);
        assert(reordered.contains(last));
        let j = choose|j: int| 0 <= j < reordered.len() && reordered[j] == last;
        let rest = reordered.remove(j);
        assert(rest.to_multiset() =~= shorter.to_multiset());
        lemma_activity_ignores_order(shorter, rest, scope, focused_pane, focused_workspace);
        let front = reordered.subrange(0, j);
        let back = reordered.subrange(j + 1, reordered.len() as int);
        assert(front + seq![last] + back =~= reordered);
        assert(front + back =~= rest);
        lemma_move_to_end(front, last, back, scope, focused_pane, focused_workspace);
        assert(rest.push(last).subrange(0, rest.len() as int) =~= rest);
        assert(front + back + seq![last] =~= rest.push(last));
        assert(activity_model(rest.push(last), scope, focused_pane, focused_workspace) == activity_step(
            activity_model(rest, scope, focused_pane, focused_workspace), last, scope, focused_pane, focused_workspace));
        assert(activity_model(agents, scope, focused_pane, focused_workspace) == activity_step(
            activity_model(shorter, scope, focused_pane, focused_workspace), last, scope, focused_pane, focused_workspace));
    }
}

/// The activity counts the agents' statuses: `blocked` and `done` are the
/// numbers of agents with those statuses, `focused_working` says whether
/// some working agent is in scope, and `background_working` is the number
/// of working agents out of scope. (An agent list of a snapshot holds at
/// most `usize::MAX` entries.)
pub proof fn lemma_activity_counts(agents: Seq<SnapshotEntry>, scope: SpinnerScope, focused_pane: Seq<char>, focused_workspace: Seq<char>)
    requires
        agents.len() <= usize::MAX,
    ensures
        ({
            let a = activity_model(agents, scope, focused_pane, focused_workspace);
            &&& a.blocked == agents.filter(|x: SnapshotEntry| status_of(x) == "blocked"@).len()
            &&& a.done == agents.filter(|x: SnapshotEntry| status_of(x) == "done"@).len()
            &&& a.focused_working == exists|i: int|
                0 <= i < agents.len() && status_of(#[trigger] agents[i]) == "working"@ && in_scope(
                    agents[i],
                    scope,
                    focused_pane,
                    focused_workspace,
                )
            &&& a.background_working == agents.filter(
                |x: SnapshotEntry| status_of(x) == "working"@ && !in_scope(x, scope, focused_pane, focused_workspace),
            ).len()
        }),
    decreases agents.len(),
{
    reveal_strlit("working");
    reveal_strlit("blocked");
    reveal_strlit("done");
    reveal_with_fuel(Seq::filter, 1);
    let is_blocked = |x: SnapshotEntry| status_of(x) == "blocked"@;
    let is_done = |x: SnapshotEntry| status_of(x) == "done"@;
    let is_background = |x: SnapshotEntry| status_of(x) == "working"@ && !in_scope(x, scope, focused_pane, focused_workspace);
    if agents.len() == 0 {
        assert(agents.filter(is_blocked).len() == 0);
        assert(agents.filter(is_done).len() == 0);
        assert(agents.filter(is_background).len() == 0);
    } else {
        let shorter = agents.drop_last();
        let last = agents.last();
        assert(shorter =~= agents.subrange(0, agents.len() - 1));
        assert("working"@[0] == 'w' && "blocked"@[0] == 'b' && "done"@[0] == 'd');
        lemma_activity_counts(shorter, scope, focused_pane, focused_workspace);
        lemma_activity_bounded(shorter, scope, focused_pane, focused_workspace);
        assert(agents.filter(is_blocked) == if is_blocked(last) { shorter.filter(is_blocked).push(last) } else { shorter.filter(is_blocked) });
        assert(agents.filter(is_done) == if is_done(last) { shorter.filter(is_done).push(last) } else { shorter.filter(is_done) });
        assert(agents.filter(is_background) == if is_background(last) { shorter.filter(is_background).push(last) } else { shorter.filter(is_background) });
        if exists|i: int| 0 <= i < shorter.len() && status_of(#[trigger] shorter[i]) == "working"@ && in_scope(shorter[i], scope, focused_pane, focused_workspace) {
            let i = choose|i: int| 0 <= i < shorter.len() && status_of(#[trigger] shorter[i]) == "working"@ && in_scope(shorter[i], scope, focused_pane, focused_workspace);
            assert(agents[i] == shorter[i]);
        }
        if exists|i: int| 0 <= i < agents.len() && status_of(#[trigger] agents[i]) == "working"@ && in_scope(agents[i], scope, focused_pane, focused_workspace) {
            let i = choose|i: int| 0 <= i < agents.len() && status_of(#[trigger] agents[i]) == "working"@ && in_scope(agents[i], scope, focused_pane, focused_workspace);
            if i < agents.len() - 1 {
                assert(agents[i] == shorter[i]);
            }
        }
        assert(status_of(agents[agents.len() - 1]) == status_of(last));
    }
}

/// A state's own template when it is configured, the main template
/// otherwise.
pub open spec fn own_or_main(own: Option<Seq<char>>, config: ConfigModel) -> Seq<char> {
    match own {
        Some(t) => t,
        None => config.template,
    }
}

/// Each state renders with its own template, falling back to `template`
/// when that one is unset: a blocked agent selects `blocked_template`;
/// otherwise a done agent selects `done_template`; otherwise in-scope work
/// selects `working_template`; an idle session always uses `template`.
pub proof fn lemma_each_state_selects_its_template(activity: SessionActivity, config: ConfigModel)
    ensures
        activity.blocked > 0 ==> selected_template(activity, config) == own_or_main(config.blocked_template, config),
        activity.blocked == 0 && activity.done > 0 ==> selected_template(activity, config) == own_or_main(
            config.done_template,
            config,
        ),
        activity.blocked == 0 && activity.done == 0 && activity.focused_working ==> selected_template(activity, config)
            == own_or_main(config.working_template, config),
        activity.blocked == 0 && activity.done == 0 && !activity.focused_working ==> selected_template(
            activity,
            config,
        ) == config.template,
{
}

} // verus!
