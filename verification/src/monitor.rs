//! The decisions of the title monitor and the event hooks, apart from the
//! I/O that carries them out: when to send a title, when to give up on a
//! vanished server, how fast to tick, which warnings a configuration earns,
//! and which session a monitor serves.

use vstd::prelude::*;

use crate::config::{lemma_default_template_parses, option_view, Config, ConfigModel, DEFAULT_TEMPLATE};
use crate::template::{fallback_model, parse_with_fallback, string_views};
use crate::text::{chars_of, push_char, str_eq};

verus! {

/// The monitor ticks at least this often so it can notice a vanished herdr
/// server (and exit) even when configured cadences are long.
pub const MAX_TICK_MS: u64 = 2000;

/// Consecutive socket failures before the monitor concludes the herdr
/// server is gone and exits.
pub const MAX_SOCKET_FAILURES: u32 = 3;

/// The number of spinner frames the monitor cycles through.
pub const FRAME_COUNT: usize = 10;

/// Whether a freshly rendered title goes out: when it differs from the last
/// title sent (or none was sent yet), or when the keepalive interval has
/// passed since the last send.
pub fn should_send(last_sent: Option<&str>, title: &str, elapsed_ms: u64, keepalive_ms: u64) -> (r: bool)
    ensures
        r == (match last_sent {
            Some(last) => last@ != title@,
            None => true,
        } || elapsed_ms >= keepalive_ms),
{
    let changed = match last_sent {
        Some(last) => !str_eq(last, title),
        None => true,
    };
    changed || elapsed_ms >= keepalive_ms
}

/// One more consecutive transport failure; true when it is time to give
/// up.
pub fn strike(failures: &mut u32) -> (give_up: bool)
    requires
        *old(failures) < u32::MAX,
    ensures
        *final(failures) == *old(failures) + 1,
        give_up == (*final(failures) >= MAX_SOCKET_FAILURES),
{
    *failures = *failures + 1;
    *failures >= MAX_SOCKET_FAILURES
}

/// The next spinner frame and how long to wait for a poke: while in-scope
/// work runs the spinner advances at its interval, otherwise it rests on
/// the first frame and the keepalive sets the pace; never longer than
/// [`MAX_TICK_MS`].
pub fn next_tick(focused_working: bool, frame_index: usize, spinner_interval_ms: u64, keepalive_ms: u64) -> (r: (usize, u64))
    requires
        frame_index < FRAME_COUNT,
    ensures
        r.0 == (if focused_working { (frame_index + 1) % (FRAME_COUNT as int) } else { 0 }),
        r.1 == ({
            let cadence = if focused_working { spinner_interval_ms } else { keepalive_ms };
            if cadence < MAX_TICK_MS { cadence } else { MAX_TICK_MS }
        }),
        r.0 < FRAME_COUNT,
{
    let (frame, cadence) = if focused_working {
        ((frame_index + 1) % FRAME_COUNT, spinner_interval_ms)
    } else {
        (0, keepalive_ms)
    };
    let wait = if cadence < MAX_TICK_MS { cadence } else { MAX_TICK_MS };
    (frame, wait)
}

/// The template sources of a configuration, in the order warnings report
/// them: the main template, then the working, blocked and done overrides
/// that are set.
pub open spec fn template_sources(config: ConfigModel) -> Seq<Seq<char>> {
    seq![config.template] + match config.working_template {
        Some(t) => seq![t],
        None => Seq::empty(),
    } + match config.blocked_template {
        Some(t) => seq![t],
        None => Seq::empty(),
    } + match config.done_template {
        Some(t) => seq![t],
        None => Seq::empty(),
    }
}

/// The template warnings of each source, one after the other.
pub open spec fn template_warnings(sources: Seq<Seq<char>>) -> Seq<Seq<char>>
    decreases sources.len(),
{
    if sources.len() == 0 {
        Seq::empty()
    } else {
        template_warnings(sources.subrange(0, sources.len() - 1)) + fallback_model(
            sources[sources.len() - 1],
            DEFAULT_TEMPLATE@,
        ).1
    }
}

fn append_template_warnings(source: &str, warnings: &mut Vec<String>)
    ensures
        string_views(final(warnings)@) == string_views(old(warnings)@) + fallback_model(source@, DEFAULT_TEMPLATE@).1,
{
    proof {
        lemma_default_template_parses();
    }
    let (_, mut found) = parse_with_fallback(source, DEFAULT_TEMPLATE);
    let ghost before = warnings@;
    let ghost added = found@;
    warnings.append(&mut found);
    assert(string_views(warnings@) =~= string_views(before) + string_views(added));
}

fn template_sources_of(config: &Config) -> (r: Vec<&str>)
    ensures
        r@.map_values(|t: &str| t@) == template_sources(config@),
{
    let mut r: Vec<&str> = Vec::new();
    r.push(config.template.as_str());
    match &config.working_template {
        Some(t) => r.push(t.as_str()),
        None => {},
    }
    match &config.blocked_template {
        Some(t) => r.push(t.as_str()),
        None => {},
    }
    match &config.done_template {
        Some(t) => r.push(t.as_str()),
        None => {},
    }
    assert(r@.map_values(|t: &str| t@) =~= template_sources(config@));
    r
}

/// Everything a config deserves warnings for: bad fields, plus template
/// syntax problems and unknown tokens across all four templates.
pub fn config_and_template_warnings(config: &Config, warnings: Vec<String>) -> (r: Vec<String>)
    ensures
        string_views(r@) == string_views(warnings@) + template_warnings(template_sources(config@)),
{
    let mut warnings = warnings;
    let ghost start = string_views(warnings@);
    let sources = template_sources_of(config);
    let ghost all = sources@.map_values(|t: &str| t@);
    assert(all.subrange(0, 0) =~= Seq::<Seq<char>>::empty());
    assert(string_views(warnings@) =~= start + template_warnings(all.subrange(0, 0)));
    let mut i: usize = 0;
    while i < sources.len()
        invariant
            i <= sources.len(),
            all == sources@.map_values(|t: &str| t@),
            string_views(warnings@) == start + template_warnings(all.subrange(0, i as int)),
        decreases sources.len() - i,
    {
        append_template_warnings(sources[i], &mut warnings);
        proof {
            assert(all.subrange(0, i + 1).subrange(0, i as int) =~= all.subrange(0, i as int));
            assert(all.subrange(0, i + 1)[i as int] == sources@[i as int]@);
            assert(string_views(warnings@) =~= start + template_warnings(all.subrange(0, i + 1)));
        }
        i += 1;
    }
    assert(all.subrange(0, i as int) =~= all);
    warnings
}

/// The position of the last `/` in `s`.
pub open spec fn last_slash(s: Seq<char>) -> Option<int>
    decreases s.len(),
{
    if s.len() == 0 {
        None
    } else if s[s.len() - 1] == '/' {
        Some(s.len() - 1)
    } else {
        last_slash(s.subrange(0, s.len() - 1))
    }
}

/// The last component of a path: everything after its last `/`.
pub open spec fn last_component(path: Seq<char>) -> Seq<char> {
    match last_slash(path) {
        Some(k) => path.subrange(k + 1, path.len() as int),
        None => path,
    }
}

/// The directory part of a path: everything before its last `/`, if it
/// has one.
pub open spec fn parent(path: Seq<char>) -> Option<Seq<char>> {
    match last_slash(path) {
        Some(k) => Some(path.subrange(0, k)),
        None => None,
    }
}

/// herdr's socket file name.
pub open spec fn socket_file_name() -> Seq<char> {
    "herdr.sock"@
}

/// The session that a socket path names: `<name>` in
/// `.../sessions/<name>/herdr.sock`, when it is not empty.
pub open spec fn session_from_socket_model(path: Seq<char>) -> Option<Seq<char>> {
    match parent(path) {
        None => None,
        Some(_) if last_component(path) != socket_file_name() => None,
        Some(dir) => match parent(dir) {
            None => None,
            Some(grand) => if last_component(grand) == "sessions"@ && last_component(dir).len() > 0 {
                Some(last_component(dir))
            } else {
                None
            },
        },
    }
}

proof fn lemma_last_slash(s: Seq<char>, n: int)
    requires
        0 <= n <= s.len(),
        forall|j: int| n <= j < s.len() ==> s[j] != '/',
        n > 0 ==> s[n - 1] == '/',
    ensures
        last_slash(s) == (if n == 0 { None } else { Some(n - 1) }),
        last_slash(s) matches Some(k) ==> 0 <= k < s.len(),
    decreases s.len(),
{
    if s.len() > 0 && n < s.len() {
        lemma_last_slash(s.subrange(0, s.len() - 1), n);
    }
}

/// The last `/` among the first `end` characters.
fn last_slash_before(chars: &Vec<char>, end: usize) -> (r: Option<usize>)
    requires
        end <= chars.len(),
    ensures
        match last_slash(chars@.subrange(0, end as int)) {
            Some(k) => r == Some(k as usize) && 0 <= k < end,
            None => r is None,
        },
{
    let ghost s = chars@.subrange(0, end as int);
    let mut n = end;
    while n > 0 && chars[n - 1] != '/'
        invariant
            n <= end <= chars.len(),
            s == chars@.subrange(0, end as int),
            forall|j: int| n <= j < end ==> s[j] != '/',
        decreases n,
    {
        n = n - 1;
    }
    proof {
        lemma_last_slash(s, n as int);
    }
    if n == 0 {
        None
    } else {
        Some(n - 1)
    }
}

fn text_between(chars: &Vec<char>, from: usize, to: usize) -> (r: String)
    requires
        from <= to <= chars.len(),
    ensures
        r@ == chars@.subrange(from as int, to as int),
{
    let mut r = String::new();
    let mut i = from;
    while i < to
        invariant
            from <= i <= to <= chars.len(),
            r@ == chars@.subrange(from as int, i as int),
        decreases to - i,
    {
        push_char(&mut r, chars[i]);
        assert(chars@.subrange(from as int, i + 1) =~= chars@.subrange(from as int, i as int).push(chars@[i as int]));
        i += 1;
    }
    r
}

/// The session that a socket path names; see [`session_from_socket_model`].
pub fn session_from_socket_path(path: &str) -> (r: Option<String>)
    ensures
        match session_from_socket_model(path@) {
            Some(name) => r matches Some(s) && s@ == name,
            None => r is None,
        },
{
    let chars = chars_of(path);
    assert(chars@.subrange(0, chars.len() as int) =~= path@);
    let socket_slash = match last_slash_before(&chars, chars.len()) {
        None => return None,
        Some(k) => k,
    };
    let name_slash = match last_slash_before(&chars, socket_slash) {
        None => {
            assert(chars@.subrange(0, socket_slash as int) =~= path@.subrange(0, socket_slash as int));
            return None;
        },
        Some(k) => k,
    };
    let dir_start = match last_slash_before(&chars, name_slash) {
        None => 0,
        Some(k) => k + 1,
    };
    let ghost dir = path@.subrange(0, socket_slash as int);
    let ghost grand = dir.subrange(0, name_slash as int);
    let file = text_between(&chars, socket_slash + 1, chars.len());
    proof {
        assert(path@.subrange(socket_slash + 1, path@.len() as int) =~= chars@.subrange(socket_slash + 1, chars.len() as int));
        assert(chars@.subrange(0, socket_slash as int) =~= dir);
        assert(chars@.subrange(0, name_slash as int) =~= grand);
        assert(dir.subrange(name_slash + 1, dir.len() as int) =~= chars@.subrange(name_slash + 1, socket_slash as int));
        assert(grand.subrange(dir_start as int, grand.len() as int) =~= chars@.subrange(dir_start as int, name_slash as int));
    }
    let directory = text_between(&chars, dir_start, name_slash);
    let name = text_between(&chars, name_slash + 1, socket_slash);
    if str_eq(file.as_str(), "herdr.sock") && str_eq(directory.as_str(), "sessions") && !name.as_str().is_empty() {
        Some(name)
    } else {
        None
    }
}

/// The session name, in resolution order: the one the socket path names,
/// the `HERDR_SESSION` environment, `herdr status`, and finally the literal
/// name of herdr's unnamed session.
pub open spec fn resolved_session(from_socket: Option<Seq<char>>, from_env: Option<Seq<char>>, from_status: Option<Seq<char>>) -> Seq<char> {
    match from_socket {
        Some(name) => name,
        None => match from_env {
            Some(name) => name,
            None => match from_status {
                Some(name) => name,
                None => "default"@,
            },
        },
    }
}

pub fn resolve_session(from_socket: Option<String>, from_env: Option<String>, from_status: Option<String>) -> (r: String)
    ensures
        r@ == resolved_session(option_view(from_socket), option_view(from_env), option_view(from_status)),
{
    match from_socket {
        Some(name) => name,
        None => match from_env {
            Some(name) => name,
            None => match from_status {
                Some(name) => name,
                None => String::from_str("default"),
            },
        },
    }
}

/// Whether `s` holds no `/`.
pub open spec fn no_slash(s: Seq<char>) -> bool {
    forall|i: int| 0 <= i < s.len() ==> s[i] != '/'
}

proof fn lemma_split_at_last_slash(front: Seq<char>, back: Seq<char>)
    requires
        no_slash(back),
    ensures
        parent(front + seq!['/'] + back) == Some(front),
        last_component(front + seq!['/'] + back) == back,
{
    let s = front + seq!['/'] + back;
    lemma_last_slash(s, front.len() as int + 1);
    assert(s.subrange(0, front.len() as int) =~= front);
    assert(s.subrange(front.len() as int + 1, s.len() as int) =~= back);
}

/// herdr's socket under `sessions/<name>/` names that session, and the
/// session it names wins over the environment and `herdr status`; a socket path
/// that names no session leaves the choice to `HERDR_SESSION`, then
/// `herdr status`, then the unnamed session `default`.
pub proof fn lemma_socket_session_wins(
    prefix: Seq<char>,
    name: Seq<char>,
    from_env: Option<Seq<char>>,
    from_status: Option<Seq<char>>,
)
    requires
        prefix.len() == 0 || prefix[prefix.len() - 1] == '/',
        name.len() > 0,
        no_slash(name),
    ensures
        ({
            let path = prefix + "sessions"@ + seq!['/'] + name + seq!['/'] + socket_file_name();
            &&& session_from_socket_model(path) == Some(name)
            &&& resolved_session(session_from_socket_model(path), from_env, from_status) == name
        }),
{
    reveal_strlit("sessions");
    reveal_strlit("herdr.sock");
    let socket = socket_file_name();
    let sessions = "sessions"@;
    let grand = prefix + sessions;
    let dir = grand + seq!['/'] + name;
    lemma_split_at_last_slash(dir, socket);
    lemma_split_at_last_slash(grand, name);
    if prefix.len() == 0 {
        assert(grand =~= sessions);
        lemma_last_slash(sessions, 0);
    } else {
        let front = prefix.subrange(0, prefix.len() - 1);
        assert(grand =~= front + seq!['/'] + sessions);
        lemma_split_at_last_slash(front, sessions);
    }
}

/// Any other socket file names no session, wherever it lies, so the
/// environment, `herdr status` or `default` decides.
pub proof fn lemma_other_socket_names_no_session(directory: Seq<char>, socket: Seq<char>)
    requires
        no_slash(socket),
        socket != socket_file_name(),
    ensures
        session_from_socket_model(directory + seq!['/'] + socket) is None,
{
    lemma_split_at_last_slash(directory, socket);
}

/// Without a session in the socket path, `HERDR_SESSION` decides, then
/// `herdr status`, then the unnamed session `default`.
pub proof fn lemma_session_fallbacks(path: Seq<char>, from_env: Option<Seq<char>>, from_status: Option<Seq<char>>)
    requires
        session_from_socket_model(path) is None,
    ensures
        from_env matches Some(name) ==> resolved_session(session_from_socket_model(path), from_env, from_status)
            == name,
        from_env is None && from_status is Some ==> resolved_session(
            session_from_socket_model(path),
            from_env,
            from_status,
        ) == from_status->Some_0,
        from_env is None && from_status is None ==> resolved_session(
            session_from_socket_model(path),
            from_env,
            from_status,
        ) == "default"@,
{
}

/// What came of one exchange with the herdr server.
#[derive(Debug, Clone, Copy, PartialEq, Eq, Structural)]
pub enum Exchange {
    Fetched,
    FetchFailed,
    Sent,
    SendFailed,
}

/// The transport failures since the last successful snapshot fetch,
/// counted back from the latest exchange (a successful send does not end
/// the count).
pub open spec fn failures_since_fetch(exchanges: Seq<Exchange>) -> nat
    decreases exchanges.len(),
{
    if exchanges.len() == 0 {
        0
    } else {
        let earlier = failures_since_fetch(exchanges.drop_last());
        match exchanges.last() {
            Exchange::Fetched => 0,
            Exchange::Sent => earlier,
            Exchange::FetchFailed | Exchange::SendFailed => earlier + 1,
        }
    }
}

/// The ticks with in-scope work since the last tick without, counted back
/// from the latest tick.
pub open spec fn working_streak(ticks: Seq<bool>) -> nat
    decreases ticks.len(),
{
    if ticks.len() == 0 {
        0
    } else if ticks.last() {
        working_streak(ticks.drop_last()) + 1
    } else {
        0
    }
}

/// What the monitor carries from one tick to the next: the spinner frame,
/// the consecutive transport failures, and the last title it sent. The
/// ghost fields record every exchange with the server and, per tick,
/// whether in-scope work was running.
pub struct MonitorState {
    pub frame_index: usize,
    pub socket_failures: u32,
    pub last_sent: Option<String>,
    pub last_warnings: Vec<String>,
    pub exchanges: Ghost<Seq<Exchange>>,
    pub ticks: Ghost<Seq<bool>>,
}

/// Whether two lists of strings hold the same texts, in the same order.
fn same_texts(a: &Vec<String>, b: &Vec<String>) -> (r: bool)
    ensures
        r == (string_views(a@) == string_views(b@)),
{
    if a.len() != b.len() {
        proof {
            assert(string_views(a@).len() != string_views(b@).len());
        }
        return false;
    }
    let mut i: usize = 0;
    while i < a.len()
        invariant
            a.len() == b.len(),
            i <= a.len(),
            forall|j: int| 0 <= j < i ==> a@[j]@ == b@[j]@,
        decreases a.len() - i,
    {
        if !str_eq(a[i].as_str(), b[i].as_str()) {
            proof {
                assert(string_views(a@)[i as int] != string_views(b@)[i as int]);
            }
            return false;
        }
        i += 1;
    }
    proof {
        assert(string_views(a@) =~= string_views(b@));
    }
    true
}

impl MonitorState {
    /// A running monitor: the frame is the working streak (modulo the frame
    /// count), and the failure count is the failures since the last
    /// successful fetch, still short of giving up.
    pub open spec fn wf(&self) -> bool {
        &&& self.frame_index == working_streak(self.ticks@) % (FRAME_COUNT as nat)
        &&& self.socket_failures == failures_since_fetch(self.exchanges@)
        &&& self.socket_failures < MAX_SOCKET_FAILURES
    }

    /// A fresh monitor: first frame, no failures, nothing sent.
    pub fn new() -> (r: MonitorState)
        ensures
            r.wf(),
            r.frame_index == 0,
            r.socket_failures == 0,
            r.last_sent is None,
            r.last_warnings@ == Seq::<String>::empty(),
            r.exchanges@ == Seq::<Exchange>::empty(),
            r.ticks@ == Seq::<bool>::empty(),
    {
        MonitorState {
            frame_index: 0,
            socket_failures: 0,
            last_sent: None,
            last_warnings: Vec::new(),
            exchanges: Ghost(Seq::empty()),
            ticks: Ghost(Seq::empty()),
        }
    }

    fn record(&mut self, exchange: Exchange) -> (give_up: bool)
        requires
            old(self).wf(),
        ensures
            final(self).exchanges@ == old(self).exchanges@.push(exchange),
            final(self).socket_failures == failures_since_fetch(final(self).exchanges@),
            final(self).socket_failures == match exchange {
                Exchange::Fetched => 0,
                Exchange::Sent => old(self).socket_failures as int,
                _ => old(self).socket_failures + 1,
            },
            give_up == (failures_since_fetch(final(self).exchanges@) >= MAX_SOCKET_FAILURES),
            give_up ==> failures_since_fetch(final(self).exchanges@) == MAX_SOCKET_FAILURES,
            final(self).frame_index == old(self).frame_index,
            final(self).ticks == old(self).ticks,
            final(self).last_warnings == old(self).last_warnings,
            final(self).last_sent == old(self).last_sent,
    {
        let ghost exchanges = self.exchanges@.push(exchange);
        proof {
            assert(exchanges.drop_last() =~= self.exchanges@);
        }
        self.exchanges = Ghost(exchanges);
        match exchange {
            Exchange::Fetched => {
                self.socket_failures = 0;
                false
            },
            Exchange::Sent => false,
            Exchange::FetchFailed | Exchange::SendFailed => strike(&mut self.socket_failures),
        }
    }

    /// The outcome of a snapshot fetch: success clears the failures, a
    /// failure is one more strike. True when it is time to give up, which
    /// is exactly when the failures since the last successful fetch reach
    /// [`MAX_SOCKET_FAILURES`].
    pub fn snapshot_fetched(&mut self, ok: bool) -> (give_up: bool)
        requires
            old(self).wf(),
        ensures
            final(self).exchanges@ == old(self).exchanges@.push(
                if ok { Exchange::Fetched } else { Exchange::FetchFailed },
            ),
            final(self).socket_failures == (if ok { 0 } else { old(self).socket_failures + 1 }),
            give_up == (failures_since_fetch(final(self).exchanges@) == MAX_SOCKET_FAILURES),
            !give_up ==> final(self).wf(),
            final(self).frame_index == old(self).frame_index,
            final(self).ticks == old(self).ticks,
            final(self).last_warnings == old(self).last_warnings,
            final(self).last_sent == old(self).last_sent,
    {
        self.record(if ok { Exchange::Fetched } else { Exchange::FetchFailed })
    }

    /// The outcome of sending `title`: success makes it the last title
    /// sent, a failure is one more strike. True when it is time to give up,
    /// which is exactly when the failures since the last successful fetch
    /// reach [`MAX_SOCKET_FAILURES`].
    pub fn title_sent(&mut self, title: String, ok: bool) -> (give_up: bool)
        requires
            old(self).wf(),
        ensures
            final(self).exchanges@ == old(self).exchanges@.push(if ok { Exchange::Sent } else { Exchange::SendFailed }),
            final(self).socket_failures == (if ok { old(self).socket_failures as int } else { old(self).socket_failures + 1 }),
            final(self).last_sent == (if ok { Some(title) } else { old(self).last_sent }),
            give_up == (failures_since_fetch(final(self).exchanges@) == MAX_SOCKET_FAILURES),
            !give_up ==> final(self).wf(),
            final(self).frame_index == old(self).frame_index,
            final(self).ticks == old(self).ticks,
            final(self).last_warnings == old(self).last_warnings,
    {
        let give_up = self.record(if ok { Exchange::Sent } else { Exchange::SendFailed });
        if ok {
            self.last_sent = Some(title);
        }
        give_up
    }

    /// Takes this tick's configuration warnings; true when they differ
    /// from the last ones taken, so that they are reported again only after
    /// a change. They are kept as the last warnings either way.
    pub fn note_warnings(&mut self, warnings: Vec<String>) -> (changed: bool)
        ensures
            changed == (string_views(warnings@) != string_views(old(self).last_warnings@)),
            final(self).last_warnings == warnings,
            final(self).frame_index == old(self).frame_index,
            final(self).socket_failures == old(self).socket_failures,
            final(self).last_sent == old(self).last_sent,
            final(self).exchanges == old(self).exchanges,
            final(self).ticks == old(self).ticks,
    {
        let changed = !same_texts(&warnings, &self.last_warnings);
        self.last_warnings = warnings;
        changed
    }

    /// Whether `title` goes out now; see [`should_send`].
    pub fn wants_to_send(&self, title: &str, elapsed_ms: u64, keepalive_ms: u64) -> (r: bool)
        ensures
            r == (match self.last_sent {
                Some(last) => last@ != title@,
                None => true,
            } || elapsed_ms >= keepalive_ms),
    {
        match &self.last_sent {
            Some(last) => should_send(Some(last.as_str()), title, elapsed_ms, keepalive_ms),
            None => should_send(None, title, elapsed_ms, keepalive_ms),
        }
    }

    /// The end of a tick: the spinner advances while in-scope work runs and
    /// rests on the first frame otherwise; the result is how long to wait
    /// for a poke; see [`next_tick`].
    pub fn tick(&mut self, focused_working: bool, spinner_interval_ms: u64, keepalive_ms: u64) -> (wait_ms: u64)
        requires
            old(self).wf(),
        ensures
            final(self).wf(),
            final(self).ticks@ == old(self).ticks@.push(focused_working),
            final(self).frame_index == (if focused_working {
                (old(self).frame_index + 1) % (FRAME_COUNT as int)
            } else {
                0
            }),
            wait_ms == ({
                let cadence = if focused_working { spinner_interval_ms } else { keepalive_ms };
                if cadence < MAX_TICK_MS { cadence } else { MAX_TICK_MS }
            }),
            final(self).socket_failures == old(self).socket_failures,
            final(self).exchanges == old(self).exchanges,
            final(self).last_warnings == old(self).last_warnings,
            final(self).last_sent == old(self).last_sent,
    {
        let (frame, wait_ms) = next_tick(focused_working, self.frame_index, spinner_interval_ms, keepalive_ms);
        let ghost ticks = self.ticks@.push(focused_working);
        proof {
            assert(ticks.drop_last() =~= self.ticks@);
            let n = working_streak(self.ticks@);
            assert((n + 1) % 10 == ((n % 10) + 1) % 10) by (nonlinear_arith);
        }
        self.ticks = Ghost(ticks);
        self.frame_index = frame;
        wait_ms
    }
}

/// The spinner frame counts working ticks: after `n` more ticks with
/// in-scope work the frame has moved `n` places on (modulo the frame
/// count), and a tick without resets it to the first frame.
pub proof fn lemma_spinner_advances(ticks: Seq<bool>, n: nat)
    ensures
        working_streak(ticks + Seq::new(n, |i: int| true)) % (FRAME_COUNT as nat) == (working_streak(ticks) % (
        FRAME_COUNT as nat) + n) % (FRAME_COUNT as nat),
        working_streak(ticks.push(false)) == 0,
    decreases n,
{
    assert(ticks.push(false).drop_last() =~= ticks);
    if n == 0 {
        assert(ticks + Seq::new(0, |i: int| true) =~= ticks);
    } else {
        let shorter = ticks + Seq::new((n - 1) as nat, |i: int| true);
        let longer = ticks + Seq::new(n, |i: int| true);
        lemma_spinner_advances(ticks, (n - 1) as nat);
        assert(longer.drop_last() =~= shorter);
        assert(longer.last());
        let w = working_streak(ticks);
        assert(((w % 10 + (n - 1)) % 10 + 1) % 10 == (w % 10 + n) % 10) by (nonlinear_arith);
        assert((working_streak(shorter) + 1) % 10 == ((working_streak(shorter) % 10) + 1) % 10) by (nonlinear_arith);
    }
}

/// A successful fetch starts the failure count over; after it, every failed
/// exchange adds one and a successful send adds none.
pub proof fn lemma_failures_since_fetch(exchanges: Seq<Exchange>, later: Seq<Exchange>)
    ensures
        failures_since_fetch(exchanges.push(Exchange::Fetched)) == 0,
        (forall|i: int| 0 <= i < later.len() ==> #[trigger] later[i] != Exchange::Fetched) ==> failures_since_fetch(
            exchanges + later,
        ) == failures_since_fetch(exchanges) + failures_in(later),
    decreases later.len(),
{
    if later.len() > 0 {
        let all = exchanges + later;
        assert(all.drop_last() =~= exchanges + later.drop_last());
        if forall|i: int| 0 <= i < later.len() ==> #[trigger] later[i] != Exchange::Fetched {
            assert forall|i: int| 0 <= i < later.drop_last().len() implies #[trigger] later.drop_last()[i]
                != Exchange::Fetched by {
                assert(later.drop_last()[i] == later[i]);
            }
        }
        lemma_failures_since_fetch(exchanges, later.drop_last());
    } else {
        assert(exchanges + later =~= exchanges);
    }
}

/// The failed exchanges among `exchanges`.
pub open spec fn failures_in(exchanges: Seq<Exchange>) -> nat
    decreases exchanges.len(),
{
    if exchanges.len() == 0 {
        0
    } else {
        failures_in(exchanges.drop_last()) + match exchanges.last() {
            Exchange::FetchFailed | Exchange::SendFailed => 1nat,
            _ => 0nat,
        }
    }
}

} // verus!
