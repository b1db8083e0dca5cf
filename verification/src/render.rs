//! One pure function from (snapshot, config, hostname, spinner frame) to
//! the title string.

use vstd::prelude::*;

use crate::config::{lemma_default_template_parses, Config, ConfigModel, HostDisplay, DEFAULT_TEMPLATE};
use crate::indicator::{activity, indicator, indicator_text, select_template, selected_template, snapshot_activity};
use crate::snapshot::{text_of, token_values, token_values_model, Snapshot};
use crate::template::{fallback_model, parse_model, parse_with_fallback, render_model, TokenValuesModel};

verus! {

/// What `{host}` shows: the hostname always, never, or (by default) only
/// when the server was reached over SSH.
pub open spec fn shown_host(display: HostDisplay, host: Seq<char>, remote: bool) -> Seq<char> {
    match display {
        HostDisplay::Always => host,
        HostDisplay::Never => Seq::empty(),
        HostDisplay::Auto => if remote {
            host
        } else {
            Seq::empty()
        },
    }
}

/// Whether an environment variable is set to something.
pub open spec fn set_to_something(value: Option<Seq<char>>) -> bool {
    value matches Some(v) && v.len() > 0
}

/// Whether the server was reached over SSH, as its environment shows: one
/// of `SSH_CONNECTION`, `SSH_CLIENT` and `SSH_TTY` is set and not empty.
pub fn remote_from_env(connection: Option<String>, client: Option<String>, tty: Option<String>) -> (r: bool)
    ensures
        r == (set_to_something(text_of(connection)) || set_to_something(text_of(client)) || set_to_something(
            text_of(tty),
        )),
{
    is_set(&connection) || is_set(&client) || is_set(&tty)
}

fn is_set(value: &Option<String>) -> (r: bool)
    ensures
        r == set_to_something(text_of(*value)),
{
    match value {
        Some(v) => !v.as_str().is_empty(),
        None => false,
    }
}

/// The token values a title renders with.
pub open spec fn title_values(snapshot: Snapshot, config: ConfigModel, session: Seq<char>, host: Seq<char>, remote: bool, frame: Seq<char>) -> TokenValuesModel {
    let activity = snapshot_activity(snapshot, config.spinner_scope);
    TokenValuesModel {
        indicator: indicator_text(activity, config.blocked_glyph, config.done_glyph, frame),
        ..token_values_model(snapshot, session, shown_host(config.host_display, host, remote))
    }
}

/// The title: the template chosen by the session's state (the default
/// template when it does not parse), rendered with the snapshot's values.
pub open spec fn title_model(snapshot: Snapshot, config: ConfigModel, session: Seq<char>, host: Seq<char>, remote: bool, frame: Seq<char>) -> Seq<char> {
    let activity = snapshot_activity(snapshot, config.spinner_scope);
    let template = fallback_model(selected_template(activity, config), DEFAULT_TEMPLATE@).0;
    render_model(template, title_values(snapshot, config, session, host, remote, frame)).text
}

/// `host` is always the server's short hostname; `remote` is whether the
/// server was reached over SSH. `host_display` decides here which of the
/// two `{host}` actually reflects.
pub fn render_title(snapshot: &Snapshot, config: &Config, session: &str, host: &str, remote: bool, frame: &str) -> (r: String)
    ensures
        r@ == title_model(*snapshot, config@, session@, host@, remote, frame@),
{
    let shown = match config.host_display {
        HostDisplay::Always => host,
        HostDisplay::Never => "",
        HostDisplay::Auto => if remote {
            host
        } else {
            ""
        },
    };
    proof {
        reveal_strlit("");
        lemma_default_template_parses();
    }
    let activity = activity(snapshot, config.spinner_scope);
    let mut values = token_values(snapshot, session, shown);
    values.indicator = indicator(&activity, config, frame);
    let (template, _) = parse_with_fallback(select_template(&activity, config), DEFAULT_TEMPLATE);
    assert(values@ =~= title_values(*snapshot, config@, session@, host@, remote, frame@));
    template.render(&values)
}


/// A broken template never loses the title: when the template chosen for
/// the session's state does not parse, the title is the default template
/// rendered with the same values.
pub proof fn lemma_broken_template_renders_default(snapshot: Snapshot, config: ConfigModel, session: Seq<char>, host: Seq<char>, remote: bool, frame: Seq<char>)
    requires
        parse_model(selected_template(snapshot_activity(snapshot, config.spinner_scope), config)) is Err,
    ensures
        title_model(snapshot, config, session, host, remote, frame) == render_model(
            parse_model(DEFAULT_TEMPLATE@)->Ok_0,
            title_values(snapshot, config, session, host, remote, frame),
        ).text,
{
}

/// `{host}` shows the hostname only as `host_display` says: never with
/// `never`, always with `always`, and with `auto` exactly on remote
/// servers; a local server in `auto` renders as if the hostname were empty.
pub proof fn lemma_host_display(snapshot: Snapshot, config: ConfigModel, session: Seq<char>, host: Seq<char>, remote: bool, frame: Seq<char>)
    ensures
        config.host_display == HostDisplay::Never || (config.host_display == HostDisplay::Auto && !remote)
            ==> title_model(snapshot, config, session, host, remote, frame) == title_model(
            snapshot,
            config,
            session,
            Seq::empty(),
            remote,
            frame,
        ),
        config.host_display == HostDisplay::Always ==> title_model(snapshot, config, session, host, remote, frame)
            == title_model(snapshot, config, session, host, true, frame),
{
}

} // verus!
