//! Plugin configuration: `config.toml` in the herdr-managed config dir,
//! re-read before every render so edits apply without a server restart.
//! Every key is optional; anything invalid falls back to its default with
//! a warning instead of breaking the title.

use vstd::prelude::*;
use vstd::seq_lib::lemma_concat_associative;

use crate::template::{parse_model, string_views};
use crate::text::str_eq;
use crate::toml_table::{
    parse_toml_table, toml_document, toml_lookup, TomlItem, TomlItemModel,
    TomlKind, TomlKindModel,
};

verus! {

pub const DEFAULT_TEMPLATE: &'static str = "{indicator}herdr:{session}[ ({host})]";

/// The default template parses.
pub proof fn lemma_default_template_parses()
    ensures
        parse_model(DEFAULT_TEMPLATE@) is Ok,
{
    reveal_strlit("{indicator}herdr:{session}[ ({host})]");
    reveal_with_fuel(crate::template::scan, 40);
    reveal_with_fuel(crate::template::first_close_brace, 12);
    assert(parse_model(DEFAULT_TEMPLATE@) is Ok);
}

/// When `{host}` resolves to the server's hostname versus the empty string
/// (empty is what lets a `[ ({host})]` section collapse on local servers).
#[derive(Debug, Clone, Copy, PartialEq, Eq, Structural)]
pub enum HostDisplay {
    /// Hostname only when the server was reached over SSH — remote sessions
    /// name themselves, local ones stay clean.
    Auto,
    Always,
    Never,
}

#[derive(Debug, Clone, Copy, PartialEq, Eq, Structural)]
pub enum SpinnerScope {
    Pane,
    Workspace,
    /// Any working agent anywhere in the session spins; nothing is
    /// "background", so the working count never appears.
    Session,
}

#[derive(Debug, Clone, PartialEq)]
pub struct Config {
    pub template: String,
    pub working_template: Option<String>,
    pub blocked_template: Option<String>,
    pub done_template: Option<String>,
    pub host_display: HostDisplay,
    pub spinner_scope: SpinnerScope,
    pub spinner_interval_ms: u64,
    pub idle_keepalive_ms: u64,
    pub blocked_glyph: String,
    pub done_glyph: String,
}

/// The mathematical model of a [`Config`]: its strings as character sequences.
pub struct ConfigModel {
    pub template: Seq<char>,
    pub working_template: Option<Seq<char>>,
    pub blocked_template: Option<Seq<char>>,
    pub done_template: Option<Seq<char>>,
    pub host_display: HostDisplay,
    pub spinner_scope: SpinnerScope,
    pub spinner_interval_ms: u64,
    pub idle_keepalive_ms: u64,
    pub blocked_glyph: Seq<char>,
    pub done_glyph: Seq<char>,
}

pub open spec fn option_view(o: Option<String>) -> Option<Seq<char>> {
    match o {
        Some(s) => Some(s@),
        None => None,
    }
}

impl View for Config {
    type V = ConfigModel;

    open spec fn view(&self) -> ConfigModel {
        ConfigModel {
            template: self.template@,
            working_template: option_view(self.working_template),
            blocked_template: option_view(self.blocked_template),
            done_template: option_view(self.done_template),
            host_display: self.host_display,
            spinner_scope: self.spinner_scope,
            spinner_interval_ms: self.spinner_interval_ms,
            idle_keepalive_ms: self.idle_keepalive_ms,
            blocked_glyph: self.blocked_glyph@,
            done_glyph: self.done_glyph@,
        }
    }
}

/// The configuration used when nothing is configured.
pub open spec fn default_config() -> ConfigModel {
    ConfigModel {
        template: DEFAULT_TEMPLATE@,
        working_template: None,
        blocked_template: None,
        done_template: None,
        host_display: HostDisplay::Auto,
        spinner_scope: SpinnerScope::Session,
        spinner_interval_ms: 200,
        idle_keepalive_ms: 2000,
        blocked_glyph: "\u{25cf}"@,
        done_glyph: "\u{2713}"@,
    }
}

impl Default for Config {
    fn default() -> (r: Self)
        ensures
            r@ == default_config(),
    {
        Config {
            template: String::from_str(DEFAULT_TEMPLATE),
            working_template: None,
            blocked_template: None,
            done_template: None,
            host_display: HostDisplay::Auto,
            spinner_scope: SpinnerScope::Session,
            spinner_interval_ms: 200,
            idle_keepalive_ms: 2000,
            blocked_glyph: String::from_str("\u{25cf}"),
            done_glyph: String::from_str("\u{2713}"),
        }
    }
}

/// The entries of a configuration document under the keys that
/// configuration reads; `None` where the document has no such key.
#[derive(Debug)]
pub struct ConfigDocument {
    pub template: Option<TomlItem>,
    pub blocked_glyph: Option<TomlItem>,
    pub done_glyph: Option<TomlItem>,
    pub working_template: Option<TomlItem>,
    pub blocked_template: Option<TomlItem>,
    pub done_template: Option<TomlItem>,
    pub spinner_interval_ms: Option<TomlItem>,
    pub idle_keepalive_ms: Option<TomlItem>,
    pub host_display: Option<TomlItem>,
    pub spinner_scope: Option<TomlItem>,
}

pub struct ConfigDocumentModel {
    pub template: Option<TomlItemModel>,
    pub blocked_glyph: Option<TomlItemModel>,
    pub done_glyph: Option<TomlItemModel>,
    pub working_template: Option<TomlItemModel>,
    pub blocked_template: Option<TomlItemModel>,
    pub done_template: Option<TomlItemModel>,
    pub spinner_interval_ms: Option<TomlItemModel>,
    pub idle_keepalive_ms: Option<TomlItemModel>,
    pub host_display: Option<TomlItemModel>,
    pub spinner_scope: Option<TomlItemModel>,
}

pub open spec fn item_view(o: Option<TomlItem>) -> Option<TomlItemModel> {
    match o {
        Some(item) => Some(item@),
        None => None,
    }
}

impl View for ConfigDocument {
    type V = ConfigDocumentModel;

    open spec fn view(&self) -> ConfigDocumentModel {
        ConfigDocumentModel {
            template: item_view(self.template),
            blocked_glyph: item_view(self.blocked_glyph),
            done_glyph: item_view(self.done_glyph),
            working_template: item_view(self.working_template),
            blocked_template: item_view(self.blocked_template),
            done_template: item_view(self.done_template),
            spinner_interval_ms: item_view(self.spinner_interval_ms),
            idle_keepalive_ms: item_view(self.idle_keepalive_ms),
            host_display: item_view(self.host_display),
            spinner_scope: item_view(self.spinner_scope),
        }
    }
}

pub open spec fn entry(entries: Map<Seq<char>, TomlItemModel>, key: Seq<char>) -> Option<TomlItemModel> {
    if entries.contains_key(key) {
        Some(entries[key])
    } else {
        None
    }
}

/// The configuration keys of a document's top-level entries.
pub open spec fn document_of(entries: Map<Seq<char>, TomlItemModel>) -> ConfigDocumentModel {
    ConfigDocumentModel {
        template: entry(entries, "template"@),
        blocked_glyph: entry(entries, "blocked_glyph"@),
        done_glyph: entry(entries, "done_glyph"@),
        working_template: entry(entries, "working_template"@),
        blocked_template: entry(entries, "blocked_template"@),
        done_template: entry(entries, "done_template"@),
        spinner_interval_ms: entry(entries, "spinner_interval_ms"@),
        idle_keepalive_ms: entry(entries, "idle_keepalive_ms"@),
        host_display: entry(entries, "host_display"@),
        spinner_scope: entry(entries, "spinner_scope"@),
    }
}

/// The warning for `key` holding `got` where `expected` was expected.
pub open spec fn bad_type_warning(key: Seq<char>, expected: Seq<char>, got: Seq<char>) -> Seq<char> {
    "config: `"@ + key + "` must be "@ + expected + ", got "@ + got + "; using default"@
}

pub open spec fn expect_string() -> Seq<char> {
    "a string"@
}

pub open spec fn expect_positive_integer() -> Seq<char> {
    "a positive integer"@
}

pub open spec fn expect_host_display() -> Seq<char> {
    "\"auto\", \"always\", or \"never\""@
}

pub open spec fn expect_spinner_scope() -> Seq<char> {
    "\"pane\", \"workspace\", or \"session\""@
}

/// A string setting: any string replaces the default.
pub open spec fn string_setting(item: Option<TomlItemModel>, default: Seq<char>) -> Seq<char> {
    match item {
        Some(TomlItemModel { kind: TomlKindModel::String(s), .. }) => s,
        _ => default,
    }
}

/// An optional template: a non-empty string sets it; the empty string
/// leaves it unset.
pub open spec fn optional_setting(item: Option<TomlItemModel>) -> Option<Seq<char>> {
    match item {
        Some(TomlItemModel { kind: TomlKindModel::String(s), .. }) => if s.len() == 0 {
            None
        } else {
            Some(s)
        },
        _ => None,
    }
}

/// The warnings of a string-valued key: one, when it holds a non-string.
pub open spec fn string_warnings(key: Seq<char>, item: Option<TomlItemModel>) -> Seq<Seq<char>> {
    match item {
        Some(i) => match i.kind {
            TomlKindModel::String(_) => Seq::empty(),
            _ => seq![bad_type_warning(key, expect_string(), i.rendered)],
        },
        None => Seq::empty(),
    }
}

/// An interval in milliseconds: a positive integer replaces the default.
pub open spec fn interval_setting(item: Option<TomlItemModel>, default: u64) -> u64 {
    match item {
        Some(TomlItemModel { kind: TomlKindModel::Integer(v), .. }) => if v > 0 {
            v as u64
        } else {
            default
        },
        _ => default,
    }
}

pub open spec fn interval_warnings(key: Seq<char>, item: Option<TomlItemModel>) -> Seq<Seq<char>> {
    match item {
        Some(i) => match i.kind {
            TomlKindModel::Integer(v) if v > 0 => Seq::empty(),
            _ => seq![bad_type_warning(key, expect_positive_integer(), i.rendered)],
        },
        None => Seq::empty(),
    }
}

/// The host display a string names, if it names one.
pub open spec fn host_display_named(s: Seq<char>) -> Option<HostDisplay> {
    if s == "auto"@ {
        Some(HostDisplay::Auto)
    } else if s == "always"@ {
        Some(HostDisplay::Always)
    } else if s == "never"@ {
        Some(HostDisplay::Never)
    } else {
        None
    }
}

/// The spinner scope a string names, if it names one.
pub open spec fn spinner_scope_named(s: Seq<char>) -> Option<SpinnerScope> {
    if s == "pane"@ {
        Some(SpinnerScope::Pane)
    } else if s == "workspace"@ {
        Some(SpinnerScope::Workspace)
    } else if s == "session"@ {
        Some(SpinnerScope::Session)
    } else {
        None
    }
}

pub open spec fn host_display_setting(item: Option<TomlItemModel>) -> HostDisplay {
    match item {
        Some(TomlItemModel { kind: TomlKindModel::String(s), .. }) => match host_display_named(s) {
            Some(d) => d,
            None => HostDisplay::Auto,
        },
        _ => HostDisplay::Auto,
    }
}

pub open spec fn host_display_warnings(item: Option<TomlItemModel>) -> Seq<Seq<char>> {
    match item {
        Some(i) => match i.kind {
            TomlKindModel::String(s) if host_display_named(s) is Some => Seq::empty(),
            _ => seq![bad_type_warning("host_display"@, expect_host_display(), i.rendered)],
        },
        None => Seq::empty(),
    }
}

pub open spec fn spinner_scope_setting(item: Option<TomlItemModel>) -> SpinnerScope {
    match item {
        Some(TomlItemModel { kind: TomlKindModel::String(s), .. }) => match spinner_scope_named(s) {
            Some(d) => d,
            None => SpinnerScope::Session,
        },
        _ => SpinnerScope::Session,
    }
}

pub open spec fn spinner_scope_warnings(item: Option<TomlItemModel>) -> Seq<Seq<char>> {
    match item {
        Some(i) => match i.kind {
            TomlKindModel::String(s) if spinner_scope_named(s) is Some => Seq::empty(),
            _ => seq![bad_type_warning("spinner_scope"@, expect_spinner_scope(), i.rendered)],
        },
        None => Seq::empty(),
    }
}

/// The configuration a document describes: each key on its own, falling
/// back to its default when missing or invalid.
pub open spec fn config_of(d: ConfigDocumentModel) -> ConfigModel {
    let defaults = default_config();
    ConfigModel {
        template: string_setting(d.template, defaults.template),
        working_template: optional_setting(d.working_template),
        blocked_template: optional_setting(d.blocked_template),
        done_template: optional_setting(d.done_template),
        host_display: host_display_setting(d.host_display),
        spinner_scope: spinner_scope_setting(d.spinner_scope),
        spinner_interval_ms: interval_setting(d.spinner_interval_ms, defaults.spinner_interval_ms),
        idle_keepalive_ms: interval_setting(d.idle_keepalive_ms, defaults.idle_keepalive_ms),
        blocked_glyph: string_setting(d.blocked_glyph, defaults.blocked_glyph),
        done_glyph: string_setting(d.done_glyph, defaults.done_glyph),
    }
}

/// The warnings a document earns, one per invalid key, in a fixed key order.
pub open spec fn config_warnings(d: ConfigDocumentModel) -> Seq<Seq<char>> {
    string_warnings("template"@, d.template) + string_warnings("blocked_glyph"@, d.blocked_glyph)
        + string_warnings("done_glyph"@, d.done_glyph) + string_warnings(
        "working_template"@,
        d.working_template,
    ) + string_warnings("blocked_template"@, d.blocked_template) + string_warnings(
        "done_template"@,
        d.done_template,
    ) + interval_warnings("spinner_interval_ms"@, d.spinner_interval_ms) + interval_warnings(
        "idle_keepalive_ms"@,
        d.idle_keepalive_ms,
    ) + host_display_warnings(d.host_display) + spinner_scope_warnings(d.spinner_scope)
}

/// The prefix of the one warning for a document that is not valid TOML.
pub open spec fn invalid_toml_prefix() -> Seq<char> {
    "config: invalid TOML, using defaults: "@
}

/// The configuration that the text of `config.toml` describes: that of its
/// entries, or the default when it is not valid TOML.
pub open spec fn parsed_config(contents: Seq<char>) -> ConfigModel {
    match toml_document(contents) {
        Ok(entries) => config_of(document_of(entries)),
        Err(_) => default_config(),
    }
}

/// The warnings that the text of `config.toml` earns: those of its
/// entries, or the one warning carrying toml's error text.
pub open spec fn parsed_warnings(contents: Seq<char>) -> Seq<Seq<char>> {
    match toml_document(contents) {
        Ok(entries) => config_warnings(document_of(entries)),
        Err(text) => seq![invalid_toml_prefix() + text],
    }
}

fn bad_type(key: &str, expected: &str, got: &TomlItem) -> (r: String)
    ensures
        r@ == bad_type_warning(key@, expected@, got.rendered@),
{
    let mut warning = String::from_str("config: `");
    warning.append(key);
    warning.append("` must be ");
    warning.append(expected);
    warning.append(", got ");
    warning.append(got.rendered.as_str());
    warning.append("; using default");
    assert(warning@ =~= bad_type_warning(key@, expected@, got.rendered@));
    warning
}

fn read_string(key: &str, item: &Option<TomlItem>, into: &mut String, warnings: &mut Vec<String>)
    ensures
        final(into)@ == string_setting(item_view(*item), old(into)@),
        string_views(final(warnings)@) == string_views(old(warnings)@) + string_warnings(key@, item_view(*item)),
{
    let ghost before = warnings@;
    match item {
        None => {},
        Some(got) => match &got.kind {
            TomlKind::String(value) => {
                *into = value.clone();
            },
            _ => {
                warnings.push(bad_type(key, "a string", got));
            },
        },
    }
    assert(string_views(warnings@) =~= string_views(before) + string_warnings(key@, item_view(*item)));
}

fn read_optional(key: &str, item: &Option<TomlItem>, into: &mut Option<String>, warnings: &mut Vec<String>)
    requires
        *old(into) is None,
    ensures
        option_view(*final(into)) == optional_setting(item_view(*item)),
        string_views(final(warnings)@) == string_views(old(warnings)@) + string_warnings(key@, item_view(*item)),
{
    let ghost before = warnings@;
    match item {
        None => {},
        Some(got) => match &got.kind {
            TomlKind::String(value) => {
                if !value.as_str().is_empty() {
                    *into = Some(value.clone());
                }
            },
            _ => {
                warnings.push(bad_type(key, "a string", got));
            },
        },
    }
    assert(string_views(warnings@) =~= string_views(before) + string_warnings(key@, item_view(*item)));
}

fn read_interval(key: &str, item: &Option<TomlItem>, into: &mut u64, warnings: &mut Vec<String>)
    ensures
        *final(into) == interval_setting(item_view(*item), *old(into)),
        string_views(final(warnings)@) == string_views(old(warnings)@) + interval_warnings(key@, item_view(*item)),
{
    let ghost before = warnings@;
    match item {
        None => {},
        Some(got) => match &got.kind {
            TomlKind::Integer(value) => {
                if *value > 0 {
                    *into = *value as u64;
                } else {
                    warnings.push(bad_type(key, "a positive integer", got));
                }
            },
            _ => {
                warnings.push(bad_type(key, "a positive integer", got));
            },
        },
    }
    assert(string_views(warnings@) =~= string_views(before) + interval_warnings(key@, item_view(*item)));
}

fn name_host_display(s: &str) -> (r: Option<HostDisplay>)
    ensures
        r == host_display_named(s@),
{
    if str_eq(s, "auto") {
        Some(HostDisplay::Auto)
    } else if str_eq(s, "always") {
        Some(HostDisplay::Always)
    } else if str_eq(s, "never") {
        Some(HostDisplay::Never)
    } else {
        None
    }
}

fn name_spinner_scope(s: &str) -> (r: Option<SpinnerScope>)
    ensures
        r == spinner_scope_named(s@),
{
    if str_eq(s, "pane") {
        Some(SpinnerScope::Pane)
    } else if str_eq(s, "workspace") {
        Some(SpinnerScope::Workspace)
    } else if str_eq(s, "session") {
        Some(SpinnerScope::Session)
    } else {
        None
    }
}

impl Config {
    /// The configuration that the entries of a document describe, and the
    /// warnings for every entry that falls back to its default.
    pub fn from_document(document: &ConfigDocument) -> (r: (Config, Vec<String>))
        ensures
            r.0@ == config_of(document@),
            string_views(r.1@) == config_warnings(document@),
    {
        let mut config = Config::default();
        let mut warnings: Vec<String> = Vec::new();
        assert(string_views(warnings@) =~= Seq::<Seq<char>>::empty());
        read_string("template", &document.template, &mut config.template, &mut warnings);
        read_string("blocked_glyph", &document.blocked_glyph, &mut config.blocked_glyph, &mut warnings);
        read_string("done_glyph", &document.done_glyph, &mut config.done_glyph, &mut warnings);
        read_optional("working_template", &document.working_template, &mut config.working_template, &mut warnings);
        read_optional("blocked_template", &document.blocked_template, &mut config.blocked_template, &mut warnings);
        read_optional("done_template", &document.done_template, &mut config.done_template, &mut warnings);
        read_interval(
            "spinner_interval_ms",
            &document.spinner_interval_ms,
            &mut config.spinner_interval_ms,
            &mut warnings,
        );
        read_interval("idle_keepalive_ms", &document.idle_keepalive_ms, &mut config.idle_keepalive_ms, &mut warnings);
        let ghost before = warnings@;
        match &document.host_display {
            None => {},
            Some(got) => {
                let named = match &got.kind {
                    TomlKind::String(value) => name_host_display(value.as_str()),
                    _ => None,
                };
                match named {
                    Some(display) => {
                        config.host_display = display;
                    },
                    None => {
                        warnings.push(bad_type("host_display", "\"auto\", \"always\", or \"never\"", got));
                    },
                }
            },
        }
        assert(string_views(warnings@) =~= string_views(before) + host_display_warnings(document@.host_display));
        let ghost before = warnings@;
        match &document.spinner_scope {
            None => {},
            Some(got) => {
                let named = match &got.kind {
                    TomlKind::String(value) => name_spinner_scope(value.as_str()),
                    _ => None,
                };
                match named {
                    Some(scope) => {
                        config.spinner_scope = scope;
                    },
                    None => {
                        warnings.push(bad_type("spinner_scope", "\"pane\", \"workspace\", or \"session\"", got));
                    },
                }
            },
        }
        assert(string_views(warnings@) =~= string_views(before) + spinner_scope_warnings(document@.spinner_scope));
        assert(string_views(warnings@) =~= config_warnings(document@));
        (config, warnings)
    }

    /// Reads the configuration from the text of `config.toml`. Text that
    /// is not valid TOML gives the default configuration and one warning.
    pub fn parse(contents: &str) -> (r: (Config, Vec<String>))
        ensures
            r.0@ == parsed_config(contents@),
            string_views(r.1@) == parsed_warnings(contents@),
    {
        let table = match parse_toml_table(contents) {
            Ok(table) => table,
            Err(text) => {
                let mut warning = String::from_str("config: invalid TOML, using defaults: ");
                warning.append(text.as_str());
                let mut warnings: Vec<String> = Vec::new();
                warnings.push(warning);
                assert(string_views(warnings@) =~= parsed_warnings(contents@));
                return (Config::default(), warnings);
            },
        };
        let document = ConfigDocument {
            template: toml_lookup(&table, "template"),
            blocked_glyph: toml_lookup(&table, "blocked_glyph"),
            done_glyph: toml_lookup(&table, "done_glyph"),
            working_template: toml_lookup(&table, "working_template"),
            blocked_template: toml_lookup(&table, "blocked_template"),
            done_template: toml_lookup(&table, "done_template"),
            spinner_interval_ms: toml_lookup(&table, "spinner_interval_ms"),
            idle_keepalive_ms: toml_lookup(&table, "idle_keepalive_ms"),
            host_display: toml_lookup(&table, "host_display"),
            spinner_scope: toml_lookup(&table, "spinner_scope"),
        };
        assert(document@ == document_of(toml_document(contents@)->Ok_0));
        Config::from_document(&document)
    }
}


/// Every key is optional: a document without any of the configuration
/// keys gives the default configuration and no warnings.
pub proof fn lemma_missing_keys_give_defaults(entries: Map<Seq<char>, TomlItemModel>)
    requires
        !entries.contains_key("template"@),
        !entries.contains_key("blocked_glyph"@),
        !entries.contains_key("done_glyph"@),
        !entries.contains_key("working_template"@),
        !entries.contains_key("blocked_template"@),
        !entries.contains_key("done_template"@),
        !entries.contains_key("spinner_interval_ms"@),
        !entries.contains_key("idle_keepalive_ms"@),
        !entries.contains_key("host_display"@),
        !entries.contains_key("spinner_scope"@),
    ensures
        config_of(document_of(entries)) == default_config(),
        config_warnings(document_of(entries)) == Seq::<Seq<char>>::empty(),
{
    assert(config_warnings(document_of(entries)) =~= Seq::<Seq<char>>::empty());
}

/// Whether a key expecting a string holds something else.
pub open spec fn invalid_string(item: Option<TomlItemModel>) -> bool {
    item matches Some(i) && !(i.kind is String)
}

/// Whether an interval key holds something other than a positive integer.
pub open spec fn invalid_interval(item: Option<TomlItemModel>) -> bool {
    item matches Some(i) && !(i.kind matches TomlKindModel::Integer(v) && v > 0)
}

/// Whether a choice key holds something other than one of its names.
pub open spec fn invalid_choice(item: Option<TomlItemModel>, named: spec_fn(Seq<char>) -> bool) -> bool {
    item matches Some(i) && !(i.kind matches TomlKindModel::String(s) && named(s))
}

pub open spec fn count(b: bool) -> nat {
    if b {
        1
    } else {
        0
    }
}

/// Invalid values fall back to their defaults with a warning: each key
/// holding an invalid value keeps its default setting, and there is
/// exactly one warning per such key.
pub proof fn lemma_invalid_values_fall_back(d: ConfigDocumentModel)
    ensures
        config_warnings(d).len() == count(invalid_string(d.template)) + count(invalid_string(d.blocked_glyph))
            + count(invalid_string(d.done_glyph)) + count(invalid_string(d.working_template)) + count(
            invalid_string(d.blocked_template),
        ) + count(invalid_string(d.done_template)) + count(invalid_interval(d.spinner_interval_ms)) + count(
            invalid_interval(d.idle_keepalive_ms),
        ) + count(invalid_choice(d.host_display, |s: Seq<char>| host_display_named(s) is Some)) + count(
            invalid_choice(d.spinner_scope, |s: Seq<char>| spinner_scope_named(s) is Some),
        ),
        invalid_string(d.template) ==> config_of(d).template == default_config().template,
        invalid_string(d.blocked_glyph) ==> config_of(d).blocked_glyph == default_config().blocked_glyph,
        invalid_string(d.done_glyph) ==> config_of(d).done_glyph == default_config().done_glyph,
        invalid_string(d.working_template) ==> config_of(d).working_template is None,
        invalid_string(d.blocked_template) ==> config_of(d).blocked_template is None,
        invalid_string(d.done_template) ==> config_of(d).done_template is None,
        invalid_interval(d.spinner_interval_ms) ==> config_of(d).spinner_interval_ms
            == default_config().spinner_interval_ms,
        invalid_interval(d.idle_keepalive_ms) ==> config_of(d).idle_keepalive_ms == default_config().idle_keepalive_ms,
        invalid_choice(d.host_display, |s: Seq<char>| host_display_named(s) is Some) ==> config_of(d).host_display
            == default_config().host_display,
        invalid_choice(d.spinner_scope, |s: Seq<char>| spinner_scope_named(s) is Some) ==> config_of(d).spinner_scope
            == default_config().spinner_scope,
{
}


/// Whether `s` begins with `prefix`.
pub open spec fn starts_with(s: Seq<char>, prefix: Seq<char>) -> bool {
    prefix.len() <= s.len() && s.subrange(0, prefix.len() as int) == prefix
}

/// Whether every warning in `warnings` is a bad-value warning, which has a
/// backquote where the invalid-TOML warning has the `i` of "invalid".
pub open spec fn all_bad_type(warnings: Seq<Seq<char>>) -> bool {
    forall|i: int| 0 <= i < warnings.len() ==> (#[trigger] warnings[i]).len() > 8 && warnings[i][8] == '`'
}

proof fn lemma_bad_type_marker(key: Seq<char>, expected: Seq<char>, got: Seq<char>)
    ensures
        all_bad_type(seq![bad_type_warning(key, expected, got)]),
{
    reveal_strlit("config: `");
    let w = bad_type_warning(key, expected, got);
    assert(w[8] == "config: `"@[8]);
    assert(w == seq![bad_type_warning(key, expected, got)][0]);
}

proof fn lemma_all_bad_type_concat(a: Seq<Seq<char>>, b: Seq<Seq<char>>)
    requires
        all_bad_type(a),
        all_bad_type(b),
    ensures
        all_bad_type(a + b),
{
    assert forall|i: int| 0 <= i < (a + b).len() implies (#[trigger] (a + b)[i]).len() > 8 && (a + b)[i][8] == '`' by {
        if i < a.len() {
            assert((a + b)[i] == a[i]);
        } else {
            assert((a + b)[i] == b[i - a.len()]);
        }
    }
}

proof fn lemma_config_warnings_bad_type(d: ConfigDocumentModel)
    ensures
        all_bad_type(config_warnings(d)),
{
    let parts = seq![
        string_warnings("template"@, d.template),
        string_warnings("blocked_glyph"@, d.blocked_glyph),
        string_warnings("done_glyph"@, d.done_glyph),
        string_warnings("working_template"@, d.working_template),
        string_warnings("blocked_template"@, d.blocked_template),
        string_warnings("done_template"@, d.done_template),
        interval_warnings("spinner_interval_ms"@, d.spinner_interval_ms),
        interval_warnings("idle_keepalive_ms"@, d.idle_keepalive_ms),
        host_display_warnings(d.host_display),
        spinner_scope_warnings(d.spinner_scope),
    ];
    assert forall|j: int| 0 <= j < 10 implies all_bad_type(#[trigger] parts[j]) by {
        let part = parts[j];
        if part.len() > 0 {
            let key = if j == 0 { "template"@ } else if j == 1 { "blocked_glyph"@ } else if j == 2 { "done_glyph"@ }
                else if j == 3 { "working_template"@ } else if j == 4 { "blocked_template"@ } else if j == 5 { "done_template"@ }
                else if j == 6 { "spinner_interval_ms"@ } else if j == 7 { "idle_keepalive_ms"@ } else if j == 8 { "host_display"@ }
                else { "spinner_scope"@ };
            let item = if j == 0 { d.template } else if j == 1 { d.blocked_glyph } else if j == 2 { d.done_glyph }
                else if j == 3 { d.working_template } else if j == 4 { d.blocked_template } else if j == 5 { d.done_template }
                else if j == 6 { d.spinner_interval_ms } else if j == 7 { d.idle_keepalive_ms } else if j == 8 { d.host_display }
                else { d.spinner_scope };
            let expected = if j <= 5 { expect_string() } else if j <= 7 { expect_positive_integer() } else if j == 8 {
                expect_host_display() } else { expect_spinner_scope() };
            lemma_bad_type_marker(key, expected, item->Some_0.rendered);
        }
    }
    let q0 = parts[0];
    let q1 = q0 + parts[1];
    let q2 = q1 + parts[2];
    let q3 = q2 + parts[3];
    let q4 = q3 + parts[4];
    let q5 = q4 + parts[5];
    let q6 = q5 + parts[6];
    let q7 = q6 + parts[7];
    let q8 = q7 + parts[8];
    let q9 = q8 + parts[9];
    assert(all_bad_type(parts[0]));
    lemma_all_bad_type_concat(q0, parts[1]);
    lemma_all_bad_type_concat(q1, parts[2]);
    lemma_all_bad_type_concat(q2, parts[3]);
    lemma_all_bad_type_concat(q3, parts[4]);
    lemma_all_bad_type_concat(q4, parts[5]);
    lemma_all_bad_type_concat(q5, parts[6]);
    lemma_all_bad_type_concat(q6, parts[7]);
    lemma_all_bad_type_concat(q7, parts[8]);
    lemma_all_bad_type_concat(q8, parts[9]);
    assert(config_warnings(d) == q9);
}

/// Invalid TOML is reported exactly when a warning starts with
/// "config: invalid TOML, using defaults: "; the configuration is then
/// the default, and that warning is the only one.
pub proof fn lemma_invalid_toml_iff_warned(contents: Seq<char>)
    ensures
        toml_document(contents) is Err <==> exists|i: int|
            0 <= i < parsed_warnings(contents).len() && starts_with(
                #[trigger] parsed_warnings(contents)[i],
                invalid_toml_prefix(),
            ),
        toml_document(contents) is Err ==> parsed_config(contents) == default_config()
            && parsed_warnings(contents).len() == 1,
{
    reveal_strlit("config: invalid TOML, using defaults: ");
    match toml_document(contents) {
        Err(text) => {
            let w = invalid_toml_prefix() + text;
            assert(w.subrange(0, invalid_toml_prefix().len() as int) =~= invalid_toml_prefix());
            assert(starts_with(parsed_warnings(contents)[0], invalid_toml_prefix()));
        },
        Ok(entries) => {
            let ws = config_warnings(document_of(entries));
            lemma_config_warnings_bad_type(document_of(entries));
            assert forall|i: int| 0 <= i < ws.len() implies !starts_with(#[trigger] ws[i], invalid_toml_prefix()) by {
                let p = invalid_toml_prefix();
                if starts_with(ws[i], p) {
                    assert(ws[i].subrange(0, p.len() as int)[8] == ws[i][8]);
                    assert(p[8] == 'i');
                }
            }
        },
    }
}

/// The configuration keys.
#[derive(Debug, Clone, Copy, PartialEq, Eq, Structural)]
pub enum ConfigKey {
    Template,
    BlockedGlyph,
    DoneGlyph,
    WorkingTemplate,
    BlockedTemplate,
    DoneTemplate,
    SpinnerIntervalMs,
    IdleKeepaliveMs,
    HostDisplay,
    SpinnerScope,
}

pub open spec fn key_name(key: ConfigKey) -> Seq<char> {
    match key {
        ConfigKey::Template => "template"@,
        ConfigKey::BlockedGlyph => "blocked_glyph"@,
        ConfigKey::DoneGlyph => "done_glyph"@,
        ConfigKey::WorkingTemplate => "working_template"@,
        ConfigKey::BlockedTemplate => "blocked_template"@,
        ConfigKey::DoneTemplate => "done_template"@,
        ConfigKey::SpinnerIntervalMs => "spinner_interval_ms"@,
        ConfigKey::IdleKeepaliveMs => "idle_keepalive_ms"@,
        ConfigKey::HostDisplay => "host_display"@,
        ConfigKey::SpinnerScope => "spinner_scope"@,
    }
}

/// What a key's warning says it expects.
pub open spec fn key_expected(key: ConfigKey) -> Seq<char> {
    match key {
        ConfigKey::SpinnerIntervalMs | ConfigKey::IdleKeepaliveMs => expect_positive_integer(),
        ConfigKey::HostDisplay => expect_host_display(),
        ConfigKey::SpinnerScope => expect_spinner_scope(),
        _ => expect_string(),
    }
}

/// Whether `item` is a value that `key` accepts.
pub open spec fn key_accepts(key: ConfigKey, item: TomlItemModel) -> bool {
    match key {
        ConfigKey::SpinnerIntervalMs | ConfigKey::IdleKeepaliveMs => item.kind matches TomlKindModel::Integer(v)
            && v > 0,
        ConfigKey::HostDisplay => item.kind matches TomlKindModel::String(s) && host_display_named(s) is Some,
        ConfigKey::SpinnerScope => item.kind matches TomlKindModel::String(s) && spinner_scope_named(s) is Some,
        _ => item.kind is String,
    }
}

/// The setting of `key` in `config` is the default one.
pub open spec fn key_is_default(config: ConfigModel, key: ConfigKey) -> bool {
    let d = default_config();
    match key {
        ConfigKey::Template => config.template == d.template,
        ConfigKey::BlockedGlyph => config.blocked_glyph == d.blocked_glyph,
        ConfigKey::DoneGlyph => config.done_glyph == d.done_glyph,
        ConfigKey::WorkingTemplate => config.working_template == d.working_template,
        ConfigKey::BlockedTemplate => config.blocked_template == d.blocked_template,
        ConfigKey::DoneTemplate => config.done_template == d.done_template,
        ConfigKey::SpinnerIntervalMs => config.spinner_interval_ms == d.spinner_interval_ms,
        ConfigKey::IdleKeepaliveMs => config.idle_keepalive_ms == d.idle_keepalive_ms,
        ConfigKey::HostDisplay => config.host_display == d.host_display,
        ConfigKey::SpinnerScope => config.spinner_scope == d.spinner_scope,
    }
}

proof fn lemma_key_names(key: ConfigKey)
    ensures
        key_name(key).len() == match key {
            ConfigKey::Template => 8nat,
            ConfigKey::BlockedGlyph => 13nat,
            ConfigKey::DoneGlyph => 10nat,
            ConfigKey::WorkingTemplate => 16nat,
            ConfigKey::BlockedTemplate => 16nat,
            ConfigKey::DoneTemplate => 13nat,
            ConfigKey::SpinnerIntervalMs => 19nat,
            ConfigKey::IdleKeepaliveMs => 17nat,
            ConfigKey::HostDisplay => 12nat,
            ConfigKey::SpinnerScope => 13nat,
        },
        key_name(key)[0] == match key {
            ConfigKey::Template => 't',
            ConfigKey::BlockedGlyph => 'b',
            ConfigKey::DoneGlyph => 'd',
            ConfigKey::WorkingTemplate => 'w',
            ConfigKey::BlockedTemplate => 'b',
            ConfigKey::DoneTemplate => 'd',
            ConfigKey::SpinnerIntervalMs => 's',
            ConfigKey::IdleKeepaliveMs => 'i',
            ConfigKey::HostDisplay => 'h',
            ConfigKey::SpinnerScope => 's',
        },
{
    reveal_strlit("template");
    reveal_strlit("blocked_glyph");
    reveal_strlit("done_glyph");
    reveal_strlit("working_template");
    reveal_strlit("blocked_template");
    reveal_strlit("done_template");
    reveal_strlit("spinner_interval_ms");
    reveal_strlit("idle_keepalive_ms");
    reveal_strlit("host_display");
    reveal_strlit("spinner_scope");
}

/// Different keys have different names.
proof fn lemma_key_names_distinct(a: ConfigKey, b: ConfigKey)
    ensures
        a != b ==> key_name(a) != key_name(b),
{
    lemma_key_names(a);
    lemma_key_names(b);
    if a != b && key_name(a) == key_name(b) {
        assert(key_name(a)[0] == key_name(b)[0]);
    }
}

/// The item that a document holds under `key`.
pub open spec fn key_item(d: ConfigDocumentModel, key: ConfigKey) -> Option<TomlItemModel> {
    match key {
        ConfigKey::Template => d.template,
        ConfigKey::BlockedGlyph => d.blocked_glyph,
        ConfigKey::DoneGlyph => d.done_glyph,
        ConfigKey::WorkingTemplate => d.working_template,
        ConfigKey::BlockedTemplate => d.blocked_template,
        ConfigKey::DoneTemplate => d.done_template,
        ConfigKey::SpinnerIntervalMs => d.spinner_interval_ms,
        ConfigKey::IdleKeepaliveMs => d.idle_keepalive_ms,
        ConfigKey::HostDisplay => d.host_display,
        ConfigKey::SpinnerScope => d.spinner_scope,
    }
}

/// The document `d` without anything under `key`.
pub open spec fn clear_key(d: ConfigDocumentModel, key: ConfigKey) -> ConfigDocumentModel {
    match key {
        ConfigKey::Template => ConfigDocumentModel { template: None, ..d },
        ConfigKey::BlockedGlyph => ConfigDocumentModel { blocked_glyph: None, ..d },
        ConfigKey::DoneGlyph => ConfigDocumentModel { done_glyph: None, ..d },
        ConfigKey::WorkingTemplate => ConfigDocumentModel { working_template: None, ..d },
        ConfigKey::BlockedTemplate => ConfigDocumentModel { blocked_template: None, ..d },
        ConfigKey::DoneTemplate => ConfigDocumentModel { done_template: None, ..d },
        ConfigKey::SpinnerIntervalMs => ConfigDocumentModel { spinner_interval_ms: None, ..d },
        ConfigKey::IdleKeepaliveMs => ConfigDocumentModel { idle_keepalive_ms: None, ..d },
        ConfigKey::HostDisplay => ConfigDocumentModel { host_display: None, ..d },
        ConfigKey::SpinnerScope => ConfigDocumentModel { spinner_scope: None, ..d },
    }
}

proof fn lemma_remove_clears_key(entries: Map<Seq<char>, TomlItemModel>, key: ConfigKey)
    ensures
        document_of(entries.remove(key_name(key))) == clear_key(document_of(entries), key),
        key_item(document_of(entries), key) == entry(entries, key_name(key)),
{
    lemma_key_names_distinct(key, ConfigKey::Template);
    lemma_key_names_distinct(key, ConfigKey::BlockedGlyph);
    lemma_key_names_distinct(key, ConfigKey::DoneGlyph);
    lemma_key_names_distinct(key, ConfigKey::WorkingTemplate);
    lemma_key_names_distinct(key, ConfigKey::BlockedTemplate);
    lemma_key_names_distinct(key, ConfigKey::DoneTemplate);
    lemma_key_names_distinct(key, ConfigKey::SpinnerIntervalMs);
    lemma_key_names_distinct(key, ConfigKey::IdleKeepaliveMs);
    lemma_key_names_distinct(key, ConfigKey::HostDisplay);
    lemma_key_names_distinct(key, ConfigKey::SpinnerScope);
}

proof fn lemma_clear_invalid_key_config(d: ConfigDocumentModel, key: ConfigKey)
    requires
        key_item(d, key) matches Some(item) && !key_accepts(key, item),
    ensures
        config_of(d) == config_of(clear_key(d, key)),
        key_is_default(config_of(d), key),
{
}

/// The place of `key` in the order of the warnings.
spec fn key_index(key: ConfigKey) -> int {
    match key {
        ConfigKey::Template => 0,
        ConfigKey::BlockedGlyph => 1,
        ConfigKey::DoneGlyph => 2,
        ConfigKey::WorkingTemplate => 3,
        ConfigKey::BlockedTemplate => 4,
        ConfigKey::DoneTemplate => 5,
        ConfigKey::SpinnerIntervalMs => 6,
        ConfigKey::IdleKeepaliveMs => 7,
        ConfigKey::HostDisplay => 8,
        ConfigKey::SpinnerScope => 9,
    }
}

/// The warnings of the key in place `j`.
spec fn warning_part(d: ConfigDocumentModel, j: int) -> Seq<Seq<char>> {
    if j == 0 {
        string_warnings("template"@, d.template)
    } else if j == 1 {
        string_warnings("blocked_glyph"@, d.blocked_glyph)
    } else if j == 2 {
        string_warnings("done_glyph"@, d.done_glyph)
    } else if j == 3 {
        string_warnings("working_template"@, d.working_template)
    } else if j == 4 {
        string_warnings("blocked_template"@, d.blocked_template)
    } else if j == 5 {
        string_warnings("done_template"@, d.done_template)
    } else if j == 6 {
        interval_warnings("spinner_interval_ms"@, d.spinner_interval_ms)
    } else if j == 7 {
        interval_warnings("idle_keepalive_ms"@, d.idle_keepalive_ms)
    } else if j == 8 {
        host_display_warnings(d.host_display)
    } else {
        spinner_scope_warnings(d.spinner_scope)
    }
}

/// The warnings of the keys in places before `j`.
spec fn warnings_before(d: ConfigDocumentModel, j: int) -> Seq<Seq<char>>
    decreases j,
{
    if j <= 0 {
        Seq::empty()
    } else {
        warnings_before(d, j - 1) + warning_part(d, j - 1)
    }
}

/// The warnings of the keys in places from `j` on.
spec fn warnings_from(d: ConfigDocumentModel, j: int) -> Seq<Seq<char>>
    decreases 10 - j,
{
    if j >= 10 {
        Seq::empty()
    } else {
        warning_part(d, j) + warnings_from(d, j + 1)
    }
}

proof fn lemma_warnings_all_before(d: ConfigDocumentModel)
    ensures
        config_warnings(d) == warnings_before(d, 10),
{
    reveal_with_fuel(warnings_before, 11);
    assert(Seq::<Seq<char>>::empty() + warning_part(d, 0) =~= warning_part(d, 0));
}

proof fn lemma_warnings_split_at(d: ConfigDocumentModel, j: int)
    requires
        0 <= j <= 10,
    ensures
        warnings_before(d, j) + warnings_from(d, j) == warnings_before(d, 10),
    decreases 10 - j,
{
    if j < 10 {
        lemma_warnings_split_at(d, j + 1);
        lemma_concat_associative(warnings_before(d, j), warning_part(d, j), warnings_from(d, j + 1));
    } else {
        assert(warnings_before(d, j) + warnings_from(d, j) =~= warnings_before(d, 10));
    }
}

proof fn lemma_clear_keeps_parts(d: ConfigDocumentModel, key: ConfigKey, j: int)
    requires
        0 <= j < 10,
    ensures
        warning_part(clear_key(d, key), j) == if j == key_index(key) {
            Seq::<Seq<char>>::empty()
        } else {
            warning_part(d, j)
        },
{
}

proof fn lemma_clear_keeps_before(d: ConfigDocumentModel, key: ConfigKey, j: int)
    requires
        j <= key_index(key),
    ensures
        warnings_before(clear_key(d, key), j) == warnings_before(d, j),
    decreases j,
{
    if j > 0 {
        lemma_clear_keeps_before(d, key, j - 1);
        lemma_clear_keeps_parts(d, key, j - 1);
    }
}

proof fn lemma_clear_keeps_from(d: ConfigDocumentModel, key: ConfigKey, j: int)
    requires
        j > key_index(key),
    ensures
        warnings_from(clear_key(d, key), j) == warnings_from(d, j),
    decreases 10 - j,
{
    if j < 10 {
        lemma_clear_keeps_from(d, key, j + 1);
        lemma_clear_keeps_parts(d, key, j);
    }
}

proof fn lemma_key_part(d: ConfigDocumentModel, key: ConfigKey)
    requires
        key_item(d, key) is Some && !key_accepts(key, key_item(d, key)->Some_0),
    ensures
        warning_part(d, key_index(key)) == seq![
            bad_type_warning(key_name(key), key_expected(key), key_item(d, key)->Some_0.rendered),
        ],
{
}

proof fn lemma_clear_invalid_key(d: ConfigDocumentModel, key: ConfigKey)
    requires
        key_item(d, key) matches Some(item) && !key_accepts(key, item),
    ensures
        config_of(d) == config_of(clear_key(d, key)),
        key_is_default(config_of(d), key),
        exists|before: Seq<Seq<char>>, after: Seq<Seq<char>>|
            config_warnings(d) == before + seq![
                bad_type_warning(key_name(key), key_expected(key), key_item(d, key)->Some_0.rendered),
            ] + after && config_warnings(clear_key(d, key)) == before + after,
{
    let e = clear_key(d, key);
    let k = key_index(key);
    lemma_clear_invalid_key_config(d, key);
    lemma_warnings_all_before(d);
    lemma_warnings_all_before(e);
    lemma_warnings_split_at(d, k);
    lemma_warnings_split_at(e, k);
    lemma_clear_keeps_before(d, key, k);
    lemma_clear_keeps_from(d, key, k + 1);
    lemma_clear_keeps_parts(d, key, k);
    lemma_key_part(d, key);
    let before = warnings_before(d, k);
    let after = warnings_from(d, k + 1);
    let w = warning_part(d, k);
    assert(warnings_from(e, k) =~= after);
    lemma_concat_associative(before, w, after);
}

/// An invalid value under a key changes nothing but its own warning:
/// compared with a document whose table is the same without that key, the
/// configuration is the same (so the key keeps its default setting), and
/// the warnings are the same with exactly one more, the key's bad-value
/// warning, in the key's place.
pub proof fn lemma_invalid_key_adds_one_warning(contents: Seq<char>, without_key: Seq<char>, key: ConfigKey)
    requires
        toml_document(contents) is Ok,
        key_invalid(toml_document(contents)->Ok_0, key),
        toml_document(without_key) == Ok::<_, Seq<char>>(toml_document(contents)->Ok_0.remove(key_name(key))),
    ensures
        parsed_config(contents) == parsed_config(without_key),
        key_is_default(parsed_config(contents), key),
        exists|before: Seq<Seq<char>>, after: Seq<Seq<char>>|
            parsed_warnings(contents) == before + seq![
                bad_type_warning(
                    key_name(key),
                    key_expected(key),
                    toml_document(contents)->Ok_0[key_name(key)].rendered,
                ),
            ] + after && parsed_warnings(without_key) == before + after,
{
    let entries = toml_document(contents)->Ok_0;
    lemma_remove_clears_key(entries, key);
    lemma_clear_invalid_key(document_of(entries), key);
}

/// Whether `entries` hold an invalid value under `key`.
pub open spec fn key_invalid(entries: Map<Seq<char>, TomlItemModel>, key: ConfigKey) -> bool {
    entries.contains_key(key_name(key)) && !key_accepts(key, entries[key_name(key)])
}

/// The configuration of a parsed TOML table, key by key: a string for
/// `template` and the glyphs; a non-empty string for each state template
/// (the empty string leaves it unset); a positive integer for each
/// interval; one of the named choices for `host_display` and
/// `spinner_scope`. Anything else, or a missing key, gives the default;
/// other keys are ignored. There is one warning per key holding an
/// invalid value, and each such key's warning is among them.
pub proof fn lemma_config_reads_keys(contents: Seq<char>)
    requires
        toml_document(contents) is Ok,
    ensures
        ({
            let entries = toml_document(contents)->Ok_0;
            let c = parsed_config(contents);
            let d = default_config();
            &&& c.template == string_setting(entry(entries, "template"@), d.template)
            &&& c.blocked_glyph == string_setting(entry(entries, "blocked_glyph"@), d.blocked_glyph)
            &&& c.done_glyph == string_setting(entry(entries, "done_glyph"@), d.done_glyph)
            &&& c.working_template == optional_setting(entry(entries, "working_template"@))
            &&& c.blocked_template == optional_setting(entry(entries, "blocked_template"@))
            &&& c.done_template == optional_setting(entry(entries, "done_template"@))
            &&& c.spinner_interval_ms == interval_setting(entry(entries, "spinner_interval_ms"@), d.spinner_interval_ms)
            &&& c.idle_keepalive_ms == interval_setting(entry(entries, "idle_keepalive_ms"@), d.idle_keepalive_ms)
            &&& c.host_display == host_display_setting(entry(entries, "host_display"@))
            &&& c.spinner_scope == spinner_scope_setting(entry(entries, "spinner_scope"@))
            &&& parsed_warnings(contents).len() == count(key_invalid(entries, ConfigKey::Template)) + count(
                key_invalid(entries, ConfigKey::BlockedGlyph),
            ) + count(key_invalid(entries, ConfigKey::DoneGlyph)) + count(
                key_invalid(entries, ConfigKey::WorkingTemplate),
            ) + count(key_invalid(entries, ConfigKey::BlockedTemplate)) + count(
                key_invalid(entries, ConfigKey::DoneTemplate),
            ) + count(key_invalid(entries, ConfigKey::SpinnerIntervalMs)) + count(
                key_invalid(entries, ConfigKey::IdleKeepaliveMs),
            ) + count(key_invalid(entries, ConfigKey::HostDisplay)) + count(
                key_invalid(entries, ConfigKey::SpinnerScope),
            )
            &&& forall|key: ConfigKey| #[trigger] key_invalid(entries, key) ==> parsed_warnings(contents).contains(
                bad_type_warning(key_name(key), key_expected(key), entries[key_name(key)].rendered),
            )
        }),
{
    let entries = toml_document(contents)->Ok_0;
    let d = document_of(entries);
    lemma_invalid_values_fall_back(d);
    assert forall|key: ConfigKey| #[trigger] key_invalid(entries, key) implies parsed_warnings(contents).contains(
        bad_type_warning(key_name(key), key_expected(key), entries[key_name(key)].rendered),
    ) by {
        let w = bad_type_warning(key_name(key), key_expected(key), entries[key_name(key)].rendered);
        lemma_remove_clears_key(entries, key);
        lemma_clear_invalid_key(d, key);
        let (before, after) = choose|before: Seq<Seq<char>>, after: Seq<Seq<char>>|
            config_warnings(d) == before + seq![w] + after && config_warnings(clear_key(d, key)) == before + after;
        assert(config_warnings(d)[before.len() as int] == w);
    }
}

} // verus!
