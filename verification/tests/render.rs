//! The template engine: parsing, rendering, optional sections, escapes.

use herdr_window_title::template::{parse_with_fallback, Template, TokenValues};

fn values() -> TokenValues {
    TokenValues {
        indicator: "●2 ".into(),
        session: "personal".into(),
        workspace: "dotfiles".into(),
        tab: "2".into(),
        agent: "aider".into(),
        title: "fix titles".into(),
        host: "mbp".into(),
    }
}

fn render(source: &str, values: &TokenValues) -> String {
    Template::parse(source).expect("valid template").render(values)
}

#[test]
fn substitutes_every_token() {
    let template =
        Template::parse("{indicator}herdr:{session} {workspace}/{tab} {agent}:{title}@{host}")
            .expect("valid template");
    assert_eq!(
        template.render(&values()),
        "●2 herdr:personal dotfiles/2 aider:fix titles@mbp"
    );
}

#[test]
fn optional_sections_vanish_when_their_tokens_are_empty() {
    let mut v = values();
    v.host = String::new();
    assert_eq!(render("herdr:{session}[ ({host})]", &v), "herdr:personal");
    assert_eq!(render("herdr:{session}[ ({host})]", &values()), "herdr:personal (mbp)");
    // A section with one non-empty token shows, empty neighbours included.
    assert_eq!(render("[{host}-{workspace}]", &v), "-dotfiles");
    // A section without known tokens always shows.
    assert_eq!(render("a[b]c", &v), "abc");
    // A nested section that vanishes does not make its parent vanish.
    assert_eq!(render("[x[{host}]]", &v), "x");
}

#[test]
fn default_template_collapses_when_idle_and_local() {
    let mut v = values();
    v.indicator = String::new();
    v.host = String::new();
    assert_eq!(render("{indicator}herdr:{session}[ ({host})]", &v), "herdr:personal");
}

#[test]
fn unknown_tokens_render_literally_and_are_reported() {
    let template = Template::parse("{sesion}:{session}[{nope}]").expect("valid template");
    assert_eq!(template.render(&values()), "{sesion}:personal{nope}");
    assert_eq!(template.unknown_tokens(), vec!["sesion", "nope"]);
}

#[test]
fn escapes_make_markup_literal() {
    assert_eq!(render(r"\[a\] \{b\} \\", &values()), r"[a] {b} \");
    // A trailing backslash is literal.
    assert_eq!(render(r"x\", &values()), r"x\");
    // A closing bracket outside a section is plain text.
    assert_eq!(render("a]b}", &values()), "a]b}");
}

#[test]
fn syntax_errors_are_reported() {
    let error = Template::parse("herdr:{session").expect_err("unclosed brace");
    assert_eq!(error.message, "unclosed '{' before end of template: {session");
    let error = Template::parse("herdr[ {host}").expect_err("unclosed bracket");
    assert_eq!(error.message, "unclosed '[' before end of template");
}

#[test]
fn broken_templates_fall_back_to_the_default_with_a_warning() {
    let (template, warnings) = parse_with_fallback("{session", "{session}!");
    assert_eq!(template.render(&values()), "personal!");
    assert_eq!(
        warnings,
        vec!["template: unclosed '{' before end of template: {session; using the default template".to_string()]
    );
}

#[test]
fn unknown_tokens_earn_warnings() {
    let (template, warnings) = parse_with_fallback("{x}{session}", "{session}");
    assert_eq!(template.render(&values()), "{x}personal");
    assert_eq!(
        warnings,
        vec!["template: unknown token {x} renders literally (known: indicator, session, workspace, tab, agent, title, host)".to_string()]
    );
}

#[test]
fn the_first_unclosed_place_decides_the_error() {
    let error = Template::parse("[{session").expect_err("unclosed brace inside a section");
    assert_eq!(error.message, "unclosed '{' before end of template: {session");
    let error = Template::parse("[[a]{b}").expect_err("outer section left open");
    assert_eq!(error.message, "unclosed '[' before end of template");
    let error = Template::parse(r"\[{x").expect_err("escaped bracket, open brace");
    assert_eq!(error.message, "unclosed '{' before end of template: {x");
    assert!(Template::parse(r"a\[b]").is_ok());
    assert!(Template::parse("{[}]").is_ok());
}

#[test]
fn a_parsing_source_never_touches_the_default() {
    let (template, warnings) = parse_with_fallback("[{host}] {session}", "{broken");
    assert_eq!(template.render(&values()), "mbp personal");
    assert!(warnings.is_empty());
}
