//! Title template engine: `{token}` substitution with optional `[ ... ]`
//! sections that vanish when every token inside renders empty.

use vstd::prelude::*;

use crate::text::{chars_of, push_char, str_eq};

verus! {

/// One parsed piece of a template.
#[derive(Debug)]
pub enum Segment {
    Literal(String),
    Token(String),
    /// `[ ... ]`: vanishes entirely when every token inside renders empty.
    Section(Vec<Segment>),
}

/// The mathematical model of a [`Segment`].
pub enum SegmentModel {
    Literal(Seq<char>),
    Token(Seq<char>),
    Section(Seq<SegmentModel>),
}

impl Segment {
    pub open spec fn model(self) -> SegmentModel
        decreases self,
    {
        match self {
            Segment::Literal(text) => SegmentModel::Literal(text@),
            Segment::Token(name) => SegmentModel::Token(name@),
            Segment::Section(inner) => SegmentModel::Section(models_of(inner@)),
        }
    }
}

/// The models of a sequence of segments, element by element.
pub open spec fn models_of(segments: Seq<Segment>) -> Seq<SegmentModel>
    decreases segments,
{
    if segments.len() == 0 {
        Seq::empty()
    } else {
        seq![segments[0].model()] + models_of(segments.subrange(1, segments.len() as int))
    }
}

/// The message of a template with a `[` that is never closed.
pub open spec fn unclosed_section_message() -> Seq<char> {
    "unclosed '[' before end of template"@
}

/// The message of a template with a `{` that is never closed; `name` is
/// everything after that `{`.
pub open spec fn unclosed_token_message(name: Seq<char>) -> Seq<char> {
    "unclosed '{' before end of template: {"@ + name
}

/// The position of the first `}` in `s`, if there is one.
pub open spec fn first_close_brace(s: Seq<char>) -> Option<int>
    decreases s.len(),
{
    if s.len() == 0 {
        None
    } else if s[0] == '}' {
        Some(0)
    } else {
        match first_close_brace(s.subrange(1, s.len() as int)) {
            Some(k) => Some(k + 1),
            None => None,
        }
    }
}

/// A `}` found by [`first_close_brace`] lies inside `s`, and none comes
/// before it.
pub proof fn lemma_first_close_brace_in_bounds(s: Seq<char>)
    ensures
        first_close_brace(s) matches Some(k) ==> 0 <= k < s.len() && s[k] == '}'
            && forall|j: int| 0 <= j < k ==> s[j] != '}',
        first_close_brace(s) is None ==> forall|j: int| 0 <= j < s.len() ==> s[j] != '}',
    decreases s.len(),
{
    if s.len() > 0 {
        let t = s.subrange(1, s.len() as int);
        lemma_first_close_brace_in_bounds(t);
        assert forall|j: int| 1 <= j < s.len() implies s[j] == t[j - 1] by {}
    }
}

/// `acc` with the pending literal text appended, when there is any.
pub open spec fn flush(acc: Seq<SegmentModel>, literal: Seq<char>) -> Seq<SegmentModel> {
    if literal.len() == 0 {
        acc
    } else {
        acc.push(SegmentModel::Literal(literal))
    }
}

/// The template grammar, read left to right. `literal` is the literal text
/// read since the last token or section, `acc` the segments finished so far.
/// Inside a section (`in_section`) a `]` ends the segment list, and the
/// input after it is handed back; at the top level `]` is plain text.
/// `\` escapes the next character (a trailing `\` is literal), `{name}` is
/// a token whose name runs to the first `}`, and `[` opens a section.
pub open spec fn scan(s: Seq<char>, in_section: bool, literal: Seq<char>, acc: Seq<SegmentModel>)
    -> Result<(Seq<SegmentModel>, Seq<char>), Seq<char>>
    decreases s.len(),
{
    if s.len() == 0 {
        if in_section {
            Err(unclosed_section_message())
        } else {
            Ok((flush(acc, literal), s))
        }
    } else {
        let c = s[0];
        let rest = s.subrange(1, s.len() as int);
        if c == '\\' {
            if rest.len() == 0 {
                scan(rest, in_section, literal.push('\\'), acc)
            } else {
                scan(rest.subrange(1, rest.len() as int), in_section, literal.push(rest[0]), acc)
            }
        } else if c == '{' {
            match first_close_brace(rest) {
                None => Err(unclosed_token_message(rest)),
                Some(k) => {
                    proof {
                        lemma_first_close_brace_in_bounds(rest);
                    }
                    scan(
                    rest.subrange(k + 1, rest.len() as int),
                    in_section,
                    Seq::empty(),
                    flush(acc, literal).push(SegmentModel::Token(rest.subrange(0, k))),
                    )
                },
            }
        } else if c == '[' {
            match scan(rest, true, Seq::empty(), Seq::empty()) {
                Err(e) => Err(e),
                Ok((inner, after)) => if after.len() < s.len() {
                    scan(
                        after,
                        in_section,
                        Seq::empty(),
                        flush(acc, literal).push(SegmentModel::Section(inner)),
                    )
                } else {
                    Err(Seq::empty())
                },
            }
        } else if c == ']' && in_section {
            Ok((flush(acc, literal), rest))
        } else {
            scan(rest, in_section, literal.push(c), acc)
        }
    }
}

/// What a template source parses to: its segments, or the error message.
pub open spec fn parse_model(source: Seq<char>) -> Result<Seq<SegmentModel>, Seq<char>> {
    match scan(source, false, Seq::empty(), Seq::empty()) {
        Ok((segments, _)) => Ok(segments),
        Err(message) => Err(message),
    }
}

pub proof fn lemma_models_of(segments: Seq<Segment>)
    ensures
        models_of(segments).len() == segments.len(),
        forall|i: int| 0 <= i < segments.len() ==> #[trigger] models_of(segments)[i] == segments[i].model(),
    decreases segments.len(),
{
    if segments.len() > 0 {
        lemma_models_of(segments.subrange(1, segments.len() as int));
    }
}

proof fn lemma_models_of_push(segments: Seq<Segment>, s: Segment)
    ensures
        models_of(segments.push(s)) == models_of(segments).push(s.model()),
{
    lemma_models_of(segments);
    lemma_models_of(segments.push(s));
    assert(models_of(segments.push(s)) =~= models_of(segments).push(s.model()));
}

proof fn lemma_first_close_brace(s: Seq<char>, n: int)
    requires
        0 <= n <= s.len(),
        forall|j: int| 0 <= j < n ==> s[j] != '}',
        n < s.len() ==> s[n] == '}',
    ensures
        first_close_brace(s) == (if n == s.len() { None } else { Some(n) }),
    decreases n,
{
    if n > 0 {
        lemma_first_close_brace(s.subrange(1, s.len() as int), n - 1);
    }
}

/// Syntax errors in a template source.
#[derive(Debug, PartialEq, Eq)]
pub struct ParseError {
    pub message: String,
}

/// A literal run ends: it becomes a segment of its own when non-empty.
fn flush_literal(literal: &mut String, segments: &mut Vec<Segment>)
    ensures
        final(literal)@ == Seq::<char>::empty(),
        models_of(final(segments)@) == flush(models_of(old(segments)@), old(literal)@),
{
    if !literal.as_str().is_empty() {
        proof {
            lemma_models_of_push(segments@, Segment::Literal(*literal));
        }
        let mut done = String::new();
        std::mem::swap(&mut done, literal);
        segments.push(Segment::Literal(done));
    }
}

proof fn lemma_skip_step(s: Seq<char>, pos: int)
    requires
        0 <= pos < s.len(),
    ensures
        s.skip(pos).len() > 0,
        s.skip(pos)[0] == s[pos],
        s.skip(pos).subrange(1, s.skip(pos).len() as int) == s.skip(pos + 1),
{
    assert(s.skip(pos).subrange(1, s.skip(pos).len() as int) =~= s.skip(pos + 1));
}

/// Parses `chars` from `pos` on; inside a section it stops after the `]`
/// that closes it and reports where the input continues.
fn parse_segments(chars: &Vec<char>, from: usize, in_section: bool) -> (r: Result<(Vec<Segment>, usize), ParseError>)
    requires
        from <= chars.len(),
    ensures
        match scan(chars@.skip(from as int), in_section, Seq::empty(), Seq::empty()) {
            Ok((model, rest)) => r matches Ok((segments, end)) && models_of(segments@) == model
                && from <= end <= chars.len() && chars@.skip(end as int) == rest,
            Err(message) => r matches Err(e) && e.message@ == message,
        },
    decreases chars.len() - from,
{
    let mut pos = from;
    let mut literal = String::new();
    let mut segments: Vec<Segment> = Vec::new();
    assert(models_of(segments@) =~= Seq::<SegmentModel>::empty());
    while pos < chars.len()
        invariant
            from <= pos <= chars.len(),
            scan(chars@.skip(from as int), in_section, Seq::empty(), Seq::empty())
                == scan(chars@.skip(pos as int), in_section, literal@, models_of(segments@)),
        decreases chars.len() - pos,
    {
        let ghost s = chars@.skip(pos as int);
        proof {
            lemma_skip_step(chars@, pos as int);
        }
        let c = chars[pos];
        if c == '\\' {
            if pos + 1 < chars.len() {
                proof {
                    lemma_skip_step(chars@, pos + 1);
                }
                push_char(&mut literal, chars[pos + 1]);
                pos = pos + 2;
            } else {
                push_char(&mut literal, '\\');
                pos = pos + 1;
            }
        } else if c == '{' {
            let mut name = String::new();
            let mut j = pos + 1;
            while j < chars.len() && chars[j] != '}'
                invariant
                    pos < j <= chars.len(),
                    name@ == chars@.subrange(pos + 1, j as int),
                    forall|k: int| pos < k < j ==> chars@[k] != '}',
                decreases chars.len() - j,
            {
                push_char(&mut name, chars[j]);
                assert(chars@.subrange(pos + 1, j + 1) =~= chars@.subrange(pos + 1, j as int).push(chars@[j as int]));
                j = j + 1;
            }
            let ghost rest = chars@.skip(pos + 1);
            proof {
                lemma_first_close_brace(rest, j - pos - 1);
                assert(rest.subrange(0, j - pos - 1) =~= name@);
            }
            if j == chars.len() {
                assert(rest =~= name@);
                let mut message = String::from_str("unclosed '{' before end of template: {");
                message.append(name.as_str());
                return Err(ParseError { message });
            }
            flush_literal(&mut literal, &mut segments);
            proof {
                lemma_models_of_push(segments@, Segment::Token(name));
                assert(rest.subrange(j - pos, rest.len() as int) =~= chars@.skip(j + 1));
            }
            segments.push(Segment::Token(name));
            pos = j + 1;
        } else if c == '[' {
            match parse_segments(chars, pos + 1, true) {
                Err(e) => {
                    return Err(e);
                },
                Ok((inner, end)) => {
                    flush_literal(&mut literal, &mut segments);
                    proof {
                        lemma_models_of_push(segments@, Segment::Section(inner));
                    }
                    segments.push(Segment::Section(inner));
                    pos = end;
                },
            }
        } else if c == ']' && in_section {
            flush_literal(&mut literal, &mut segments);
            return Ok((segments, pos + 1));
        } else {
            push_char(&mut literal, c);
            pos = pos + 1;
        }
    }
    assert(chars@.skip(pos as int) =~= Seq::<char>::empty());
    if in_section {
        return Err(ParseError { message: String::from_str("unclosed '[' before end of template") });
    }
    flush_literal(&mut literal, &mut segments);
    Ok((segments, pos))
}


/// The values that template tokens stand for.
#[derive(Debug, Default, Clone)]
pub struct TokenValues {
    pub indicator: String,
    pub session: String,
    pub workspace: String,
    pub tab: String,
    pub agent: String,
    pub title: String,
    pub host: String,
}

/// The mathematical model of [`TokenValues`].
#[verifier::ext_equal]
pub struct TokenValuesModel {
    pub indicator: Seq<char>,
    pub session: Seq<char>,
    pub workspace: Seq<char>,
    pub tab: Seq<char>,
    pub agent: Seq<char>,
    pub title: Seq<char>,
    pub host: Seq<char>,
}

impl View for TokenValues {
    type V = TokenValuesModel;

    open spec fn view(&self) -> TokenValuesModel {
        TokenValuesModel {
            indicator: self.indicator@,
            session: self.session@,
            workspace: self.workspace@,
            tab: self.tab@,
            agent: self.agent@,
            title: self.title@,
            host: self.host@,
        }
    }
}

/// The token names that have values; any other `{name}` renders literally.
pub const KNOWN_TOKENS: [&'static str; 7] = ["indicator", "session", "workspace", "tab", "agent", "title", "host"];

/// Whether `name` is one of [`KNOWN_TOKENS`].
pub open spec fn is_known_token(name: Seq<char>) -> bool {
    ||| name == "indicator"@
    ||| name == "session"@
    ||| name == "workspace"@
    ||| name == "tab"@
    ||| name == "agent"@
    ||| name == "title"@
    ||| name == "host"@
}

/// The value a token name stands for, if it is a known token.
pub open spec fn token_value(values: TokenValuesModel, name: Seq<char>) -> Option<Seq<char>> {
    if name == "indicator"@ {
        Some(values.indicator)
    } else if name == "session"@ {
        Some(values.session)
    } else if name == "workspace"@ {
        Some(values.workspace)
    } else if name == "tab"@ {
        Some(values.tab)
    } else if name == "agent"@ {
        Some(values.agent)
    } else if name == "title"@ {
        Some(values.title)
    } else if name == "host"@ {
        Some(values.host)
    } else {
        None
    }
}

impl TokenValues {
    fn get(&self, name: &str) -> (r: Option<&str>)
        ensures
            r is Some <==> token_value(self@, name@) is Some,
            r matches Some(v) ==> token_value(self@, name@) == Some(v@),
    {
        if str_eq(name, "indicator") {
            Some(self.indicator.as_str())
        } else if str_eq(name, "session") {
            Some(self.session.as_str())
        } else if str_eq(name, "workspace") {
            Some(self.workspace.as_str())
        } else if str_eq(name, "tab") {
            Some(self.tab.as_str())
        } else if str_eq(name, "agent") {
            Some(self.agent.as_str())
        } else if str_eq(name, "title") {
            Some(self.title.as_str())
        } else if str_eq(name, "host") {
            Some(self.host.as_str())
        } else {
            None
        }
    }
}

/// What rendering a segment list produces: the text, whether a known token
/// occurred in it, and whether one of them had a non-empty value.
#[verifier::ext_equal]
pub struct RenderModel {
    pub text: Seq<char>,
    pub saw_token: bool,
    pub saw_token_value: bool,
}

/// Renders `segments` left to right.
pub open spec fn render_model(segments: Seq<SegmentModel>, values: TokenValuesModel) -> RenderModel
    decreases segments,
{
    if segments.len() == 0 {
        RenderModel { text: Seq::empty(), saw_token: false, saw_token_value: false }
    } else {
        render_step(
            render_model(segments.subrange(0, segments.len() - 1), values),
            segments[segments.len() - 1],
            values,
        )
    }
}

/// Renders one more segment after what `before` rendered. A known token
/// adds its value, an unknown one renders as `{name}`, and a section adds
/// its own rendering unless it held a known token and all of them were empty.
pub open spec fn render_step(before: RenderModel, segment: SegmentModel, values: TokenValuesModel) -> RenderModel
    decreases segment,
{
    match segment {
        SegmentModel::Literal(text) => RenderModel { text: before.text + text, ..before },
        SegmentModel::Token(name) => match token_value(values, name) {
            Some(value) => RenderModel {
                text: before.text + value,
                saw_token: true,
                saw_token_value: before.saw_token_value || value.len() > 0,
            },
            None => RenderModel { text: before.text + seq!['{'] + name + seq!['}'], ..before },
        },
        SegmentModel::Section(inner) => {
            let rendered = render_model(inner, values);
            if rendered.saw_token && !rendered.saw_token_value {
                before
            } else {
                RenderModel {
                    text: before.text + rendered.text,
                    saw_token: before.saw_token || rendered.saw_token,
                    saw_token_value: before.saw_token_value || rendered.saw_token_value,
                }
            }
        },
    }
}

struct Rendered {
    text: String,
    saw_token: bool,
    saw_token_value: bool,
}

impl Rendered {
    spec fn model(self) -> RenderModel {
        RenderModel { text: self.text@, saw_token: self.saw_token, saw_token_value: self.saw_token_value }
    }
}

fn render_segments(segments: &Vec<Segment>, values: &TokenValues) -> (r: Rendered)
    ensures
        r.model() == render_model(models_of(segments@), values@),
    decreases models_of(segments@),
{
    let mut out = Rendered { text: String::new(), saw_token: false, saw_token_value: false };
    let ghost all = models_of(segments@);
    proof {
        lemma_models_of(segments@);
        assert(all.subrange(0, 0) =~= Seq::<SegmentModel>::empty());
    }
    let mut i: usize = 0;
    while i < segments.len()
        invariant
            i <= segments.len(),
            all == models_of(segments@),
            all.len() == segments.len(),
            forall|k: int| 0 <= k < segments.len() ==> #[trigger] all[k] == segments@[k].model(),
            out.model() == render_model(all.subrange(0, i as int), values@),
        decreases segments.len() - i,
    {
        let ghost before = out.model();
        proof {
            assert(all.subrange(0, i + 1).subrange(0, i as int) =~= all.subrange(0, i as int));
        }
        match &segments[i] {
            Segment::Literal(text) => {
                out.text.append(text.as_str());
            },
            Segment::Token(name) => match values.get(name.as_str()) {
                Some(value) => {
                    out.saw_token = true;
                    if !value.is_empty() {
                        out.saw_token_value = true;
                    }
                    out.text.append(value);
                },
                None => {
                    push_char(&mut out.text, '{');
                    out.text.append(name.as_str());
                    push_char(&mut out.text, '}');
                },
            },
            Segment::Section(inner) => {
                proof {
                    assert(all[i as int] == SegmentModel::Section(models_of(inner@)));
                    assert(decreases_to!(all => all[i as int]));
                    assert(decreases_to!(all[i as int] => all[i as int]->Section_0));
                    assert(decreases_to!(all => models_of(inner@)));
                }
                let rendered = render_segments(inner, values);
                let vanish = rendered.saw_token && !rendered.saw_token_value;
                if !vanish {
                    out.saw_token = out.saw_token || rendered.saw_token;
                    out.saw_token_value = out.saw_token_value || rendered.saw_token_value;
                    out.text.append(rendered.text.as_str());
                }
            },
        }
        proof {
            reveal_with_fuel(render_step, 1);
            assert(out.model() =~= render_step(before, all[i as int], values@));
        }
        i += 1;
    }
    proof {
        assert(all.subrange(0, i as int) =~= all);
    }
    out
}


/// A parsed title template.
#[derive(Debug)]
pub struct Template {
    segments: Vec<Segment>,
}

impl View for Template {
    type V = Seq<SegmentModel>;

    closed spec fn view(&self) -> Seq<SegmentModel> {
        models_of(self.segments@)
    }
}

/// The token names in `segments` that have no value, in the order they
/// occur, sections included.
pub open spec fn unknown_tokens_model(segments: Seq<SegmentModel>) -> Seq<Seq<char>>
    decreases segments,
{
    if segments.len() == 0 {
        Seq::empty()
    } else {
        unknown_tokens_model(segments.subrange(0, segments.len() - 1)) + unknown_tokens_of(
            segments[segments.len() - 1],
        )
    }
}

pub open spec fn unknown_tokens_of(segment: SegmentModel) -> Seq<Seq<char>>
    decreases segment,
{
    match segment {
        SegmentModel::Literal(_) => Seq::empty(),
        SegmentModel::Token(name) => if is_known_token(name) {
            Seq::empty()
        } else {
            seq![name]
        },
        SegmentModel::Section(inner) => unknown_tokens_model(inner),
    }
}

fn is_known(name: &str) -> (r: bool)
    ensures
        r == is_known_token(name@),
{
    str_eq(name, "indicator") || str_eq(name, "session") || str_eq(name, "workspace") || str_eq(
        name,
        "tab",
    ) || str_eq(name, "agent") || str_eq(name, "title") || str_eq(name, "host")
}

fn collect_unknown<'t>(segments: &'t Vec<Segment>, out: &mut Vec<&'t str>)
    ensures
        final(out)@.map_values(|name: &str| name@) == old(out)@.map_values(|name: &str| name@)
            + unknown_tokens_model(models_of(segments@)),
    decreases models_of(segments@),
{
    let ghost all = models_of(segments@);
    let ghost start = out@.map_values(|name: &str| name@);
    proof {
        lemma_models_of(segments@);
        assert(all.subrange(0, 0) =~= Seq::<SegmentModel>::empty());
        assert(start + unknown_tokens_model(all.subrange(0, 0)) =~= start);
    }
    let mut i: usize = 0;
    while i < segments.len()
        invariant
            i <= segments.len(),
            all == models_of(segments@),
            all.len() == segments.len(),
            forall|k: int| 0 <= k < segments.len() ==> #[trigger] all[k] == segments@[k].model(),
            out@.map_values(|name: &str| name@) == start + unknown_tokens_model(all.subrange(0, i as int)),
        decreases segments.len() - i,
    {
        let ghost before = out@.map_values(|name: &str| name@);
        proof {
            assert(all.subrange(0, i + 1).subrange(0, i as int) =~= all.subrange(0, i as int));
        }
        match &segments[i] {
            Segment::Literal(_) => {},
            Segment::Token(name) => {
                if !is_known(name.as_str()) {
                    out.push(name.as_str());
                }
            },
            Segment::Section(inner) => {
                proof {
                    assert(all[i as int] == SegmentModel::Section(models_of(inner@)));
                    assert(decreases_to!(all => all[i as int]));
                    assert(decreases_to!(all[i as int] => all[i as int]->Section_0));
                }
                collect_unknown(inner, out);
            },
        }
        proof {
            assert(out@.map_values(|name: &str| name@) =~= before + unknown_tokens_of(all[i as int]));
        }
        i += 1;
    }
    proof {
        assert(all.subrange(0, i as int) =~= all);
    }
}

impl Template {
    /// Parses a template source; see [`scan`] for the grammar.
    pub fn parse(source: &str) -> (r: Result<Template, ParseError>)
        ensures
            match parse_model(source@) {
                Ok(segments) => r matches Ok(template) && template@ == segments,
                Err(message) => r matches Err(e) && e.message@ == message,
            },
            r matches Ok(template) ==> is_canonical(template@),
    {
        proof {
            if parse_model(source@) is Ok {
                lemma_parse_then_print(source@);
            }
        }
        let chars = chars_of(source);
        assert(chars@.skip(0) =~= source@);
        match parse_segments(&chars, 0, false) {
            Ok((segments, _)) => Ok(Template { segments }),
            Err(e) => Err(e),
        }
    }

    /// The title this template renders to with the given token values.
    pub fn render(&self, values: &TokenValues) -> (r: String)
        ensures
            r@ == render_model(self@, values@).text,
    {
        render_segments(&self.segments, values).text
    }

    /// Token names in this template that no value exists for — rendered
    /// literally, and worth a warning in the plugin log.
    pub fn unknown_tokens(&self) -> (r: Vec<&str>)
        ensures
            r@.map_values(|name: &str| name@) == unknown_tokens_model(self@),
    {
        let mut out: Vec<&str> = Vec::new();
        collect_unknown(&self.segments, &mut out);
        assert(out@.map_values(|name: &str| name@) =~= Seq::<Seq<char>>::empty() + unknown_tokens_model(self@));
        out
    }
}


/// The known token names as warnings list them.
pub open spec fn known_tokens_text() -> Seq<char> {
    "indicator, session, workspace, tab, agent, title, host"@
}

/// The warning for a template that fails to parse with `message`.
pub open spec fn fallback_warning(message: Seq<char>) -> Seq<char> {
    "template: "@ + message + "; using the default template"@
}

/// The warning for an unknown token `name`.
pub open spec fn unknown_token_warning(name: Seq<char>) -> Seq<char> {
    "template: unknown token {"@ + name + "} renders literally (known: "@ + known_tokens_text() + ")"@
}

/// The template that a source falls back to, and the warnings it earns.
pub open spec fn fallback_model(source: Seq<char>, default: Seq<char>) -> (Seq<SegmentModel>, Seq<Seq<char>>) {
    match parse_model(source) {
        Ok(segments) => (segments, unknown_tokens_model(segments).map_values(|n: Seq<char>| unknown_token_warning(n))),
        Err(message) => {
            let segments = parse_model(default)->Ok_0;
            (
                segments,
                seq![fallback_warning(message)] + unknown_tokens_model(segments).map_values(
                    |n: Seq<char>| unknown_token_warning(n),
                ),
            )
        },
    }
}

/// The views of a list of strings.
pub open spec fn string_views(v: Seq<String>) -> Seq<Seq<char>> {
    v.map_values(|s: String| s@)
}

/// Parse `source`, falling back to the template `default` on syntax
/// errors. Warnings cover both fallback and unknown tokens; the caller
/// decides where they land (hooks print them into the plugin log).
pub fn parse_with_fallback(source: &str, default: &str) -> (r: (Template, Vec<String>))
    requires
        parse_model(source@) is Err ==> parse_model(default@) is Ok,
    ensures
        r.0@ == fallback_model(source@, default@).0,
        string_views(r.1@) == fallback_model(source@, default@).1,
{
    let mut warnings: Vec<String> = Vec::new();
    let template = match Template::parse(source) {
        Ok(template) => template,
        Err(error) => {
            let mut warning = String::from_str("template: ");
            warning.append(error.message.as_str());
            warning.append("; using the default template");
            assert(warning@ =~= fallback_warning(error.message@));
            warnings.push(warning);
            assert(string_views(warnings@) =~= seq![fallback_warning(error.message@)]);
            match Template::parse(default) {
                Ok(template) => template,
                Err(_) => {
                    proof {
                        assert(false);
                    }
                    Template { segments: Vec::new() }
                },
            }
        },
    };
    let ghost first = string_views(warnings@);
    let names = template.unknown_tokens();
    let ghost unknown = unknown_tokens_model(template@);
    assert(names@.map_values(|name: &str| name@) == unknown);
    let mut i: usize = 0;
    while i < names.len()
        invariant
            i <= names.len(),
            names@.map_values(|name: &str| name@) == unknown,
            string_views(warnings@) == first + unknown.subrange(0, i as int).map_values(
                |n: Seq<char>| unknown_token_warning(n),
            ),
        decreases names.len() - i,
    {
        let mut warning = String::from_str("template: unknown token {");
        warning.append(names[i]);
        warning.append("} renders literally (known: ");
        warning.append("indicator, session, workspace, tab, agent, title, host");
        warning.append(")");
        proof {
            assert(names@[i as int]@ == unknown[i as int]);
            assert(unknown.subrange(0, i + 1) =~= unknown.subrange(0, i as int).push(unknown[i as int]));
            assert(warning@ =~= unknown_token_warning(unknown[i as int]));
        }
        let ghost before = warnings@;
        warnings.push(warning);
        proof {
            assert(string_views(warnings@) =~= string_views(before).push(unknown_token_warning(unknown[i as int])));
        }
        proof {
            assert(string_views(warnings@) =~= first + unknown.subrange(0, i + 1).map_values(
                |n: Seq<char>| unknown_token_warning(n),
            ));
        }
        i += 1;
    }
    proof {
        assert(unknown.subrange(0, i as int) =~= unknown);
    }
    (template, warnings)
}


// ---------------------------------------------------------------------------
// Laws of the template language.

/// Rendering `seg` after `before`: `before`'s text followed by the segment's
/// own rendering, with the flags of both.
pub open spec fn after(before: RenderModel, own: RenderModel) -> RenderModel {
    RenderModel {
        text: before.text + own.text,
        saw_token: before.saw_token || own.saw_token,
        saw_token_value: before.saw_token_value || own.saw_token_value,
    }
}

pub open spec fn nothing_rendered() -> RenderModel {
    RenderModel { text: Seq::empty(), saw_token: false, saw_token_value: false }
}

proof fn lemma_step_after(before: RenderModel, segment: SegmentModel, values: TokenValuesModel)
    ensures
        render_step(before, segment, values) =~= after(before, render_step(nothing_rendered(), segment, values)),
{
    match segment {
        SegmentModel::Literal(text) => {
            assert(Seq::<char>::empty() + text =~= text);
        },
        SegmentModel::Token(name) => {
            match token_value(values, name) {
                Some(value) => {
                    assert(Seq::<char>::empty() + value =~= value);
                },
                None => {
                    assert(before.text + seq!['{'] + name + seq!['}'] =~= before.text + (Seq::<char>::empty() + seq!['{'] + name + seq!['}']));
                },
            }
        },
        SegmentModel::Section(inner) => {
            let rendered = render_model(inner, values);
            assert(Seq::<char>::empty() + rendered.text =~= rendered.text);
            assert(before.text + Seq::<char>::empty() =~= before.text);
        },
    }
}

/// Rendering is compositional: a template split in two renders as its
/// first part followed by its second, and a token or section in one part
/// never changes how the other part renders.
pub proof fn lemma_render_concat(first: Seq<SegmentModel>, second: Seq<SegmentModel>, values: TokenValuesModel)
    ensures
        render_model(first + second, values) =~= after(render_model(first, values), render_model(second, values)),
    decreases second.len(),
{
    if second.len() == 0 {
        assert(first + second =~= first);
        assert(render_model(first, values).text + Seq::<char>::empty() =~= render_model(first, values).text);
    } else {
        let whole = first + second;
        let last = second[second.len() - 1];
        let shorter = second.subrange(0, second.len() - 1);
        assert(whole.subrange(0, whole.len() - 1) =~= first + shorter);
        assert(whole[whole.len() - 1] == last);
        lemma_render_concat(first, shorter, values);
        lemma_step_after(render_model(first + shorter, values), last, values);
        lemma_step_after(render_model(shorter, values), last, values);
        let own = render_step(nothing_rendered(), last, values);
        let a = render_model(first, values);
        let b = render_model(shorter, values);
        assert(a.text + b.text + own.text =~= a.text + (b.text + own.text));
    }
}

/// Whether `c` has a meaning of its own in a template source.
pub open spec fn is_markup(c: char) -> bool {
    c == '\\' || c == '{' || c == '}' || c == '[' || c == ']'
}

/// `text` written as template source that stands for itself: every markup
/// character gets a `\` in front of it.
pub open spec fn escape(text: Seq<char>) -> Seq<char>
    decreases text.len(),
{
    if text.len() == 0 {
        Seq::empty()
    } else {
        (if is_markup(text[0]) { seq!['\\', text[0]] } else { seq![text[0]] }) + escape(
            text.subrange(1, text.len() as int),
        )
    }
}

proof fn lemma_scan_escaped(text: Seq<char>, literal: Seq<char>, acc: Seq<SegmentModel>)
    ensures
        scan(escape(text), false, literal, acc) == Ok::<_, Seq<char>>((flush(acc, literal + text), Seq::<char>::empty())),
    decreases text.len(),
{
    let s = escape(text);
    if text.len() == 0 {
        assert(literal + text =~= literal);
    } else {
        let c = text[0];
        let tail = text.subrange(1, text.len() as int);
        lemma_scan_escaped(tail, literal.push(c), acc);
        assert(literal.push(c) + tail =~= literal + text);
        if is_markup(c) {
            assert(s.subrange(1, s.len() as int).subrange(1, s.len() - 1) =~= escape(tail));
            assert(s.subrange(1, s.len() as int)[0] == c);
        } else {
            assert(s.subrange(1, s.len() as int) =~= escape(tail));
        }
    }
}

/// The rendering of a template made of one segment.
proof fn lemma_render_single(segment: SegmentModel, values: TokenValuesModel)
    ensures
        render_model(seq![segment], values) == render_step(nothing_rendered(), segment, values),
{
    let one = seq![segment];
    assert(one.subrange(0, 0) =~= Seq::<SegmentModel>::empty());
    assert(render_model(one.subrange(0, 0), values) == nothing_rendered());
    assert(one[0] == segment);
}

/// What a template holding at most the literal `text` renders to.
proof fn lemma_render_literal(text: Seq<char>, values: TokenValuesModel)
    ensures
        render_model(flush(Seq::empty(), text), values).text == text,
{
    if text.len() > 0 {
        assert(flush(Seq::<SegmentModel>::empty(), text) =~= seq![SegmentModel::Literal(text)]);
        lemma_render_single(SegmentModel::Literal(text), values);
        assert(Seq::<char>::empty() + text =~= text);
    } else {
        assert(text =~= Seq::<char>::empty());
    }
}

/// Escaping: any text, with its markup characters escaped by `\`, parses
/// to that text as one literal and so renders as itself, whatever the
/// token values.
pub proof fn lemma_escaped_text_renders_as_itself(text: Seq<char>, values: TokenValuesModel)
    ensures
        parse_model(escape(text)) == Ok::<_, Seq<char>>(flush(Seq::empty(), text)),
        render_model(parse_model(escape(text))->Ok_0, values).text == text,
{
    lemma_scan_escaped(text, Seq::empty(), Seq::empty());
    assert(Seq::<char>::empty() + text =~= text);
    lemma_render_literal(text, values);
}

/// Whether `text` holds no character that starts markup at the top level
/// of a template (`\`, `{` and `[`; a `]` or `}` there is plain text).
pub open spec fn is_plain(text: Seq<char>) -> bool {
    forall|i: int| 0 <= i < text.len() ==> #[trigger] text[i] != '\\' && text[i] != '{' && text[i] != '['
}

proof fn lemma_scan_plain(text: Seq<char>, literal: Seq<char>, acc: Seq<SegmentModel>)
    requires
        is_plain(text),
    ensures
        scan(text, false, literal, acc) == Ok::<_, Seq<char>>((flush(acc, literal + text), Seq::<char>::empty())),
    decreases text.len(),
{
    if text.len() == 0 {
        assert(literal + text =~= literal);
        assert(text =~= Seq::<char>::empty());
    } else {
        let tail = text.subrange(1, text.len() as int);
        assert(is_plain(tail)) by {
            assert forall|i: int| 0 <= i < tail.len() implies #[trigger] tail[i] != '\\' && tail[i] != '{' && tail[i] != '[' by {
                assert(tail[i] == text[i + 1]);
            }
        }
        assert(text[0] != '\\' && text[0] != '{' && text[0] != '[');
        lemma_scan_plain(tail, literal.push(text[0]), acc);
        assert(literal.push(text[0]) + tail =~= literal + text);
    }
}

/// Text without markup is a template of one literal, which renders as the
/// text itself.
pub proof fn lemma_plain_text_renders_as_itself(text: Seq<char>, values: TokenValuesModel)
    requires
        is_plain(text),
    ensures
        parse_model(text) == Ok::<_, Seq<char>>(flush(Seq::empty(), text)),
        render_model(parse_model(text)->Ok_0, values).text == text,
{
    lemma_scan_plain(text, Seq::empty(), Seq::empty());
    assert(Seq::<char>::empty() + text =~= text);
    lemma_render_literal(text, values);
}

/// A token: `{name}` parses to the token `name`, which renders as its value
/// when it is a known token and literally, braces included, when it is not.
pub proof fn lemma_token_renders(name: Seq<char>, values: TokenValuesModel)
    requires
        forall|i: int| 0 <= i < name.len() ==> name[i] != '}',
    ensures
        parse_model(seq!['{'] + name + seq!['}']) == Ok::<_, Seq<char>>(seq![SegmentModel::Token(name)]),
        render_model(seq![SegmentModel::Token(name)], values).text == match token_value(values, name) {
            Some(value) => value,
            None => seq!['{'] + name + seq!['}'],
        },
        token_value(values, name) is Some <==> is_known_token(name),
{
    let s = seq!['{'] + name + seq!['}'];
    let rest = s.subrange(1, s.len() as int);
    assert(s[0] == '{');
    assert(rest =~= name + seq!['}']);
    assert forall|j: int| 0 <= j < name.len() implies rest[j] != '}' by {
        assert(rest[j] == name[j]);
    }
    assert(rest[name.len() as int] == '}');
    lemma_first_close_brace(rest, name.len() as int);
    assert(first_close_brace(rest) == Some(name.len() as int));
    assert(rest.subrange(0, name.len() as int) =~= name);
    let after = rest.subrange(name.len() as int + 1, rest.len() as int);
    assert(after =~= Seq::<char>::empty());
    let segments = seq![SegmentModel::Token(name)];
    let acc = flush(Seq::<SegmentModel>::empty(), Seq::<char>::empty()).push(SegmentModel::Token(name));
    assert(acc =~= segments);
    assert(scan(after, false, Seq::empty(), acc) == Ok::<_, Seq<char>>((flush(acc, Seq::empty()), after)));
    assert(scan(s, false, Seq::empty(), Seq::empty()) == scan(after, false, Seq::empty(), acc));
    lemma_render_single(SegmentModel::Token(name), values);
    match token_value(values, name) {
        Some(value) => assert(Seq::<char>::empty() + value =~= value),
        None => assert(Seq::<char>::empty() + seq!['{'] + name + seq!['}'] =~= seq!['{'] + name + seq!['}']),
    }
}

/// Whether every known token in `segments`, at any depth, has an empty value.
pub open spec fn known_tokens_empty(segments: Seq<SegmentModel>, values: TokenValuesModel) -> bool
    decreases segments,
{
    if segments.len() == 0 {
        true
    } else {
        known_tokens_empty(segments.subrange(0, segments.len() - 1), values) && known_tokens_empty_in(
            segments[segments.len() - 1],
            values,
        )
    }
}

pub open spec fn known_tokens_empty_in(segment: SegmentModel, values: TokenValuesModel) -> bool
    decreases segment,
{
    match segment {
        SegmentModel::Literal(_) => true,
        SegmentModel::Token(name) => match token_value(values, name) {
            Some(value) => value.len() == 0,
            None => true,
        },
        SegmentModel::Section(inner) => known_tokens_empty(inner, values),
    }
}

/// Whether `segments` holds, outside any nested section, a known token
/// whose value satisfies `nonempty`'s demand (any value when it is false).
pub open spec fn has_known_token(segments: Seq<SegmentModel>, values: TokenValuesModel, nonempty: bool) -> bool {
    exists|i: int|
        0 <= i < segments.len() && (#[trigger] segments[i] matches SegmentModel::Token(name) && token_value(
            values,
            name,
        ) matches Some(value) && (nonempty ==> value.len() > 0))
}

proof fn lemma_empty_tokens_render_no_value(segments: Seq<SegmentModel>, values: TokenValuesModel)
    requires
        known_tokens_empty(segments, values),
    ensures
        !render_model(segments, values).saw_token_value,
    decreases segments,
{
    if segments.len() > 0 {
        let shorter = segments.subrange(0, segments.len() - 1);
        let last = segments[segments.len() - 1];
        assert(known_tokens_empty(shorter, values) && known_tokens_empty_in(last, values));
        assert(render_model(segments, values) == render_step(render_model(shorter, values), last, values));
        lemma_empty_tokens_render_no_value(shorter, values);
        match last {
            SegmentModel::Section(inner) => {
                assert(decreases_to!(segments => last));
                assert(decreases_to!(last => last->Section_0));
                assert(known_tokens_empty(inner, values));
                lemma_empty_tokens_render_no_value(inner, values);
                assert(!render_model(inner, values).saw_token_value);
            },
            SegmentModel::Token(name) => {
                assert(token_value(values, name) matches Some(value) ==> value.len() == 0);
            },
            _ => {},
        }
    }
}

proof fn lemma_flags_persist(segments: Seq<SegmentModel>, values: TokenValuesModel, n: int)
    requires
        0 <= n <= segments.len(),
    ensures
        render_model(segments.subrange(0, n), values).saw_token ==> render_model(segments, values).saw_token,
        render_model(segments.subrange(0, n), values).saw_token_value ==> render_model(segments, values).saw_token_value,
{
    lemma_render_concat(segments.subrange(0, n), segments.subrange(n, segments.len() as int), values);
    assert(segments.subrange(0, n) + segments.subrange(n, segments.len() as int) =~= segments);
}

proof fn lemma_known_token_is_seen(segments: Seq<SegmentModel>, values: TokenValuesModel, nonempty: bool)
    requires
        has_known_token(segments, values, nonempty),
    ensures
        render_model(segments, values).saw_token,
        nonempty ==> render_model(segments, values).saw_token_value,
{
    let i = choose|i: int|
        0 <= i < segments.len() && (#[trigger] segments[i] matches SegmentModel::Token(name) && token_value(
            values,
            name,
        ) matches Some(value) && (nonempty ==> value.len() > 0));
    let upto = segments.subrange(0, i + 1);
    assert(upto.subrange(0, i) =~= segments.subrange(0, i));
    assert(upto[i] == segments[i]);
    assert(render_model(upto, values) == render_step(render_model(upto.subrange(0, i), values), upto[i], values));
    lemma_flags_persist(segments, values, i + 1);
}

/// Optional sections vanish: a section holding a known token directly,
/// whose known tokens all render empty (nested sections included), adds
/// nothing to the title; the rest of the template renders as if it were
/// not there.
pub proof fn lemma_section_vanishes(
    before: Seq<SegmentModel>,
    inner: Seq<SegmentModel>,
    later: Seq<SegmentModel>,
    values: TokenValuesModel,
)
    requires
        has_known_token(inner, values, false),
        known_tokens_empty(inner, values),
    ensures
        render_model(before + seq![SegmentModel::Section(inner)] + later, values).text == render_model(
            before + later,
            values,
        ).text,
{
    lemma_known_token_is_seen(inner, values, false);
    lemma_empty_tokens_render_no_value(inner, values);
    let section = seq![SegmentModel::Section(inner)];
    lemma_render_concat(before + section, later, values);
    lemma_render_concat(before, section, values);
    lemma_render_concat(before, later, values);
    lemma_render_single(SegmentModel::Section(inner), values);
    assert(render_model(section, values).text =~= Seq::<char>::empty());
    let b = render_model(before, values).text;
    let l = render_model(later, values).text;
    assert(b + Seq::<char>::empty() + l =~= b + l);
}

/// Optional sections show: a section holding directly a known token with a
/// non-empty value — or no known token at all — renders exactly as its
/// contents would without the brackets.
pub proof fn lemma_section_shows(
    before: Seq<SegmentModel>,
    inner: Seq<SegmentModel>,
    later: Seq<SegmentModel>,
    values: TokenValuesModel,
)
    requires
        has_known_token(inner, values, true) || !render_model(inner, values).saw_token,
    ensures
        render_model(before + seq![SegmentModel::Section(inner)] + later, values).text == render_model(
            before + inner + later,
            values,
        ).text,
{
    if has_known_token(inner, values, true) {
        lemma_known_token_is_seen(inner, values, true);
    }
    let section = seq![SegmentModel::Section(inner)];
    lemma_render_concat(before + section, later, values);
    lemma_render_concat(before, section, values);
    lemma_render_concat(before + inner, later, values);
    lemma_render_concat(before, inner, values);
    lemma_render_single(SegmentModel::Section(inner), values);
    let r = render_model(inner, values).text;
    assert(Seq::<char>::empty() + r =~= r);
    assert(render_model(section, values).text =~= r);
}


/// The canonical source of a segment list: literals escaped, tokens in
/// braces, sections in brackets.
pub open spec fn print_segments(segments: Seq<SegmentModel>) -> Seq<char>
    decreases segments,
{
    if segments.len() == 0 {
        Seq::empty()
    } else {
        print_segments(segments.subrange(0, segments.len() - 1)) + print_segment(segments[segments.len() - 1])
    }
}

pub open spec fn print_segment(segment: SegmentModel) -> Seq<char>
    decreases segment,
{
    match segment {
        SegmentModel::Literal(text) => escape(text),
        SegmentModel::Token(name) => seq!['{'] + name + seq!['}'],
        SegmentModel::Section(inner) => seq!['['] + print_segments(inner) + seq![']'],
    }
}

/// Whether a segment list is one that parsing produces: literals are
/// non-empty and never adjacent, token names hold no `}`, and sections
/// are canonical themselves.
pub open spec fn is_canonical(segments: Seq<SegmentModel>) -> bool
    decreases segments,
{
    if segments.len() == 0 {
        true
    } else {
        let n = segments.len();
        &&& is_canonical(segments.subrange(0, n - 1))
        &&& is_canonical_segment(segments[n - 1])
        &&& (n >= 2 && segments[n - 1] is Literal ==> !(segments[n - 2] is Literal))
    }
}

pub open spec fn is_canonical_segment(segment: SegmentModel) -> bool
    decreases segment,
{
    match segment {
        SegmentModel::Literal(text) => text.len() > 0,
        SegmentModel::Token(name) => forall|i: int| 0 <= i < name.len() ==> name[i] != '}',
        SegmentModel::Section(inner) => is_canonical(inner),
    }
}

/// The pending literal and finished segments after reading `segments`
/// from a state with pending literal `literal` and finished `acc`.
pub open spec fn replay(segments: Seq<SegmentModel>, literal: Seq<char>, acc: Seq<SegmentModel>) -> (Seq<SegmentModel>, Seq<char>)
    decreases segments.len(),
{
    if segments.len() == 0 {
        (acc, literal)
    } else {
        let rest = segments.subrange(1, segments.len() as int);
        match segments[0] {
            SegmentModel::Literal(text) => replay(rest, literal + text, acc),
            other => replay(rest, Seq::empty(), flush(acc, literal).push(other)),
        }
    }
}

proof fn lemma_print_front(segments: Seq<SegmentModel>)
    requires
        segments.len() > 0,
    ensures
        print_segments(segments) == print_segment(segments[0]) + print_segments(
            segments.subrange(1, segments.len() as int),
        ),
    decreases segments.len(),
{
    let n = segments.len();
    let shorter = segments.subrange(0, n - 1);
    let rest = segments.subrange(1, n as int);
    assert(print_segments(segments) == print_segments(shorter) + print_segment(segments[n - 1]));
    if n == 1 {
        assert(print_segments(shorter) == Seq::<char>::empty());
        assert(rest.len() == 0);
        assert(print_segments(rest) == Seq::<char>::empty());
        assert(Seq::<char>::empty() + print_segment(segments[0]) =~= print_segment(segments[0]) + Seq::<char>::empty());
    } else {
        lemma_print_front(shorter);
        assert(shorter[0] == segments[0]);
        assert(shorter.subrange(1, shorter.len() as int) =~= rest.subrange(0, rest.len() - 1));
        assert(rest[rest.len() - 1] == segments[n - 1]);
        assert(print_segments(rest) == print_segments(rest.subrange(0, rest.len() - 1)) + print_segment(rest[rest.len() - 1]));
        assert(print_segment(segments[0]) + print_segments(shorter.subrange(1, shorter.len() as int)) + print_segment(segments[n - 1])
            =~= print_segment(segments[0]) + (print_segments(rest.subrange(0, rest.len() - 1)) + print_segment(rest[rest.len() - 1])));
    }
}

proof fn lemma_canonical_front(segments: Seq<SegmentModel>)
    requires
        segments.len() > 0,
        is_canonical(segments),
    ensures
        is_canonical_segment(segments[0]),
        is_canonical(segments.subrange(1, segments.len() as int)),
        segments.len() >= 2 && segments[0] is Literal ==> !(segments[1] is Literal),
    decreases segments.len(),
{
    let n = segments.len();
    let shorter = segments.subrange(0, n - 1);
    let rest = segments.subrange(1, n as int);
    if n == 1 {
        assert(shorter.len() == 0);
        assert(rest.len() == 0);
    } else {
        lemma_canonical_front(shorter);
        assert(shorter[0] == segments[0]);
        assert(shorter.subrange(1, shorter.len() as int) =~= rest.subrange(0, rest.len() - 1));
        assert(rest[rest.len() - 1] == segments[n - 1]);
        if n >= 3 {
            assert(rest[rest.len() - 2] == segments[n - 2]);
        }
        if n == 2 {
            assert(shorter[0] == segments[0]);
        } else {
            assert(shorter[1] == segments[1]);
        }
    }
}

proof fn lemma_scan_escaped_then(text: Seq<char>, tail: Seq<char>, in_section: bool, literal: Seq<char>, acc: Seq<SegmentModel>)
    ensures
        scan(escape(text) + tail, in_section, literal, acc) == scan(tail, in_section, literal + text, acc),
    decreases text.len(),
{
    if text.len() == 0 {
        assert(escape(text) + tail =~= tail);
        assert(literal + text =~= literal);
    } else {
        let c = text[0];
        let rest = text.subrange(1, text.len() as int);
        let s = escape(text) + tail;
        lemma_scan_escaped_then(rest, tail, in_section, literal.push(c), acc);
        assert(literal.push(c) + rest =~= literal + text);
        if is_markup(c) {
            assert(s[0] == '\\');
            assert(s.subrange(1, s.len() as int)[0] == c);
            assert(s.subrange(1, s.len() as int).subrange(1, s.len() - 1) =~= escape(rest) + tail);
        } else {
            assert(s[0] == c);
            assert(s.subrange(1, s.len() as int) =~= escape(rest) + tail);
        }
    }
}

proof fn lemma_scan_token_then(name: Seq<char>, tail: Seq<char>, in_section: bool, literal: Seq<char>, acc: Seq<SegmentModel>)
    requires
        forall|i: int| 0 <= i < name.len() ==> name[i] != '}',
    ensures
        scan(seq!['{'] + name + seq!['}'] + tail, in_section, literal, acc) == scan(
            tail,
            in_section,
            Seq::empty(),
            flush(acc, literal).push(SegmentModel::Token(name)),
        ),
{
    let s = seq!['{'] + name + seq!['}'] + tail;
    let rest = s.subrange(1, s.len() as int);
    assert(s[0] == '{');
    assert(rest =~= name + seq!['}'] + tail);
    assert forall|j: int| 0 <= j < name.len() implies rest[j] != '}' by {
        assert(rest[j] == name[j]);
    }
    assert(rest[name.len() as int] == '}');
    lemma_first_close_brace(rest, name.len() as int);
    assert(rest.subrange(0, name.len() as int) =~= name);
    assert(rest.subrange(name.len() as int + 1, rest.len() as int) =~= tail);
}

proof fn lemma_scan_printed(
    segments: Seq<SegmentModel>,
    tail: Seq<char>,
    in_section: bool,
    literal: Seq<char>,
    acc: Seq<SegmentModel>,
)
    requires
        is_canonical(segments),
        literal.len() > 0 && segments.len() > 0 ==> !(segments[0] is Literal),
    ensures
        scan(print_segments(segments) + tail, in_section, literal, acc) == scan(
            tail,
            in_section,
            replay(segments, literal, acc).1,
            replay(segments, literal, acc).0,
        ),
    decreases segments,
{
    if segments.len() == 0 {
        assert(print_segments(segments) + tail =~= tail);
    } else {
        let first = segments[0];
        let rest = segments.subrange(1, segments.len() as int);
        lemma_print_front(segments);
        lemma_canonical_front(segments);
        let later = print_segments(rest) + tail;
        assert(print_segments(segments) + tail =~= print_segment(first) + later);
        match first {
            SegmentModel::Literal(text) => {
                lemma_scan_escaped_then(text, later, in_section, literal, acc);
                assert(literal + text =~= text);
                lemma_scan_printed(rest, tail, in_section, literal + text, acc);
            },
            SegmentModel::Token(name) => {
                lemma_scan_token_then(name, later, in_section, literal, acc);
                lemma_scan_printed(rest, tail, in_section, Seq::empty(), flush(acc, literal).push(first));
            },
            SegmentModel::Section(inner) => {
                assert(decreases_to!(segments => first));
                assert(decreases_to!(first => first->Section_0));
                let s = print_segment(first) + later;
                let after_open = s.subrange(1, s.len() as int);
                assert(s[0] == '[');
                assert(after_open =~= print_segments(inner) + (seq![']'] + later));
                lemma_scan_printed(inner, seq![']'] + later, true, Seq::empty(), Seq::empty());
                let (inner_acc, inner_literal) = replay(inner, Seq::empty(), Seq::empty());
                lemma_replay_flush(inner, Seq::empty(), Seq::empty());
                assert(flush(Seq::<SegmentModel>::empty(), Seq::<char>::empty()) + inner =~= inner);
                let closing = seq![']'] + later;
                assert(closing[0] == ']');
                assert(closing.subrange(1, closing.len() as int) =~= later);
                assert(scan(after_open, true, Seq::empty(), Seq::empty()) == Ok::<_, Seq<char>>((inner, later)));
                lemma_scan_printed(rest, tail, in_section, Seq::empty(), flush(acc, literal).push(first));
            },
        }
    }
}

proof fn lemma_replay_flush(segments: Seq<SegmentModel>, literal: Seq<char>, acc: Seq<SegmentModel>)
    requires
        is_canonical(segments),
        literal.len() > 0 && segments.len() > 0 ==> !(segments[0] is Literal),
    ensures
        flush(replay(segments, literal, acc).0, replay(segments, literal, acc).1) == flush(acc, literal) + segments,
    decreases segments.len(),
{
    if segments.len() == 0 {
        assert(flush(acc, literal) + segments =~= flush(acc, literal));
    } else {
        let first = segments[0];
        let rest = segments.subrange(1, segments.len() as int);
        lemma_canonical_front(segments);
        match first {
            SegmentModel::Literal(text) => {
                assert(literal + text =~= text);
                lemma_replay_flush(rest, text, acc);
                assert(flush(acc, text) + rest =~= flush(acc, literal) + segments);
            },
            _ => {
                lemma_replay_flush(rest, Seq::empty(), flush(acc, literal).push(first));
                assert(flush(acc, literal).push(first) + rest =~= flush(acc, literal) + segments);
            },
        }
    }
}

/// The grammar is unambiguous: a canonical segment list (see
/// [`is_canonical`]), written out as source by [`print_segments`], parses
/// back to exactly that list.
pub proof fn lemma_print_then_parse(segments: Seq<SegmentModel>)
    requires
        is_canonical(segments),
    ensures
        parse_model(print_segments(segments)) == Ok::<_, Seq<char>>(segments),
{
    lemma_scan_printed(segments, Seq::empty(), false, Seq::empty(), Seq::empty());
    assert(print_segments(segments) + Seq::<char>::empty() =~= print_segments(segments));
    lemma_replay_flush(segments, Seq::empty(), Seq::empty());
    assert(flush(Seq::<SegmentModel>::empty(), Seq::<char>::empty()) + segments =~= segments);
}


proof fn lemma_canonical_push(acc: Seq<SegmentModel>, segment: SegmentModel)
    requires
        is_canonical(acc),
        is_canonical_segment(segment),
        segment is Literal && acc.len() > 0 ==> !(acc[acc.len() - 1] is Literal),
    ensures
        is_canonical(acc.push(segment)),
{
    let pushed = acc.push(segment);
    assert(pushed.subrange(0, pushed.len() - 1) =~= acc);
    assert(pushed[pushed.len() - 1] == segment);
    if acc.len() > 0 {
        assert(pushed[pushed.len() - 2] == acc[acc.len() - 1]);
    }
}

/// The state of a scan that only canonical results can come from: the
/// finished segments are canonical and do not end in a literal (literal
/// text is still pending then).
pub open spec fn canonical_state(literal: Seq<char>, acc: Seq<SegmentModel>) -> bool {
    &&& is_canonical(acc)
    &&& acc.len() > 0 ==> !(acc[acc.len() - 1] is Literal)
}

proof fn lemma_flush_canonical(literal: Seq<char>, acc: Seq<SegmentModel>)
    requires
        canonical_state(literal, acc),
    ensures
        is_canonical(flush(acc, literal)),
        flush(acc, literal).len() > 0 ==> (flush(acc, literal).len() == acc.len() + 1 <==> literal.len() > 0),
        literal.len() == 0 ==> flush(acc, literal) == acc,
{
    if literal.len() > 0 {
        lemma_canonical_push(acc, SegmentModel::Literal(literal));
    }
}

proof fn lemma_scan_canonical(s: Seq<char>, in_section: bool, literal: Seq<char>, acc: Seq<SegmentModel>)
    requires
        canonical_state(literal, acc),
    ensures
        scan(s, in_section, literal, acc) matches Ok((segments, _)) ==> is_canonical(segments),
    decreases s.len(),
{
    if s.len() == 0 {
        lemma_flush_canonical(literal, acc);
    } else {
        let c = s[0];
        let rest = s.subrange(1, s.len() as int);
        if c == '\\' {
            if rest.len() == 0 {
                lemma_scan_canonical(rest, in_section, literal.push('\\'), acc);
            } else {
                lemma_scan_canonical(rest.subrange(1, rest.len() as int), in_section, literal.push(rest[0]), acc);
            }
        } else if c == '{' {
            match first_close_brace(rest) {
                None => {},
                Some(k) => {
                    lemma_first_close_brace_in_bounds(rest);
                    let name = rest.subrange(0, k);
                    assert forall|i: int| 0 <= i < name.len() implies name[i] != '}' by {
                        assert(name[i] == rest[i]);
                    }
                    lemma_flush_canonical(literal, acc);
                    lemma_canonical_push(flush(acc, literal), SegmentModel::Token(name));
                    let next = flush(acc, literal).push(SegmentModel::Token(name));
                    assert(next[next.len() - 1] == SegmentModel::Token(name));
                    lemma_scan_canonical(rest.subrange(k + 1, rest.len() as int), in_section, Seq::empty(), next);
                },
            }
        } else if c == '[' {
            lemma_scan_canonical(rest, true, Seq::empty(), Seq::empty());
            match scan(rest, true, Seq::empty(), Seq::empty()) {
                Err(_) => {},
                Ok((inner, after)) => if after.len() < s.len() {
                    lemma_flush_canonical(literal, acc);
                    lemma_canonical_push(flush(acc, literal), SegmentModel::Section(inner));
                    let next = flush(acc, literal).push(SegmentModel::Section(inner));
                    assert(next[next.len() - 1] == SegmentModel::Section(inner));
                    lemma_scan_canonical(after, in_section, Seq::empty(), flush(acc, literal).push(SegmentModel::Section(inner)));
                },
            }
        } else if c == ']' && in_section {
            lemma_flush_canonical(literal, acc);
        } else {
            lemma_scan_canonical(rest, in_section, literal.push(c), acc);
        }
    }
}

/// Parsing yields canonical segments, so writing a parsed template out
/// with [`print_segments`] gives a source that parses to the same
/// template: the printed form is a normal form of template sources.
pub proof fn lemma_parse_then_print(source: Seq<char>)
    requires
        parse_model(source) is Ok,
    ensures
        is_canonical(parse_model(source)->Ok_0),
        parse_model(print_segments(parse_model(source)->Ok_0)) == parse_model(source),
{
    lemma_scan_canonical(source, false, Seq::empty(), Seq::empty());
    lemma_print_then_parse(parse_model(source)->Ok_0);
}

/// Where reading `s` left to right, with `depth` sections open, meets a
/// `{` or `[` that is never closed, the message for it. A `\` makes the
/// next character plain text, the text after a `{` runs to the next `}`,
/// and a `]` closes the innermost open `[` (with none open it is text).
pub open spec fn unclosed(s: Seq<char>, depth: nat) -> Option<Seq<char>>
    decreases s.len(),
{
    if s.len() == 0 {
        if depth > 0 {
            Some(unclosed_section_message())
        } else {
            None
        }
    } else {
        let c = s[0];
        let rest = s.subrange(1, s.len() as int);
        if c == '\\' {
            if rest.len() == 0 {
                unclosed(rest, depth)
            } else {
                unclosed(rest.subrange(1, rest.len() as int), depth)
            }
        } else if c == '{' {
            match first_close_brace(rest) {
                None => Some(unclosed_token_message(rest)),
                Some(k) => if 0 <= k < rest.len() {
                    unclosed(rest.subrange(k + 1, rest.len() as int), depth)
                } else {
                    None
                },
            }
        } else if c == '[' {
            unclosed(rest, depth + 1)
        } else if c == ']' && depth > 0 {
            unclosed(rest, (depth - 1) as nat)
        } else {
            unclosed(rest, depth)
        }
    }
}

/// The number of open sections that `scan` works at: none at the top
/// level, one more than `d` inside a section.
pub open spec fn scan_depth(in_section: bool, d: nat) -> nat {
    if in_section {
        d + 1
    } else {
        0
    }
}

proof fn lemma_scan_unclosed(s: Seq<char>, in_section: bool, literal: Seq<char>, acc: Seq<SegmentModel>, d: nat)
    ensures
        scan(s, in_section, literal, acc) matches Err(m) ==> unclosed(s, scan_depth(in_section, d)) == Some(m),
        scan(s, in_section, literal, acc) matches Ok((_, after)) ==> if in_section {
            after.len() < s.len() && unclosed(s, d + 1) == unclosed(after, d)
        } else {
            unclosed(s, 0) is None
        },
    decreases s.len(),
{
    if s.len() > 0 {
        let c = s[0];
        let rest = s.subrange(1, s.len() as int);
        let depth = scan_depth(in_section, d);
        if c == '\\' {
            if rest.len() == 0 {
                lemma_scan_unclosed(rest, in_section, literal.push('\\'), acc, d);
            } else {
                lemma_scan_unclosed(rest.subrange(1, rest.len() as int), in_section, literal.push(rest[0]), acc, d);
            }
        } else if c == '{' {
            lemma_first_close_brace_in_bounds(rest);
            match first_close_brace(rest) {
                None => {},
                Some(k) => {
                    let next = flush(acc, literal).push(SegmentModel::Token(rest.subrange(0, k)));
                    lemma_scan_unclosed(rest.subrange(k + 1, rest.len() as int), in_section, Seq::empty(), next, d);
                },
            }
        } else if c == '[' {
            lemma_scan_unclosed(rest, true, Seq::empty(), Seq::empty(), depth);
            match scan(rest, true, Seq::empty(), Seq::empty()) {
                Err(_) => {},
                Ok((inner, after)) => {
                    let next = flush(acc, literal).push(SegmentModel::Section(inner));
                    lemma_scan_unclosed(after, in_section, Seq::empty(), next, d);
                },
            }
        } else if c == ']' && in_section {
        } else {
            lemma_scan_unclosed(rest, in_section, literal.push(c), acc, d);
        }
    }
}

/// A template source fails to parse exactly when, read left to right, it
/// leaves a `{` or a `[` unclosed, and the error is the message for the
/// first such place: the text after an unclosed `{`, or the unclosed `[`.
pub proof fn lemma_parse_fails_iff_unclosed(source: Seq<char>)
    ensures
        parse_model(source) is Err <==> unclosed(source, 0) is Some,
        parse_model(source) matches Err(message) ==> unclosed(source, 0) == Some(message),
{
    lemma_scan_unclosed(source, false, Seq::empty(), Seq::empty(), 0);
}

/// Every token name in `segments`, in the order they occur, sections
/// included.
pub open spec fn token_names(segments: Seq<SegmentModel>) -> Seq<Seq<char>>
    decreases segments,
{
    if segments.len() == 0 {
        Seq::empty()
    } else {
        token_names(segments.subrange(0, segments.len() - 1)) + token_names_of(segments[segments.len() - 1])
    }
}

pub open spec fn token_names_of(segment: SegmentModel) -> Seq<Seq<char>>
    decreases segment,
{
    match segment {
        SegmentModel::Literal(_) => Seq::empty(),
        SegmentModel::Token(name) => seq![name],
        SegmentModel::Section(inner) => token_names(inner),
    }
}

proof fn lemma_unknown_tokens_filter(segments: Seq<SegmentModel>)
    ensures
        unknown_tokens_model(segments) == token_names(segments).filter(|n: Seq<char>| !is_known_token(n)),
    decreases segments,
{
    let unknown = |n: Seq<char>| !is_known_token(n);
    if segments.len() > 0 {
        let shorter = segments.subrange(0, segments.len() - 1);
        let last = segments[segments.len() - 1];
        lemma_unknown_tokens_filter(shorter);
        Seq::filter_distributes_over_add(token_names(shorter), token_names_of(last), unknown);
        match last {
            SegmentModel::Literal(_) => {
                assert(Seq::<Seq<char>>::empty().filter(unknown) =~= Seq::<Seq<char>>::empty());
            },
            SegmentModel::Token(name) => {
                reveal_with_fuel(Seq::filter, 2);
                assert(seq![name].drop_last() =~= Seq::<Seq<char>>::empty());
                if is_known_token(name) {
                    assert(seq![name].filter(unknown) =~= Seq::<Seq<char>>::empty());
                } else {
                    assert(seq![name].filter(unknown) =~= seq![name]);
                }
            },
            SegmentModel::Section(inner) => {
                lemma_unknown_tokens_filter(inner);
            },
        }
        assert(token_names(segments) == token_names(shorter) + token_names_of(last));
        assert(unknown_tokens_model(segments) == unknown_tokens_model(shorter) + unknown_tokens_of(last));
        assert(unknown_tokens_of(last) == token_names_of(last).filter(unknown));
        assert(unknown_tokens_model(segments) == token_names(segments).filter(unknown));
    } else {
        assert(Seq::<Seq<char>>::empty().filter(unknown) =~= Seq::<Seq<char>>::empty());
    }
}

/// The unknown tokens of a template are its token names, in order and
/// sections included, with the known ones left out; so there are none
/// exactly when every token name is one of the known tokens.
pub proof fn lemma_unknown_tokens_are_the_unknown_names(segments: Seq<SegmentModel>)
    ensures
        unknown_tokens_model(segments) == token_names(segments).filter(|n: Seq<char>| !is_known_token(n)),
        unknown_tokens_model(segments).len() == 0 <==> forall|i: int|
            0 <= i < token_names(segments).len() ==> is_known_token(#[trigger] token_names(segments)[i]),
{
    let unknown = |n: Seq<char>| !is_known_token(n);
    let names = token_names(segments);
    lemma_unknown_tokens_filter(segments);
    if unknown_tokens_model(segments).len() == 0 {
        assert forall|i: int| 0 <= i < names.len() implies is_known_token(#[trigger] names[i]) by {
            if !is_known_token(names[i]) {
                names.lemma_filter_contains(unknown, i);
            }
        }
    } else {
        let n = names.filter(unknown)[0];
        names.lemma_filter_pred(unknown, 0);
        names.lemma_filter_contains_rev(unknown, n);
    }
}

proof fn lemma_step_keeps_value(before: RenderModel, segment: SegmentModel, values: TokenValuesModel)
    requires
        before.saw_token_value,
    ensures
        render_step(before, segment, values).saw_token_value,
{
}

/// A segment list with a known token, at any depth, whose value is not
/// empty renders having seen a token and a non-empty value.
proof fn lemma_some_value_is_seen(segments: Seq<SegmentModel>, values: TokenValuesModel)
    requires
        !known_tokens_empty(segments, values),
    ensures
        render_model(segments, values).saw_token,
        render_model(segments, values).saw_token_value,
    decreases segments,
{
    let shorter = segments.subrange(0, segments.len() - 1);
    let last = segments[segments.len() - 1];
    assert(render_model(segments, values) == render_step(render_model(shorter, values), last, values));
    if !known_tokens_empty(shorter, values) {
        lemma_some_value_is_seen(shorter, values);
        lemma_step_keeps_value(render_model(shorter, values), last, values);
        lemma_flags_persist(segments, values, segments.len() - 1);
    } else {
        assert(!known_tokens_empty_in(last, values));
        match last {
            SegmentModel::Section(inner) => {
                assert(decreases_to!(segments => last));
                assert(decreases_to!(last => last->Section_0));
                lemma_some_value_is_seen(inner, values);
            },
            _ => {},
        }
    }
}

/// A section shows whenever some known token inside it, at any depth
/// (nested sections included), has a non-empty value: it then renders
/// exactly as its contents would without the brackets.
pub proof fn lemma_section_with_a_value_shows(
    before: Seq<SegmentModel>,
    inner: Seq<SegmentModel>,
    later: Seq<SegmentModel>,
    values: TokenValuesModel,
)
    requires
        !known_tokens_empty(inner, values),
    ensures
        render_model(before + seq![SegmentModel::Section(inner)] + later, values).text == render_model(
            before + inner + later,
            values,
        ).text,
{
    lemma_some_value_is_seen(inner, values);
    let section = seq![SegmentModel::Section(inner)];
    lemma_render_concat(before + section, later, values);
    lemma_render_concat(before, section, values);
    lemma_render_concat(before + inner, later, values);
    lemma_render_concat(before, inner, values);
    lemma_render_single(SegmentModel::Section(inner), values);
    let r = render_model(inner, values).text;
    assert(Seq::<char>::empty() + r =~= r);
    assert(render_model(section, values).text =~= r);
}

} // verus!
