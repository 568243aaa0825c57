//! The run-control loader: the grammar of a run-control line and what each
//! directive does to the configuration.

use crate::bindings::pair_views;
use crate::config::{ConfigView, RshConfig};
use crate::text::{
    lemma_find_at, lemma_trim_after_trim_end, lemma_trim_end_after,
    spec_split_once, spec_strip_prefix, spec_trim, spec_trim_end, spec_trim_start, split_once,
    strip_prefix, to_chars, trim, views,
};
use vstd::prelude::*;

verus! {

/// What a line of a run-control file asks for.
#[derive(Debug, PartialEq, Eq)]
pub enum Directive {
    /// `alias NAME=VALUE`
    Alias { name: String, value: String },
    /// `export NAME=VALUE`
    Export { name: String, value: String },
    /// `prompt STRING`
    Prompt { text: String },
    /// `func on_start CMD`
    OnStart { command: String },
    /// `func on_exit CMD`
    OnExit { command: String },
    /// `func NAME BODY`
    Function { name: String, body: String },
    /// A blank line, a comment, or a line that is no directive.
    Ignored,
}

/// A directive, as mathematical values.
pub enum DirectiveView {
    Alias { name: Seq<char>, value: Seq<char> },
    Export { name: Seq<char>, value: Seq<char> },
    Prompt { text: Seq<char> },
    OnStart { command: Seq<char> },
    OnExit { command: Seq<char> },
    Function { name: Seq<char>, body: Seq<char> },
    Ignored,
}

impl View for Directive {
    type V = DirectiveView;

    open spec fn view(&self) -> DirectiveView {
        match self {
            Directive::Alias { name, value } => DirectiveView::Alias { name: name@, value: value@ },
            Directive::Export { name, value } => DirectiveView::Export {
                name: name@,
                value: value@,
            },
            Directive::Prompt { text } => DirectiveView::Prompt { text: text@ },
            Directive::OnStart { command } => DirectiveView::OnStart { command: command@ },
            Directive::OnExit { command } => DirectiveView::OnExit { command: command@ },
            Directive::Function { name, body } => DirectiveView::Function {
                name: name@,
                body: body@,
            },
            Directive::Ignored => DirectiveView::Ignored,
        }
    }
}

/// Whether `c` is a quote character.
pub open spec fn is_quote(c: char) -> bool {
    c == '"' || c == '\''
}

/// `value` without one layer of matching quotes: where it begins and ends
/// with the same quote character, the text between the two; otherwise
/// `value` itself.
pub open spec fn spec_unquote(value: Seq<char>) -> Seq<char> {
    if value.len() >= 2 && is_quote(value[0]) && value.last() == value[0] {
        value.subrange(1, value.len() - 1)
    } else {
        value
    }
}

/// The directive that `rest` gives after the word `alias`.
pub open spec fn spec_alias(rest: Seq<char>) -> DirectiveView {
    match spec_split_once(rest, '=') {
        Some((name, value)) => DirectiveView::Alias {
            name: spec_trim(name),
            value: spec_unquote(spec_trim(value)),
        },
        None => DirectiveView::Ignored,
    }
}

/// The directive that `rest` gives after the word `export`.
pub open spec fn spec_export(rest: Seq<char>) -> DirectiveView {
    match spec_split_once(rest, '=') {
        Some((name, value)) => DirectiveView::Export {
            name: spec_trim(name),
            value: spec_trim(value),
        },
        None => DirectiveView::Ignored,
    }
}

/// The directive that `rest` gives after the word `func`, where it names
/// neither of the two hooks.
pub open spec fn spec_function(rest: Seq<char>) -> DirectiveView {
    match spec_split_once(rest, ' ') {
        Some((name, body)) => DirectiveView::Function {
            name: spec_trim(name),
            body: spec_trim(body),
        },
        None => DirectiveView::Ignored,
    }
}

/// The directive on a line. The line is trimmed; a blank line and a line
/// that begins with `#` are ignored; the prefixes are then tried in order,
/// and the first that matches decides.
pub open spec fn spec_parse_line(line: Seq<char>) -> DirectiveView {
    let t = spec_trim(line);
    if t.len() == 0 || t[0] == '#' {
        DirectiveView::Ignored
    } else if spec_strip_prefix(t, "alias "@) is Some {
        spec_alias(spec_strip_prefix(t, "alias "@)->0)
    } else if spec_strip_prefix(t, "export "@) is Some {
        spec_export(spec_strip_prefix(t, "export "@)->0)
    } else if spec_strip_prefix(t, "prompt "@) is Some {
        DirectiveView::Prompt { text: spec_strip_prefix(t, "prompt "@)->0 }
    } else if spec_strip_prefix(t, "func on_start "@) is Some {
        DirectiveView::OnStart { command: spec_strip_prefix(t, "func on_start "@)->0 }
    } else if spec_strip_prefix(t, "func on_exit "@) is Some {
        DirectiveView::OnExit { command: spec_strip_prefix(t, "func on_exit "@)->0 }
    } else if spec_strip_prefix(t, "func "@) is Some {
        spec_function(spec_strip_prefix(t, "func "@)->0)
    } else {
        DirectiveView::Ignored
    }
}

/// The configuration after a directive has been carried out.
pub open spec fn spec_apply(c: ConfigView, d: DirectiveView) -> ConfigView {
    match d {
        DirectiveView::Alias { name, value } => ConfigView {
            aliases: c.aliases.insert(name, value),
            ..c
        },
        DirectiveView::Export { name, value } => ConfigView {
            env_vars: c.env_vars.insert(name, value),
            ..c
        },
        DirectiveView::Prompt { text } => ConfigView { prompt: text, ..c },
        DirectiveView::OnStart { command } => ConfigView {
            on_start: c.on_start.push(command),
            ..c
        },
        DirectiveView::OnExit { command } => ConfigView { on_exit: c.on_exit.push(command), ..c },
        DirectiveView::Function { name, body } => ConfigView {
            functions: c.functions.insert(name, body),
            ..c
        },
        DirectiveView::Ignored => c,
    }
}

/// The configuration after the lines have been read in order.
pub open spec fn spec_load(c: ConfigView, lines: Seq<Seq<char>>) -> ConfigView
    decreases lines.len(),
{
    if lines.len() == 0 {
        c
    } else {
        spec_apply(spec_load(c, lines.drop_last()), spec_parse_line(lines.last()))
    }
}

/// The variables that the lines export, in the order of the lines.
pub open spec fn spec_exports(lines: Seq<Seq<char>>) -> Seq<(Seq<char>, Seq<char>)>
    decreases lines.len(),
{
    if lines.len() == 0 {
        Seq::empty()
    } else {
        let before = spec_exports(lines.drop_last());
        match spec_parse_line(lines.last()) {
            DirectiveView::Export { name, value } => before.push((name, value)),
            _ => before,
        }
    }
}

/// Whether the directive binds the alias `name`.
pub open spec fn binds_alias(d: DirectiveView, name: Seq<char>) -> bool {
    d matches DirectiveView::Alias { name: bound, .. } && bound == name
}

/// Strips one layer of matching quotes from `value`.
pub fn unquote(value: &str) -> (r: &str)
    ensures
        r@ == spec_unquote(value@),
{
    let chars = to_chars(value);
    let n: usize = chars.len();
    if n >= 2 && (chars[0] == '"' || chars[0] == '\'') && chars[n - 1] == chars[0] {
        value.substring_char(1, n - 1)
    } else {
        value
    }
}

/// Reads the part of an `alias` line after the word.
fn parse_alias(rest: &str) -> (d: Directive)
    ensures
        d@ == spec_alias(rest@),
{
    match split_once(rest, '=') {
        Some((name, value)) => Directive::Alias {
            name: trim(name).to_owned(),
            value: unquote(trim(value)).to_owned(),
        },
        None => Directive::Ignored,
    }
}

/// Reads the part of an `export` line after the word.
fn parse_export(rest: &str) -> (d: Directive)
    ensures
        d@ == spec_export(rest@),
{
    match split_once(rest, '=') {
        Some((name, value)) => Directive::Export {
            name: trim(name).to_owned(),
            value: trim(value).to_owned(),
        },
        None => Directive::Ignored,
    }
}

/// Reads the part of a `func` line after the word.
fn parse_function(rest: &str) -> (d: Directive)
    ensures
        d@ == spec_function(rest@),
{
    match split_once(rest, ' ') {
        Some((name, body)) => Directive::Function {
            name: trim(name).to_owned(),
            body: trim(body).to_owned(),
        },
        None => Directive::Ignored,
    }
}

/// Reads one line of a run-control file.
pub fn parse_line(line: &str) -> (d: Directive)
    ensures
        d@ == spec_parse_line(line@),
{
    let t = trim(line);
    if t.unicode_len() == 0 || t.get_char(0) == '#' {
        return Directive::Ignored;
    }
    if let Some(rest) = strip_prefix(t, "alias ") {
        return parse_alias(rest);
    }
    if let Some(rest) = strip_prefix(t, "export ") {
        return parse_export(rest);
    }
    if let Some(rest) = strip_prefix(t, "prompt ") {
        return Directive::Prompt { text: rest.to_owned() };
    }
    if let Some(rest) = strip_prefix(t, "func on_start ") {
        return Directive::OnStart { command: rest.to_owned() };
    }
    if let Some(rest) = strip_prefix(t, "func on_exit ") {
        return Directive::OnExit { command: rest.to_owned() };
    }
    if let Some(rest) = strip_prefix(t, "func ") {
        return parse_function(rest);
    }
    Directive::Ignored
}

/// Carries out a directive on the configuration.
pub fn apply_directive(config: &mut RshConfig, directive: Directive)
    ensures
        final(config)@ == spec_apply(old(config)@, directive@),
{
    match directive {
        Directive::Alias { name, value } => {
            config.aliases.insert(name, value);
        },
        Directive::Export { name, value } => {
            config.env_vars.insert(name, value);
        },
        Directive::Prompt { text } => {
            config.prompt = text;
        },
        Directive::OnStart { command } => {
            assert(views(config.on_start@.push(command)) =~= views(config.on_start@).push(
                command@,
            ));
            config.on_start.push(command);
        },
        Directive::OnExit { command } => {
            assert(views(config.on_exit@.push(command)) =~= views(config.on_exit@).push(command@));
            config.on_exit.push(command);
        },
        Directive::Function { name, body } => {
            config.functions.insert(name, body);
        },
        Directive::Ignored => {},
    }
}

/// Reads lines into the configuration, in order, and returns the variables
/// that the lines export, in order, for the caller to set in the process
/// environment.
pub fn load_lines(config: &mut RshConfig, lines: &Vec<String>) -> (exports: Vec<(String, String)>)
    ensures
        final(config)@ == spec_load(old(config)@, views(lines@)),
        pair_views(exports@) == spec_exports(views(lines@)),
{
    let mut exports: Vec<(String, String)> = Vec::new();
    let n: usize = lines.len();
    let mut i: usize = 0;
    assert(views(lines@).take(0) =~= Seq::<Seq<char>>::empty());
    assert(pair_views(exports@) =~= Seq::<(Seq<char>, Seq<char>)>::empty());
    while i < n
        invariant
            n == lines@.len(),
            i <= n,
            config@ == spec_load(old(config)@, views(lines@).take(i as int)),
            pair_views(exports@) == spec_exports(views(lines@).take(i as int)),
        decreases n - i,
    {
        let directive = parse_line(lines[i].as_str());
        proof {
            let next = views(lines@).take(i + 1);
            assert(next.drop_last() =~= views(lines@).take(i as int));
            assert(next.last() == lines@[i as int]@);
        }
        if let Directive::Export { name, value } = &directive {
            let pair = (name.clone(), value.clone());
            assert(pair_views(exports@.push(pair)) =~= pair_views(exports@).push((name@, value@)));
            exports.push(pair);
        }
        apply_directive(config, directive);
        i += 1;
    }
    assert(views(lines@).take(n as int) =~= views(lines@));
    exports
}

/// Loads a run-control file into the configuration. `lines` holds the lines
/// of the file, or nothing where the file could not be read: that is no
/// error, there is then nothing to load. Returns the variables that the file
/// exports, in order, for the caller to set in the process environment.
pub fn load_rshrc(config: &mut RshConfig, lines: Option<&Vec<String>>) -> (exports: Vec<
    (String, String),
>)
    ensures
        match lines {
            Some(l) => final(config)@ == spec_load(old(config)@, views(l@)) && pair_views(exports@)
                == spec_exports(views(l@)),
            None => final(config)@ == old(config)@ && exports@.len() == 0,
        },
{
    match lines {
        Some(l) => load_lines(config, l),
        None => Vec::new(),
    }
}

/// Unquoting removes exactly one layer: of a text between two equal quote
/// characters it leaves the text, quotes inside it included.
pub proof fn lemma_unquote_strips_one_layer(quote: char, inner: Seq<char>)
    requires
        is_quote(quote),
    ensures
        spec_unquote(seq![quote] + inner + seq![quote]) == inner,
{
    let quoted = seq![quote] + inner + seq![quote];
    assert(quoted.subrange(1, quoted.len() - 1) =~= inner);
}

/// A line that reads `alias NAME=VALUE` once trimmed, with no `=` in NAME,
/// binds NAME to VALUE: both trimmed, and VALUE without one layer of
/// quotes.
pub proof fn lemma_alias_line_parses(line: Seq<char>, name: Seq<char>, value: Seq<char>)
    requires
        spec_trim(line) == "alias "@ + name + seq!['='] + value,
        forall|i: int| 0 <= i < name.len() ==> #[trigger] name[i] != '=',
    ensures
        spec_parse_line(line) == (DirectiveView::Alias {
            name: spec_trim(name),
            value: spec_unquote(spec_trim(value)),
        }),
{
    reveal_strlit("alias ");
    let t = spec_trim(line);
    let word = "alias "@;
    let rest = name + seq!['='] + value;
    assert(t =~= word + rest);
    assert(t.subrange(0, word.len() as int) =~= word);
    assert(t.skip(word.len() as int) =~= rest);
    assert(t[0] == 'a');
    assert forall|k: int| 0 <= k < name.len() implies #[trigger] rest[k] != '=' by {
        assert(rest[k] == name[k]);
    }
    lemma_find_at(rest, '=', name.len() as int);
    assert(rest.take(name.len() as int) =~= name);
    assert(rest.skip(name.len() as int + 1) =~= value);
}

/// The line `alias NAME=VALUE`, with no `=` in NAME, binds NAME to VALUE,
/// whatever whitespace stands around either: both are trimmed, and VALUE
/// loses one layer of quotes.
pub proof fn lemma_alias_line_binds(name: Seq<char>, value: Seq<char>)
    requires
        forall|i: int| 0 <= i < name.len() ==> #[trigger] name[i] != '=',
    ensures
        spec_parse_line("alias "@ + name + seq!['='] + value) == (DirectiveView::Alias {
            name: spec_trim(name),
            value: spec_unquote(spec_trim(value)),
        }),
{
    reveal_strlit("alias ");
    let head = "alias "@ + name + seq!['='];
    let line = head + value;
    assert(line[0] == 'a');
    assert(spec_trim_start(line) == line);
    assert(head.last() == '=');
    lemma_trim_end_after(head, value);
    assert(spec_trim(line) == "alias "@ + name + seq!['='] + spec_trim_end(value));
    lemma_alias_line_parses(line, name, spec_trim_end(value));
    lemma_trim_after_trim_end(value);
}

/// After loading, an alias is bound to what the last line for its name
/// says: a line that binds `name` to `value`, followed by no line that binds
/// `name` again, leaves `name` bound to `value`.
pub proof fn lemma_last_alias_line_decides(
    c: ConfigView,
    lines: Seq<Seq<char>>,
    i: int,
    name: Seq<char>,
    value: Seq<char>,
)
    requires
        0 <= i < lines.len(),
        spec_parse_line(lines[i]) == (DirectiveView::Alias { name, value }),
        forall|j: int|
            i < j < lines.len() ==> !binds_alias(spec_parse_line(#[trigger] lines[j]), name),
    ensures
        spec_load(c, lines).aliases.contains_key(name),
        spec_load(c, lines).aliases[name] == value,
    decreases lines.len(),
{
    if i < lines.len() - 1 {
        let before = lines.drop_last();
        assert(before[i] == lines[i]);
        assert forall|j: int| i < j < before.len() implies !binds_alias(
            spec_parse_line(#[trigger] before[j]),
            name,
        ) by {
            assert(before[j] == lines[j]);
        }
        lemma_last_alias_line_decides(c, before, i, name, value);
        assert(!binds_alias(spec_parse_line(lines[lines.len() - 1]), name));
    }
}

/// A line that reads `func on_start CMD` once trimmed adds CMD to the
/// start hooks, and `func on_exit CMD` adds it to the exit hooks.
pub proof fn lemma_hook_line_parses(line: Seq<char>, command: Seq<char>)
    ensures
        spec_trim(line) == "func on_start "@ + command ==> spec_parse_line(line) == (
        DirectiveView::OnStart { command }),
        spec_trim(line) == "func on_exit "@ + command ==> spec_parse_line(line) == (
        DirectiveView::OnExit { command }),
{
    reveal_strlit("alias ");
    reveal_strlit("export ");
    reveal_strlit("prompt ");
    reveal_strlit("func on_start ");
    reveal_strlit("func on_exit ");
    let t = spec_trim(line);
    if t == "func on_start "@ + command {
        let word = "func on_start "@;
        assert(t.subrange(0, word.len() as int) =~= word);
        assert(t.skip(word.len() as int) =~= command);
        assert(t[0] == 'f');
        assert("alias "@.is_prefix_of(t) ==> t.subrange(0, 6)[0] == 'a');
        assert("export "@.is_prefix_of(t) ==> t.subrange(0, 7)[0] == 'e');
        assert("prompt "@.is_prefix_of(t) ==> t.subrange(0, 7)[0] == 'p');
    }
    if t == "func on_exit "@ + command {
        let word = "func on_exit "@;
        assert(t.subrange(0, word.len() as int) =~= word);
        assert(t.skip(word.len() as int) =~= command);
        assert(t[0] == 'f');
        assert(t[8] == 'e');
        assert("alias "@.is_prefix_of(t) ==> t.subrange(0, 6)[0] == 'a');
        assert("export "@.is_prefix_of(t) ==> t.subrange(0, 7)[0] == 'e');
        assert("prompt "@.is_prefix_of(t) ==> t.subrange(0, 7)[0] == 'p');
        assert("func on_start "@.is_prefix_of(t) ==> t.subrange(0, 14)[8] == 's');
    }
}

/// The hooks keep the order of their lines: loading one more line adds its
/// hook, if it holds one, after those that were there.
pub proof fn lemma_hooks_keep_order(c: ConfigView, lines: Seq<Seq<char>>, line: Seq<char>)
    ensures
        spec_parse_line(line) matches DirectiveView::OnStart { command } ==> spec_load(
            c,
            lines.push(line),
        ).on_start == spec_load(c, lines).on_start.push(command),
        spec_parse_line(line) matches DirectiveView::OnExit { command } ==> spec_load(
            c,
            lines.push(line),
        ).on_exit == spec_load(c, lines).on_exit.push(command),
{
    assert(lines.push(line).drop_last() =~= lines);
}

} // verus!
