//! The command dispatcher: what a submitted line does to the configuration
//! and what the caller has to carry out for it.

use crate::alias::{expand_alias, spec_expand_alias};
use crate::bindings::pair_views;
use crate::config::{empty_config, ConfigView, RshConfig};
use crate::loader::{
    binds_alias, lemma_last_alias_line_decides, load_lines, spec_exports, spec_load,
    spec_parse_line, DirectiveView,
};
use crate::paths::{expand_tilde_with, home_dir, spec_expand_tilde};
use crate::policy::spec_child_env;
use crate::text::{
    spec_split_once, spec_tokens, spec_trim, split_once, split_whitespace, str_eq, trim, views,
};
use vstd::prelude::*;

verus! {

/// What a built-in reports when it is used wrongly.
#[derive(Debug, Clone, Copy, PartialEq, Eq, Structural)]
pub enum ShellError {
    /// `unalias` without a name.
    UnaliasMissingArgument,
    /// `unalias` of a name that is no alias.
    UnaliasNotFound,
    /// `export` with an argument that holds no `=`.
    ExportInvalidSyntax,
    /// `export` without an argument.
    ExportMissingArgument,
    /// `source` of a file that does not exist.
    SourceFileNotFound,
    /// `source` without a file.
    SourceMissingFile,
    /// `func` without a name.
    FuncMissingName,
}

/// The text of each report: the built-in's name, a colon and what is wrong.
pub open spec fn spec_message(error: ShellError) -> Seq<char> {
    match error {
        ShellError::UnaliasMissingArgument => "unalias: missing argument"@,
        ShellError::UnaliasNotFound => "unalias: no such alias"@,
        ShellError::ExportInvalidSyntax => "export: invalid syntax"@,
        ShellError::ExportMissingArgument => "export: missing argument"@,
        ShellError::SourceFileNotFound => "source: file not found"@,
        ShellError::SourceMissingFile => "source: missing file"@,
        ShellError::FuncMissingName => "func: missing function name"@,
    }
}

impl ShellError {
    /// The line to write to the error stream.
    pub fn message(&self) -> (text: String)
        ensures
            text@ == spec_message(*self),
    {
        match self {
            ShellError::UnaliasMissingArgument => "unalias: missing argument".to_owned(),
            ShellError::UnaliasNotFound => "unalias: no such alias".to_owned(),
            ShellError::ExportInvalidSyntax => "export: invalid syntax".to_owned(),
            ShellError::ExportMissingArgument => "export: missing argument".to_owned(),
            ShellError::SourceFileNotFound => "source: file not found".to_owned(),
            ShellError::SourceMissingFile => "source: missing file".to_owned(),
            ShellError::FuncMissingName => "func: missing function name".to_owned(),
        }
    }
}

/// What the caller has to carry out for a line.
#[derive(Debug, PartialEq, Eq)]
pub enum Action {
    /// Nothing is left to do.
    Nothing,
    /// Run each hook in order, whatever its outcome, then end the session.
    Exit { hooks: Vec<String> },
    /// Make `path` the working directory.
    ChangeDir { path: String },
    /// Print the usage text.
    ShowHelp,
    /// Print the aliases.
    ListAliases,
    /// Print the exported variables.
    ListEnv,
    /// Set the variable in the process environment.
    SetEnv { name: String, value: String },
    /// Read the file at `path` and hand its lines to `source_rshrc`.
    Source { path: String },
    /// Hand `command` to the command interpreter.
    Run { command: String },
    /// Write the report to the error stream.
    Report { error: ShellError },
}

/// An action, as mathematical values.
pub enum ActionView {
    Nothing,
    Exit { hooks: Seq<Seq<char>> },
    ChangeDir { path: Seq<char> },
    ShowHelp,
    ListAliases,
    ListEnv,
    SetEnv { name: Seq<char>, value: Seq<char> },
    Source { path: Seq<char> },
    Run { command: Seq<char> },
    Report { error: ShellError },
}

impl View for Action {
    type V = ActionView;

    open spec fn view(&self) -> ActionView {
        match self {
            Action::Nothing => ActionView::Nothing,
            Action::Exit { hooks } => ActionView::Exit { hooks: views(hooks@) },
            Action::ChangeDir { path } => ActionView::ChangeDir { path: path@ },
            Action::ShowHelp => ActionView::ShowHelp,
            Action::ListAliases => ActionView::ListAliases,
            Action::ListEnv => ActionView::ListEnv,
            Action::SetEnv { name, value } => ActionView::SetEnv { name: name@, value: value@ },
            Action::Source { path } => ActionView::Source { path: path@ },
            Action::Run { command } => ActionView::Run { command: command@ },
            Action::Report { error } => ActionView::Report { error: *error },
        }
    }
}

/// `unalias` with the tokens of its line: the named alias goes; a name that
/// is no alias, and a missing name, are reported and change nothing.
pub open spec fn spec_unalias(c: ConfigView, tokens: Seq<Seq<char>>) -> (ConfigView, ActionView) {
    if tokens.len() < 2 {
        (c, ActionView::Report { error: ShellError::UnaliasMissingArgument })
    } else if c.aliases.contains_key(tokens[1]) {
        (ConfigView { aliases: c.aliases.remove(tokens[1]), ..c }, ActionView::Nothing)
    } else {
        (c, ActionView::Report { error: ShellError::UnaliasNotFound })
    }
}

/// `export` with the tokens of its line: the argument is split at its first
/// `=` into name and value, which are recorded and set in the environment.
pub open spec fn spec_export_builtin(c: ConfigView, tokens: Seq<Seq<char>>) -> (
    ConfigView,
    ActionView,
) {
    if tokens.len() < 2 {
        (c, ActionView::Report { error: ShellError::ExportMissingArgument })
    } else {
        match spec_split_once(tokens[1], '=') {
            Some((name, value)) => (
                ConfigView { env_vars: c.env_vars.insert(name, value), ..c },
                ActionView::SetEnv { name, value },
            ),
            None => (c, ActionView::Report { error: ShellError::ExportInvalidSyntax }),
        }
    }
}

/// What running the function `name` asks for: its body goes to the command
/// interpreter; a name that is no function asks for nothing.
pub open spec fn spec_run_function(name: Seq<char>, c: ConfigView) -> ActionView {
    if c.functions.contains_key(name) {
        ActionView::Run { command: c.functions[name] }
    } else {
        ActionView::Nothing
    }
}

/// What a submitted line does: the configuration after it, and the action
/// for the caller. The first token of the trimmed line selects the built-in;
/// a line that names none is alias-expanded and handed to the command
/// interpreter; a blank line does nothing. `home` is the home directory that
/// `~` stands for, if one is known.
pub open spec fn spec_dispatch(c: ConfigView, line: Seq<char>, home: Option<Seq<char>>) -> (
    ConfigView,
    ActionView,
) {
    let t = spec_trim(line);
    let tokens = spec_tokens(t);
    if tokens.len() == 0 {
        (c, ActionView::Nothing)
    } else if tokens[0] == "exit"@ {
        (c, ActionView::Exit { hooks: c.on_exit })
    } else if tokens[0] == "cd"@ {
        let target = if tokens.len() > 1 {
            tokens[1]
        } else {
            "~"@
        };
        (c, ActionView::ChangeDir { path: spec_expand_tilde(target, home) })
    } else if tokens[0] == "help"@ {
        (c, ActionView::ShowHelp)
    } else if tokens[0] == "alias"@ {
        (c, ActionView::ListAliases)
    } else if tokens[0] == "unalias"@ {
        spec_unalias(c, tokens)
    } else if tokens[0] == "export"@ {
        spec_export_builtin(c, tokens)
    } else if tokens[0] == "set"@ {
        (c, ActionView::ListEnv)
    } else if tokens[0] == "source"@ {
        if tokens.len() > 1 {
            (c, ActionView::Source { path: spec_expand_tilde(tokens[1], home) })
        } else {
            (c, ActionView::Report { error: ShellError::SourceMissingFile })
        }
    } else if tokens[0] == "func"@ {
        if tokens.len() > 1 {
            (c, spec_run_function(tokens[1], c))
        } else {
            (c, ActionView::Report { error: ShellError::FuncMissingName })
        }
    } else {
        (c, ActionView::Run { command: spec_expand_alias(t, c.aliases) })
    }
}

/// The configuration after the lines of a sourced file have been merged
/// into it: the file's aliases, functions and exported variables are added,
/// and replace those of the same name; the prompt and the hooks stay.
pub open spec fn spec_source(c: ConfigView, lines: Seq<Seq<char>>) -> ConfigView {
    let sourced = spec_load(empty_config(), lines);
    ConfigView {
        aliases: c.aliases.union_prefer_right(sourced.aliases),
        functions: c.functions.union_prefer_right(sourced.functions),
        env_vars: c.env_vars.union_prefer_right(sourced.env_vars),
        ..c
    }
}

/// The action for running the function `name`.
pub fn run_function(name: &str, config: &RshConfig) -> (action: Action)
    ensures
        action@ == spec_run_function(name@, config@),
{
    match config.functions.get(name) {
        Some(body) => Action::Run { command: body.clone() },
        None => Action::Nothing,
    }
}

/// The built-in `unalias`.
fn unalias(config: &mut RshConfig, tokens: &Vec<String>) -> (action: Action)
    ensures
        (final(config)@, action@) == spec_unalias(old(config)@, views(tokens@)),
{
    if tokens.len() < 2 {
        return Action::Report { error: ShellError::UnaliasMissingArgument };
    }
    if config.aliases.remove(tokens[1].as_str()) {
        Action::Nothing
    } else {
        assert(config.aliases@ =~= old(config).aliases@);
        Action::Report { error: ShellError::UnaliasNotFound }
    }
}

/// The built-in `export`.
fn export(config: &mut RshConfig, tokens: &Vec<String>) -> (action: Action)
    ensures
        (final(config)@, action@) == spec_export_builtin(old(config)@, views(tokens@)),
{
    if tokens.len() < 2 {
        return Action::Report { error: ShellError::ExportMissingArgument };
    }
    match split_once(tokens[1].as_str(), '=') {
        Some((name, value)) => {
            config.env_vars.insert(name.to_owned(), value.to_owned());
            Action::SetEnv { name: name.to_owned(), value: value.to_owned() }
        },
        None => Action::Report { error: ShellError::ExportInvalidSyntax },
    }
}

/// Carries out a submitted line on the configuration, with `home` as the
/// home directory that `~` stands for, and returns the action for the
/// caller.
pub fn dispatch_with_home(config: &mut RshConfig, line: &str, home: Option<&str>) -> (action:
    Action)
    ensures
        (final(config)@, action@) == spec_dispatch(
            old(config)@,
            line@,
            match home {
                Some(h) => Some(h@),
                None => None,
            },
        ),
{
    let t = trim(line);
    let tokens = split_whitespace(t);
    if tokens.len() == 0 {
        return Action::Nothing;
    }
    let command = tokens[0].as_str();
    assert(command@ == spec_tokens(spec_trim(line@))[0]);
    if str_eq(command, "exit") {
        Action::Exit { hooks: config.on_exit.clone() }
    } else if str_eq(command, "cd") {
        let target = if tokens.len() > 1 {
            tokens[1].as_str()
        } else {
            "~"
        };
        Action::ChangeDir { path: expand_tilde_with(target, home) }
    } else if str_eq(command, "help") {
        Action::ShowHelp
    } else if str_eq(command, "alias") {
        Action::ListAliases
    } else if str_eq(command, "unalias") {
        unalias(config, &tokens)
    } else if str_eq(command, "export") {
        export(config, &tokens)
    } else if str_eq(command, "set") {
        Action::ListEnv
    } else if str_eq(command, "source") {
        if tokens.len() > 1 {
            Action::Source { path: expand_tilde_with(tokens[1].as_str(), home) }
        } else {
            Action::Report { error: ShellError::SourceMissingFile }
        }
    } else if str_eq(command, "func") {
        if tokens.len() > 1 {
            run_function(tokens[1].as_str(), config)
        } else {
            Action::Report { error: ShellError::FuncMissingName }
        }
    } else {
        Action::Run { command: expand_alias(t, &config.aliases) }
    }
}

/// Carries out a submitted line on the configuration and returns the action
/// for the caller. `~` stands for the home directory of the current user,
/// which is looked up anew for each line; whatever the lookup gives, the
/// result is what `spec_dispatch` says for it.
pub fn dispatch(config: &mut RshConfig, line: &str) -> (action: Action)
    ensures
        exists|home: Option<Seq<char>>|
            (final(config)@, action@) == #[trigger] spec_dispatch(old(config)@, line@, home),
{
    let home = home_dir();
    match &home {
        Some(h) => {
            let action = dispatch_with_home(config, line, Some(h.as_str()));
            assert((config@, action@) == spec_dispatch(old(config)@, line@, Some(h@)));
            action
        },
        None => {
            let action = dispatch_with_home(config, line, None);
            assert((config@, action@) == spec_dispatch(old(config)@, line@, None));
            action
        },
    }
}

/// Finishes the built-in `source`. `lines` holds the lines of the file, or
/// nothing where the file does not exist. The lines are read into a fresh
/// configuration, whose aliases, functions and exported variables are then
/// merged into `config`. Returns the variables that the file exports, in the
/// order of its lines, for the caller to set in the process environment. A
/// missing file is an error and changes nothing.
pub fn source_rshrc(config: &mut RshConfig, lines: Option<&Vec<String>>) -> (result: Result<
    Vec<(String, String)>,
    ShellError,
>)
    ensures
        match lines {
            Some(l) => result is Ok && pair_views(result->Ok_0@) == spec_exports(views(l@))
                && final(config)@ == spec_source(old(config)@, views(l@)),
            None => result == Err::<Vec<(String, String)>, ShellError>(
                ShellError::SourceFileNotFound,
            ) && final(config)@ == old(config)@,
        },
{
    match lines {
        Some(l) => {
            let mut sourced = RshConfig::new();
            let exports = load_lines(&mut sourced, l);
            config.aliases.extend(&sourced.aliases);
            config.functions.extend(&sourced.functions);
            config.env_vars.extend(&sourced.env_vars);
            Ok(exports)
        },
        None => Err(ShellError::SourceFileNotFound),
    }
}

/// `unalias` of a name that is no alias is reported and leaves the
/// configuration as it was, the aliases and their number included.
pub proof fn lemma_unalias_of_unknown_name(c: ConfigView, line: Seq<char>, home: Option<Seq<char>>)
    requires
        spec_tokens(spec_trim(line)).len() >= 2,
        spec_tokens(spec_trim(line))[0] == "unalias"@,
        !c.aliases.contains_key(spec_tokens(spec_trim(line))[1]),
    ensures
        spec_dispatch(c, line, home) == (
            c,
            ActionView::Report { error: ShellError::UnaliasNotFound },
        ),
        spec_dispatch(c, line, home).0.aliases.len() == c.aliases.len(),
{
    reveal_strlit("unalias");
    reveal_strlit("exit");
    reveal_strlit("cd");
    reveal_strlit("help");
    reveal_strlit("alias");
    assert("unalias"@.len() == 7);
    assert("exit"@.len() == 4 && "cd"@.len() == 2 && "help"@.len() == 4 && "alias"@.len() == 5);
}

/// `unalias` of an alias removes it and nothing else.
pub proof fn lemma_unalias_removes(c: ConfigView, line: Seq<char>, home: Option<Seq<char>>)
    requires
        spec_tokens(spec_trim(line)).len() >= 2,
        spec_tokens(spec_trim(line))[0] == "unalias"@,
        c.aliases.contains_key(spec_tokens(spec_trim(line))[1]),
    ensures
        spec_dispatch(c, line, home) == (
            ConfigView { aliases: c.aliases.remove(spec_tokens(spec_trim(line))[1]), ..c },
            ActionView::Nothing,
        ),
{
    reveal_strlit("unalias");
    reveal_strlit("exit");
    reveal_strlit("cd");
    reveal_strlit("help");
    reveal_strlit("alias");
    assert("unalias"@.len() == 7);
    assert("exit"@.len() == 4 && "cd"@.len() == 2 && "help"@.len() == 4 && "alias"@.len() == 5);
}

/// `cd` without an argument does what `cd ~` does.
pub proof fn lemma_cd_defaults_to_home(
    c: ConfigView,
    bare: Seq<char>,
    explicit: Seq<char>,
    home: Option<Seq<char>>,
)
    requires
        spec_tokens(spec_trim(bare)) == seq!["cd"@],
        spec_tokens(spec_trim(explicit)) == seq!["cd"@, "~"@],
    ensures
        spec_dispatch(c, bare, home) == spec_dispatch(c, explicit, home),
{
    reveal_strlit("exit");
    reveal_strlit("cd");
}

/// `exit` hands out every exit hook, in the order in which the hooks were
/// added, and leaves the configuration as it was.
pub proof fn lemma_exit_runs_hooks_in_order(c: ConfigView, line: Seq<char>, home: Option<Seq<char>>)
    requires
        spec_tokens(spec_trim(line)).len() >= 1,
        spec_tokens(spec_trim(line))[0] == "exit"@,
    ensures
        spec_dispatch(c, line, home) == (c, ActionView::Exit { hooks: c.on_exit }),
{
}

/// A line that is reported changes nothing.
pub proof fn lemma_reported_line_changes_nothing(
    c: ConfigView,
    line: Seq<char>,
    home: Option<Seq<char>>,
)
    ensures
        spec_dispatch(c, line, home).1 is Report ==> spec_dispatch(c, line, home).0 == c,
{
}

/// A line of whitespace does nothing.
pub proof fn lemma_blank_line_is_ignored(c: ConfigView, line: Seq<char>, home: Option<Seq<char>>)
    requires
        spec_trim(line).len() == 0,
    ensures
        spec_dispatch(c, line, home) == (c, ActionView::Nothing),
{
}

/// No line changes the prompt, the hooks or the functions.
pub proof fn lemma_dispatch_keeps_prompt_and_hooks(
    c: ConfigView,
    line: Seq<char>,
    home: Option<Seq<char>>,
)
    ensures
        spec_dispatch(c, line, home).0.prompt == c.prompt,
        spec_dispatch(c, line, home).0.on_start == c.on_start,
        spec_dispatch(c, line, home).0.on_exit == c.on_exit,
        spec_dispatch(c, line, home).0.functions == c.functions,
{
}

/// Sourcing a file that defines an alias leaves that alias bound as the
/// file says, whatever it was bound to before; aliases that the file does
/// not define stay as they were.
pub proof fn lemma_source_overwrites(c: ConfigView, lines: Seq<Seq<char>>, name: Seq<char>)
    ensures
        spec_load(empty_config(), lines).aliases.contains_key(name) ==> spec_source(
            c,
            lines,
        ).aliases.contains_key(name) && spec_source(c, lines).aliases[name] == spec_load(
            empty_config(),
            lines,
        ).aliases[name],
        !spec_load(empty_config(), lines).aliases.contains_key(name) && c.aliases.contains_key(name)
            ==> spec_source(c, lines).aliases.contains_key(name) && spec_source(
            c,
            lines,
        ).aliases[name] == c.aliases[name],
{
}

/// An alias that a sourced file defines is afterwards bound as the last
/// line of the file for its name says, whatever it was bound to before.
pub proof fn lemma_sourced_alias_wins(
    c: ConfigView,
    lines: Seq<Seq<char>>,
    i: int,
    name: Seq<char>,
    value: Seq<char>,
)
    requires
        0 <= i < lines.len(),
        spec_parse_line(lines[i]) == (DirectiveView::Alias { name, value }),
        forall|j: int|
            i < j < lines.len() ==> !binds_alias(spec_parse_line(#[trigger] lines[j]), name),
    ensures
        spec_source(c, lines).aliases.contains_key(name),
        spec_source(c, lines).aliases[name] == value,
{
    lemma_last_alias_line_decides(empty_config(), lines, i, name, value);
}

/// Sourcing a file leaves the prompt and the hooks as they were.
pub proof fn lemma_source_keeps_prompt_and_hooks(c: ConfigView, lines: Seq<Seq<char>>)
    ensures
        spec_source(c, lines).prompt == c.prompt,
        spec_source(c, lines).on_start == c.on_start,
        spec_source(c, lines).on_exit == c.on_exit,
{
}

/// Whatever line is dispatched, `export PATH=...` included, a delegated
/// command still finds the enforced search path under `PATH`.
pub proof fn lemma_no_line_weakens_search_path(
    c: ConfigView,
    line: Seq<char>,
    home: Option<Seq<char>>,
)
    ensures
        spec_child_env(spec_dispatch(c, line, home).0).contains_key("PATH"@),
        spec_child_env(spec_dispatch(c, line, home).0)["PATH"@] == "/bin:/usr/bin"@,
{
}

} // verus!
