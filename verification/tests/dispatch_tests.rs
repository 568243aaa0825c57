use rsh::config::RshConfig;
use rsh::dispatch::{
    dispatch, dispatch_with_home, run_function, source_rshrc, Action, ShellError,
};
use rsh::listing::{alias_line, alias_lines, env_line, env_lines};
use rsh::loader::load_rshrc;
use rsh::policy::{child_environment, search_path};

fn lines(text: &[&str]) -> Vec<String> {
    text.iter().map(|l| l.to_string()).collect()
}

fn loaded(text: &[&str]) -> RshConfig {
    let mut config = RshConfig::new();
    load_rshrc(&mut config, Some(&lines(text)));
    config
}

fn run(command: &str) -> Action {
    Action::Run { command: command.to_string() }
}

fn report(error: ShellError) -> Action {
    Action::Report { error }
}

#[test]
fn blank_line_does_nothing() {
    let mut config = loaded(&["alias x=y"]);
    assert_eq!(dispatch_with_home(&mut config, "", None), Action::Nothing);
    assert_eq!(dispatch_with_home(&mut config, "   \t ", None), Action::Nothing);
    assert_eq!(config.aliases.len(), 1);
}

#[test]
fn exit_hands_out_the_exit_hooks_in_order() {
    let mut config =
        loaded(&["func on_exit echo one", "func on_exit echo two", "func on_exit echo three"]);
    assert_eq!(
        dispatch_with_home(&mut config, "exit", None),
        Action::Exit {
            hooks: vec!["echo one".to_string(), "echo two".to_string(), "echo three".to_string()]
        }
    );
    assert_eq!(
        dispatch_with_home(&mut RshConfig::new(), " exit now ", None),
        Action::Exit { hooks: vec![] }
    );
}

#[test]
fn cd_expands_the_tilde() {
    let mut config = RshConfig::new();
    assert_eq!(
        dispatch_with_home(&mut config, "cd ~/src", Some("/home/ada")),
        Action::ChangeDir { path: "/home/ada/src".to_string() }
    );
    assert_eq!(
        dispatch_with_home(&mut config, "cd /tmp extra", Some("/home/ada")),
        Action::ChangeDir { path: "/tmp".to_string() }
    );
    assert_eq!(
        dispatch_with_home(&mut config, "cd ~", None),
        Action::ChangeDir { path: "~".to_string() }
    );
}

#[test]
fn cd_without_argument_goes_home() {
    let mut config = RshConfig::new();
    assert_eq!(
        dispatch_with_home(&mut config, "cd", Some("/home/ada")),
        Action::ChangeDir { path: "/home/ada".to_string() }
    );
    assert_eq!(
        dispatch_with_home(&mut config, "cd", Some("/home/ada")),
        dispatch_with_home(&mut config, "cd ~", Some("/home/ada"))
    );
    assert_eq!(
        dispatch_with_home(&mut config, "  cd  ", None),
        dispatch_with_home(&mut config, "cd ~", None)
    );
}

#[test]
fn help_alias_and_set_ask_for_output() {
    let mut config = RshConfig::new();
    assert_eq!(dispatch_with_home(&mut config, "help", None), Action::ShowHelp);
    assert_eq!(dispatch_with_home(&mut config, "help me", None), Action::ShowHelp);
    assert_eq!(dispatch_with_home(&mut config, "alias", None), Action::ListAliases);
    assert_eq!(dispatch_with_home(&mut config, "set", None), Action::ListEnv);
}

#[test]
fn alias_builtin_defines_nothing() {
    let mut config = RshConfig::new();
    assert_eq!(dispatch_with_home(&mut config, "alias x=y", None), Action::ListAliases);
    assert_eq!(config.aliases.len(), 0);
}

#[test]
fn unalias_removes_the_alias() {
    let mut config = loaded(&["alias ll='ls -la'", "alias g=git"]);
    assert_eq!(dispatch_with_home(&mut config, "unalias ll", None), Action::Nothing);
    assert_eq!(config.aliases.get("ll"), None);
    assert_eq!(config.aliases.get("g"), Some(&"git".to_string()));
    assert_eq!(config.aliases.len(), 1);
}

#[test]
fn unalias_of_unknown_name_is_reported_and_changes_nothing() {
    let mut config = loaded(&["alias ll='ls -la'", "alias g=git"]);
    let before = config.aliases.len();
    assert_eq!(
        dispatch_with_home(&mut config, "unalias nope", None),
        report(ShellError::UnaliasNotFound)
    );
    assert_eq!(config.aliases.len(), before);
    assert_eq!(config.aliases.get("ll"), Some(&"ls -la".to_string()));
    assert_eq!(config.aliases.get("g"), Some(&"git".to_string()));
}

#[test]
fn unalias_without_name_is_reported() {
    let mut config = loaded(&["alias g=git"]);
    assert_eq!(
        dispatch_with_home(&mut config, "unalias", None),
        report(ShellError::UnaliasMissingArgument)
    );
    assert_eq!(config.aliases.len(), 1);
}

#[test]
fn export_records_and_sets_the_variable() {
    let mut config = RshConfig::new();
    assert_eq!(
        dispatch_with_home(&mut config, "export EDITOR=vi", None),
        Action::SetEnv { name: "EDITOR".to_string(), value: "vi".to_string() }
    );
    assert_eq!(config.env_vars.get("EDITOR"), Some(&"vi".to_string()));
    assert_eq!(
        dispatch_with_home(&mut config, "export A=b=c ignored", None),
        Action::SetEnv { name: "A".to_string(), value: "b=c".to_string() }
    );
    assert_eq!(config.env_vars.get("A"), Some(&"b=c".to_string()));
    assert_eq!(
        dispatch_with_home(&mut config, "export EMPTY=", None),
        Action::SetEnv { name: "EMPTY".to_string(), value: "".to_string() }
    );
    assert_eq!(config.env_vars.len(), 3);
}

#[test]
fn export_without_equals_is_reported() {
    let mut config = RshConfig::new();
    assert_eq!(
        dispatch_with_home(&mut config, "export EDITOR", None),
        report(ShellError::ExportInvalidSyntax)
    );
    assert_eq!(
        dispatch_with_home(&mut config, "export", None),
        report(ShellError::ExportMissingArgument)
    );
    assert_eq!(config.env_vars.len(), 0);
}

#[test]
fn source_asks_for_the_file() {
    let mut config = RshConfig::new();
    assert_eq!(
        dispatch_with_home(&mut config, "source ~/.rshrc", Some("/home/ada")),
        Action::Source { path: "/home/ada/.rshrc".to_string() }
    );
    assert_eq!(
        dispatch_with_home(&mut config, "source extra.rc", Some("/home/ada")),
        Action::Source { path: "extra.rc".to_string() }
    );
    assert_eq!(
        dispatch_with_home(&mut config, "source", None),
        report(ShellError::SourceMissingFile)
    );
}

#[test]
fn sourced_alias_replaces_the_loaded_one() {
    let mut config = loaded(&["alias x=old"]);
    assert_eq!(config.aliases.get("x"), Some(&"old".to_string()));
    let exports = source_rshrc(&mut config, Some(&lines(&["alias x=new"])));
    assert_eq!(exports, Ok(vec![]));
    assert_eq!(config.aliases.get("x"), Some(&"new".to_string()));
    assert_eq!(config.aliases.len(), 1);
}

#[test]
fn source_merges_mappings_and_keeps_prompt_and_hooks() {
    let mut config = loaded(&[
        "alias keep=k",
        "export A=1",
        "func f echo f",
        "prompt mine> ",
        "func on_start echo start",
        "func on_exit echo exit",
    ]);
    let exports = source_rshrc(
        &mut config,
        Some(&lines(&[
            "alias more=m",
            "export A=2",
            "export B=3",
            "func f echo g",
            "prompt theirs> ",
            "func on_start echo other",
            "func on_exit echo other",
        ])),
    );
    assert_eq!(
        exports,
        Ok(vec![("A".to_string(), "2".to_string()), ("B".to_string(), "3".to_string())])
    );
    assert_eq!(config.aliases.get("keep"), Some(&"k".to_string()));
    assert_eq!(config.aliases.get("more"), Some(&"m".to_string()));
    assert_eq!(config.env_vars.get("A"), Some(&"2".to_string()));
    assert_eq!(config.env_vars.get("B"), Some(&"3".to_string()));
    assert_eq!(config.functions.get("f"), Some(&"echo g".to_string()));
    assert_eq!(config.prompt, "mine>");
    assert_eq!(config.on_start, vec!["echo start"]);
    assert_eq!(config.on_exit, vec!["echo exit"]);
}

#[test]
fn source_of_missing_file_is_reported_and_changes_nothing() {
    let mut config = loaded(&["alias x=old"]);
    assert_eq!(source_rshrc(&mut config, None), Err(ShellError::SourceFileNotFound));
    assert_eq!(config.aliases.get("x"), Some(&"old".to_string()));
    assert_eq!(config.aliases.len(), 1);
}

#[test]
fn func_runs_the_body() {
    let mut config = loaded(&["func greet echo hello world"]);
    assert_eq!(dispatch_with_home(&mut config, "func greet", None), run("echo hello world"));
    assert_eq!(dispatch_with_home(&mut config, "func greet now", None), run("echo hello world"));
    assert_eq!(run_function("greet", &config), run("echo hello world"));
}

#[test]
fn func_of_unknown_name_does_nothing() {
    let mut config = loaded(&["func greet echo hello"]);
    assert_eq!(dispatch_with_home(&mut config, "func other", None), Action::Nothing);
    assert_eq!(run_function("other", &config), Action::Nothing);
}

#[test]
fn func_without_name_is_reported() {
    let mut config = RshConfig::new();
    assert_eq!(
        dispatch_with_home(&mut config, "func", None),
        report(ShellError::FuncMissingName)
    );
}

#[test]
fn other_line_is_expanded_and_delegated() {
    let mut config = loaded(&["alias g=git", "alias ll='ls -la'"]);
    assert_eq!(dispatch_with_home(&mut config, "g status -s", None), run("git status -s"));
    assert_eq!(dispatch_with_home(&mut config, "  g   status   -s  ", None), run("git status -s"));
    assert_eq!(dispatch_with_home(&mut config, "ll", None), run("ls -la"));
    assert_eq!(dispatch_with_home(&mut config, "  echo   a  b ", None), run("echo   a  b"));
    assert_eq!(dispatch_with_home(&mut config, "exits", None), run("exits"));
}

#[test]
fn alias_is_expanded_one_layer_deep() {
    let mut config = loaded(&["alias a=b", "alias b=c"]);
    assert_eq!(dispatch_with_home(&mut config, "a x", None), run("b x"));
}

#[test]
fn builtin_is_not_shadowed_by_an_alias() {
    let mut config = loaded(&["alias help=man", "alias exit=true"]);
    assert_eq!(dispatch_with_home(&mut config, "help", None), Action::ShowHelp);
    assert_eq!(dispatch_with_home(&mut config, "exit", None), Action::Exit { hooks: vec![] });
}

#[test]
fn dispatch_uses_the_home_directory_of_the_user() {
    let mut config = loaded(&["alias g=git"]);
    assert_eq!(dispatch(&mut config, "g log"), run("git log"));
    assert_eq!(dispatch(&mut config, "cd /tmp"), Action::ChangeDir { path: "/tmp".to_string() });
    let home = match dirs::home_dir() {
        Some(home) => home.to_string_lossy().into_owned(),
        None => "~".to_string(),
    };
    assert_eq!(dispatch(&mut config, "cd"), Action::ChangeDir { path: home.clone() });
    assert_eq!(
        dispatch(&mut config, "source ~/x"),
        Action::Source { path: format!("{}/x", home) }
    );
}

#[test]
fn each_error_has_its_message() {
    assert_eq!(ShellError::UnaliasMissingArgument.message(), "unalias: missing argument");
    assert_eq!(ShellError::UnaliasNotFound.message(), "unalias: no such alias");
    assert_eq!(ShellError::ExportInvalidSyntax.message(), "export: invalid syntax");
    assert_eq!(ShellError::ExportMissingArgument.message(), "export: missing argument");
    assert_eq!(ShellError::SourceFileNotFound.message(), "source: file not found");
    assert_eq!(ShellError::SourceMissingFile.message(), "source: missing file");
    assert_eq!(ShellError::FuncMissingName.message(), "func: missing function name");
}

#[test]
fn aliases_are_listed_one_per_line() {
    let config = loaded(&["alias ll='ls -la'", "alias g=git"]);
    let mut shown = alias_lines(&config);
    shown.sort();
    assert_eq!(shown, vec!["alias g='git'", "alias ll='ls -la'"]);
    assert_eq!(alias_line("ll", "ls -la"), "alias ll='ls -la'");
    assert_eq!(alias_lines(&RshConfig::new()), Vec::<String>::new());
}

#[test]
fn variables_are_listed_one_per_line() {
    let mut config = RshConfig::new();
    dispatch_with_home(&mut config, "export EDITOR=vi", None);
    dispatch_with_home(&mut config, "export PAGER=less", None);
    dispatch_with_home(&mut config, "export EDITOR=ed", None);
    let mut shown = env_lines(&config);
    shown.sort();
    assert_eq!(shown, vec!["EDITOR=ed", "PAGER=less"]);
    assert_eq!(env_line("A", "1"), "A=1");
}

#[test]
fn search_path_is_minimal() {
    assert_eq!(search_path(), "/bin:/usr/bin");
}

#[test]
fn exported_path_does_not_reach_delegated_commands() {
    let mut config = RshConfig::new();
    assert_eq!(
        dispatch_with_home(&mut config, "export PATH=/whatever", None),
        Action::SetEnv { name: "PATH".to_string(), value: "/whatever".to_string() }
    );
    dispatch_with_home(&mut config, "export EDITOR=vi", None);
    let mut env = child_environment(&config);
    env.sort();
    assert_eq!(
        env,
        vec![
            ("EDITOR".to_string(), "vi".to_string()),
            ("PATH".to_string(), "/bin:/usr/bin".to_string()),
        ]
    );
    assert_eq!(config.env_vars.get("PATH"), Some(&"/whatever".to_string()));
}

#[test]
fn child_environment_always_holds_the_search_path() {
    assert_eq!(
        child_environment(&RshConfig::new()),
        vec![("PATH".to_string(), "/bin:/usr/bin".to_string())]
    );
    let config = loaded(&["export PATH=/opt/evil/bin"]);
    assert_eq!(
        child_environment(&config),
        vec![("PATH".to_string(), "/bin:/usr/bin".to_string())]
    );
}
