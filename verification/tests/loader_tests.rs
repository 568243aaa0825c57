use rsh::config::RshConfig;
use rsh::loader::{apply_directive, load_lines, load_rshrc, parse_line, unquote, Directive};

fn lines(text: &[&str]) -> Vec<String> {
    text.iter().map(|l| l.to_string()).collect()
}

fn load(text: &[&str]) -> RshConfig {
    let mut config = RshConfig::new();
    load_rshrc(&mut config, Some(&lines(text)));
    config
}

fn alias(name: &str, value: &str) -> Directive {
    Directive::Alias { name: name.to_string(), value: value.to_string() }
}

#[test]
fn new_configuration_is_empty() {
    let config = RshConfig::new();
    assert_eq!(config.aliases.len(), 0);
    assert_eq!(config.functions.len(), 0);
    assert_eq!(config.env_vars.len(), 0);
    assert_eq!(config.prompt, "");
    assert!(config.on_start.is_empty());
    assert!(config.on_exit.is_empty());
    let config = RshConfig::default();
    assert_eq!(config.aliases.len(), 0);
    assert_eq!(config.prompt, "");
}

#[test]
fn alias_line_is_loaded_without_its_quotes() {
    let config = load(&["alias ll='ls -la'"]);
    assert_eq!(config.aliases.get("ll"), Some(&"ls -la".to_string()));
    assert_eq!(config.aliases.len(), 1);
}

#[test]
fn alias_value_loses_one_layer_of_quotes() {
    assert_eq!(parse_line("alias a=\"x y\""), alias("a", "x y"));
    assert_eq!(parse_line("alias a=plain"), alias("a", "plain"));
    assert_eq!(parse_line("alias a=\"'inner'\""), alias("a", "'inner'"));
    assert_eq!(parse_line("alias a=''twice''"), alias("a", "'twice'"));
    assert_eq!(parse_line("alias a='open"), alias("a", "'open"));
    assert_eq!(parse_line("alias a='mixed\""), alias("a", "'mixed\""));
    assert_eq!(parse_line("alias a='"), alias("a", "'"));
    assert_eq!(parse_line("alias a=''"), alias("a", ""));
    assert_eq!(parse_line("alias a="), alias("a", ""));
}

#[test]
fn unquote_strips_matching_quotes_only() {
    assert_eq!(unquote("'ls -la'"), "ls -la");
    assert_eq!(unquote("\"ls\""), "ls");
    assert_eq!(unquote("ls"), "ls");
    assert_eq!(unquote("'ls\""), "'ls\"");
    assert_eq!(unquote("'"), "'");
    assert_eq!(unquote(""), "");
    assert_eq!(unquote("xlsx"), "xlsx");
}

#[test]
fn alias_name_and_value_are_trimmed() {
    assert_eq!(parse_line("  alias  gs = 'git status'  "), alias("gs", "git status"));
    assert_eq!(parse_line("alias k=v=w"), alias("k", "v=w"));
}

#[test]
fn alias_line_without_equals_is_ignored() {
    assert_eq!(parse_line("alias ll"), Directive::Ignored);
    assert_eq!(parse_line("alias"), Directive::Ignored);
}

#[test]
fn export_line_records_the_variable() {
    assert_eq!(
        parse_line("export EDITOR = vi "),
        Directive::Export { name: "EDITOR".to_string(), value: "vi".to_string() }
    );
    assert_eq!(
        parse_line("export Q='quoted'"),
        Directive::Export { name: "Q".to_string(), value: "'quoted'".to_string() }
    );
    assert_eq!(parse_line("export NOVALUE"), Directive::Ignored);
    let config = load(&["export EDITOR=vi", "export PAGER=less", "export EDITOR=ed"]);
    assert_eq!(config.env_vars.get("EDITOR"), Some(&"ed".to_string()));
    assert_eq!(config.env_vars.get("PAGER"), Some(&"less".to_string()));
    assert_eq!(config.env_vars.len(), 2);
}

#[test]
fn load_returns_the_exports_in_order() {
    let mut config = RshConfig::new();
    let exports = load_lines(
        &mut config,
        &lines(&["export A=1", "alias x=y", "export B=2", "# export C=3", "export A=3"]),
    );
    assert_eq!(
        exports,
        vec![
            ("A".to_string(), "1".to_string()),
            ("B".to_string(), "2".to_string()),
            ("A".to_string(), "3".to_string()),
        ]
    );
}

#[test]
fn prompt_line_sets_the_prompt() {
    assert_eq!(parse_line("prompt $ "), Directive::Prompt { text: "$".to_string() });
    assert_eq!(parse_line("prompt   > x"), Directive::Prompt { text: "  > x".to_string() });
    let config = load(&["prompt first> ", "prompt second>"]);
    assert_eq!(config.prompt, "second>");
}

#[test]
fn hook_lines_are_kept_in_order() {
    let config = load(&[
        "func on_start echo hi",
        "func on_exit echo bye",
        "func on_start date",
        "func on_exit sync",
    ]);
    assert_eq!(config.on_start, vec!["echo hi", "date"]);
    assert_eq!(config.on_exit, vec!["echo bye", "sync"]);
    assert_eq!(config.functions.len(), 0);
}

#[test]
fn start_hook_is_loaded_once() {
    let config = load(&["func on_start echo hi"]);
    assert_eq!(config.on_start, vec!["echo hi"]);
    assert!(config.on_exit.is_empty());
}

#[test]
fn function_line_defines_a_function() {
    assert_eq!(
        parse_line("func greet echo hello world"),
        Directive::Function { name: "greet".to_string(), body: "echo hello world".to_string() }
    );
    assert_eq!(
        parse_line("func greet   spaced  body"),
        Directive::Function { name: "greet".to_string(), body: "spaced  body".to_string() }
    );
    assert_eq!(parse_line("func lonely"), Directive::Ignored);
    assert_eq!(parse_line("func on_start"), Directive::Ignored);
    let config = load(&["func greet echo hi", "func greet echo ho"]);
    assert_eq!(config.functions.get("greet"), Some(&"echo ho".to_string()));
}

#[test]
fn hook_prefix_is_tried_before_the_function_prefix() {
    assert_eq!(
        parse_line("func on_start x"),
        Directive::OnStart { command: "x".to_string() }
    );
    assert_eq!(parse_line("func on_exit x"), Directive::OnExit { command: "x".to_string() });
    assert_eq!(
        parse_line("func on_started x"),
        Directive::Function { name: "on_started".to_string(), body: "x".to_string() }
    );
}

#[test]
fn comments_blanks_and_unknown_lines_are_ignored() {
    assert_eq!(parse_line(""), Directive::Ignored);
    assert_eq!(parse_line("   \t"), Directive::Ignored);
    assert_eq!(parse_line("# alias a=b"), Directive::Ignored);
    assert_eq!(parse_line("   #comment"), Directive::Ignored);
    assert_eq!(parse_line("plugin git"), Directive::Ignored);
    assert_eq!(parse_line("theme dark"), Directive::Ignored);
    assert_eq!(parse_line("unalias ll"), Directive::Ignored);
    assert_eq!(parse_line("aliasll=x"), Directive::Ignored);
    let config = load(&["# nothing", "", "plugin git", "theme dark"]);
    assert_eq!(config.aliases.len(), 0);
    assert_eq!(config.env_vars.len(), 0);
    assert_eq!(config.functions.len(), 0);
    assert_eq!(config.prompt, "");
}

#[test]
fn later_alias_line_wins() {
    let config = load(&["alias x=old", "alias y=other", "alias x=new"]);
    assert_eq!(config.aliases.get("x"), Some(&"new".to_string()));
    assert_eq!(config.aliases.get("y"), Some(&"other".to_string()));
    assert_eq!(config.aliases.len(), 2);
}

#[test]
fn apply_directive_changes_one_part() {
    let mut config = RshConfig::new();
    apply_directive(&mut config, alias("g", "git"));
    apply_directive(&mut config, Directive::Prompt { text: "> ".to_string() });
    apply_directive(&mut config, Directive::OnExit { command: "sync".to_string() });
    apply_directive(&mut config, Directive::Ignored);
    assert_eq!(config.aliases.get("g"), Some(&"git".to_string()));
    assert_eq!(config.prompt, "> ");
    assert_eq!(config.on_exit, vec!["sync"]);
    assert!(config.on_start.is_empty());
    assert_eq!(config.env_vars.len(), 0);
}

#[test]
fn whole_file_is_loaded() {
    let config = load(&[
        "# run-control",
        "alias ll='ls -la'",
        "alias g=\"git\"",
        "export EDITOR=vi",
        "prompt rsh> ",
        "func on_start echo hi",
        "func on_exit echo bye",
        "func greet echo hello",
        "theme dark",
    ]);
    assert_eq!(config.aliases.get("ll"), Some(&"ls -la".to_string()));
    assert_eq!(config.aliases.get("g"), Some(&"git".to_string()));
    assert_eq!(config.env_vars.get("EDITOR"), Some(&"vi".to_string()));
    assert_eq!(config.prompt, "rsh>");
    assert_eq!(config.on_start, vec!["echo hi"]);
    assert_eq!(config.on_exit, vec!["echo bye"]);
    assert_eq!(config.functions.get("greet"), Some(&"echo hello".to_string()));
}

#[test]
fn missing_prompt_is_defaulted() {
    let mut config = RshConfig::new();
    config.ensure_prompt();
    assert_eq!(config.prompt, "🦀❓> ");
    let mut config = load(&["prompt mine> "]);
    config.ensure_prompt();
    assert_eq!(config.prompt, "mine>");
}

#[test]
fn unreadable_file_loads_nothing() {
    let mut config = load(&["alias x=y", "prompt p> "]);
    let exports = load_rshrc(&mut config, None);
    assert!(exports.is_empty());
    assert_eq!(config.aliases.get("x"), Some(&"y".to_string()));
    assert_eq!(config.aliases.len(), 1);
    assert_eq!(config.prompt, "p>");
}
