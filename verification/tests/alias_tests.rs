use rsh::alias::expand_alias;
use rsh::bindings::Bindings;

fn table(pairs: &[(&str, &str)]) -> Bindings {
    let mut bindings = Bindings::new();
    for (name, value) in pairs {
        bindings.insert(name.to_string(), value.to_string());
    }
    bindings
}

#[test]
fn alias_with_arguments_is_expanded() {
    let aliases = table(&[("g", "git")]);
    assert_eq!(expand_alias("g status -s", &aliases), "git status -s");
}

#[test]
fn alias_alone_is_the_replacement() {
    let aliases = table(&[("ll", "ls -la")]);
    assert_eq!(expand_alias("ll", &aliases), "ls -la");
    assert_eq!(expand_alias("  ll  ", &aliases), "ls -la");
}

#[test]
fn arguments_of_an_alias_are_joined_by_single_spaces() {
    let aliases = table(&[("g", "git")]);
    assert_eq!(expand_alias("  g   log \t --oneline  ", &aliases), "git log --oneline");
}

#[test]
fn line_without_alias_is_kept_verbatim() {
    let aliases = table(&[("g", "git")]);
    assert_eq!(expand_alias("echo   a   b", &aliases), "echo   a   b");
    assert_eq!(expand_alias("git g", &aliases), "git g");
    assert_eq!(expand_alias("gg status", &aliases), "gg status");
}

#[test]
fn no_aliases_leave_every_line_as_it_is() {
    let none = Bindings::new();
    for line in ["", "   ", "ls", "  spaced  out  ", "g status -s", "\ttab\t"] {
        assert_eq!(expand_alias(line, &none), line);
    }
}

#[test]
fn replacement_is_not_expanded_again() {
    let aliases = table(&[("a", "b x"), ("b", "c")]);
    assert_eq!(expand_alias("a y", &aliases), "b x y");
}

#[test]
fn replacement_is_kept_as_it_was_defined() {
    let aliases = table(&[("ll", "ls  -la ")]);
    assert_eq!(expand_alias("ll /tmp", &aliases), "ls  -la  /tmp");
}
