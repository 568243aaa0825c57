//! Alias expansion: rewriting the first word of a command line.

use crate::bindings::Bindings;
use crate::text::{join, spec_join, spec_tokens, split_whitespace, views};
use vstd::prelude::*;

verus! {

/// The line after alias expansion. Where the first token of the line is an
/// alias, the result is what the alias stands for, followed, if more tokens
/// remain, by a space and those tokens joined by single spaces. Any other
/// line is the result as it is. What the alias stands for is not looked at
/// again.
pub open spec fn spec_expand_alias(line: Seq<char>, aliases: Map<Seq<char>, Seq<char>>) -> Seq<
    char,
> {
    let tokens = spec_tokens(line);
    if tokens.len() > 0 && aliases.contains_key(tokens[0]) {
        if tokens.len() == 1 {
            aliases[tokens[0]]
        } else {
            aliases[tokens[0]] + seq![' '] + spec_join(tokens.skip(1))
        }
    } else {
        line
    }
}

/// Expands the alias at the head of `line`, if there is one.
pub fn expand_alias(line: &str, aliases: &Bindings) -> (expanded: String)
    ensures
        expanded@ == spec_expand_alias(line@, aliases@),
        spec_tokens(line@).len() == 0 || !aliases@.contains_key(spec_tokens(line@)[0])
            ==> expanded@ == line@,
{
    let mut tokens = split_whitespace(line);
    if tokens.len() == 0 {
        return line.to_owned();
    }
    match aliases.get(tokens[0].as_str()) {
        Some(replacement) => {
            let mut expanded = replacement.clone();
            if tokens.len() > 1 {
                let ghost all = views(tokens@);
                let _ = tokens.remove(0);
                assert(views(tokens@) =~= all.skip(1));
                let rest = join(&tokens);
                proof {
                    reveal_strlit(" ");
                    assert(" "@ =~= seq![' ']);
                }
                expanded.append(" ");
                expanded.append(rest.as_str());
            }
            expanded
        },
        None => line.to_owned(),
    }
}

/// A line whose first token is no alias is its own expansion; so is a line
/// without tokens.
pub proof fn lemma_expand_alias_without_match(line: Seq<char>, aliases: Map<Seq<char>, Seq<char>>)
    requires
        spec_tokens(line).len() == 0 || !aliases.contains_key(spec_tokens(line)[0]),
    ensures
        spec_expand_alias(line, aliases) == line,
{
}

/// With no aliases defined every line is its own expansion.
pub proof fn lemma_expand_alias_empty(line: Seq<char>)
    ensures
        spec_expand_alias(line, Map::empty()) == line,
{
}

} // verus!
