//! The lines that the built-ins `alias` and `set` print.

use crate::bindings::{is_listing, pair_views};
use crate::config::RshConfig;
use crate::text::views;
use vstd::prelude::*;

verus! {

/// The line that shows one alias: `alias NAME='VALUE'`.
pub open spec fn spec_alias_line(name: Seq<char>, value: Seq<char>) -> Seq<char> {
    "alias "@ + name + "='"@ + value + "'"@
}

/// The line that shows one exported variable: `NAME=VALUE`.
pub open spec fn spec_env_line(name: Seq<char>, value: Seq<char>) -> Seq<char> {
    name + "="@ + value
}

/// Whether `lines` shows the aliases `pairs`, one line for each, in order.
pub open spec fn shows_aliases(lines: Seq<Seq<char>>, pairs: Seq<(Seq<char>, Seq<char>)>) -> bool {
    &&& lines.len() == pairs.len()
    &&& forall|i: int|
        0 <= i < lines.len() ==> #[trigger] lines[i] == spec_alias_line(pairs[i].0, pairs[i].1)
}

/// Whether `lines` shows the variables `pairs`, one line for each, in
/// order.
pub open spec fn shows_variables(
    lines: Seq<Seq<char>>,
    pairs: Seq<(Seq<char>, Seq<char>)>,
) -> bool {
    &&& lines.len() == pairs.len()
    &&& forall|i: int|
        0 <= i < lines.len() ==> #[trigger] lines[i] == spec_env_line(pairs[i].0, pairs[i].1)
}

/// The line that shows the alias `name`.
pub fn alias_line(name: &str, value: &str) -> (line: String)
    ensures
        line@ == spec_alias_line(name@, value@),
{
    let mut line = "alias ".to_owned();
    line.append(name);
    line.append("='");
    line.append(value);
    line.append("'");
    line
}

/// The line that shows the exported variable `name`.
pub fn env_line(name: &str, value: &str) -> (line: String)
    ensures
        line@ == spec_env_line(name@, value@),
{
    let mut line = name.to_owned();
    line.append("=");
    line.append(value);
    line
}

/// What the built-in `alias` prints: one line for each alias, in no
/// particular order.
pub fn alias_lines(config: &RshConfig) -> (lines: Vec<String>)
    ensures
        exists|pairs: Seq<(Seq<char>, Seq<char>)>|
            is_listing(pairs, config@.aliases) && #[trigger] shows_aliases(views(lines@), pairs),
{
    let pairs = config.aliases.to_vec();
    let mut lines: Vec<String> = Vec::new();
    let n: usize = pairs.len();
    let mut i: usize = 0;
    let ghost shown = pair_views(pairs@);
    while i < n
        invariant
            n == pairs@.len(),
            i <= n,
            shown == pair_views(pairs@),
            shows_aliases(views(lines@), shown.take(i as int)),
        decreases n - i,
    {
        let line = alias_line(pairs[i].0.as_str(), pairs[i].1.as_str());
        proof {
            let next = views(lines@.push(line));
            assert(next =~= views(lines@).push(line@));
            assert forall|k: int| 0 <= k < next.len() implies #[trigger] next[k] == spec_alias_line(
                shown.take(i + 1)[k].0,
                shown.take(i + 1)[k].1,
            ) by {
                if k < i {
                    assert(next[k] == views(lines@)[k]);
                    assert(shown.take(i + 1)[k] == shown.take(i as int)[k]);
                }
            }
        }
        lines.push(line);
        i += 1;
    }
    assert(shown.take(n as int) =~= shown);
    lines
}

/// What the built-in `set` prints: one line for each exported variable, in
/// no particular order.
pub fn env_lines(config: &RshConfig) -> (lines: Vec<String>)
    ensures
        exists|pairs: Seq<(Seq<char>, Seq<char>)>|
            is_listing(pairs, config@.env_vars) && #[trigger] shows_variables(
                views(lines@),
                pairs,
            ),
{
    let pairs = config.env_vars.to_vec();
    let mut lines: Vec<String> = Vec::new();
    let n: usize = pairs.len();
    let mut i: usize = 0;
    let ghost shown = pair_views(pairs@);
    while i < n
        invariant
            n == pairs@.len(),
            i <= n,
            shown == pair_views(pairs@),
            shows_variables(views(lines@), shown.take(i as int)),
        decreases n - i,
    {
        let line = env_line(pairs[i].0.as_str(), pairs[i].1.as_str());
        proof {
            let next = views(lines@.push(line));
            assert(next =~= views(lines@).push(line@));
            assert forall|k: int| 0 <= k < next.len() implies #[trigger] next[k] == spec_env_line(
                shown.take(i + 1)[k].0,
                shown.take(i + 1)[k].1,
            ) by {
                if k < i {
                    assert(next[k] == views(lines@)[k]);
                    assert(shown.take(i + 1)[k] == shown.take(i as int)[k]);
                }
            }
        }
        lines.push(line);
        i += 1;
    }
    assert(shown.take(n as int) =~= shown);
    lines
}

} // verus!
