//! The environment policy: every delegated command runs with a fixed,
//! minimal search path, whatever the session has exported.

use crate::bindings::{is_listing, pair_views, Bindings};
use crate::config::{ConfigView, RshConfig};
use vstd::prelude::*;

verus! {

/// The environment that a delegated command is given on top of what it
/// inherits: the exported variables of the session, with `PATH` set to the
/// enforced search path in place of anything exported under that name.
pub open spec fn spec_child_env(c: ConfigView) -> Map<Seq<char>, Seq<char>> {
    c.env_vars.insert("PATH"@, "/bin:/usr/bin"@)
}

/// The search path that every delegated command runs with.
pub fn search_path() -> (path: &'static str)
    ensures
        path@ == "/bin:/usr/bin"@,
{
    "/bin:/usr/bin"
}

/// The variables to set for a delegated command, each name once.
pub fn child_environment(config: &RshConfig) -> (vars: Vec<(String, String)>)
    ensures
        is_listing(pair_views(vars@), spec_child_env(config@)),
{
    let mut env = Bindings::new();
    env.extend(&config.env_vars);
    assert(env@ =~= config@.env_vars);
    env.insert("PATH".to_owned(), search_path().to_owned());
    env.to_vec()
}

/// Whatever a session has exported, a delegated command finds the enforced
/// search path under `PATH`.
pub proof fn lemma_child_path_is_enforced(c: ConfigView)
    ensures
        spec_child_env(c).contains_key("PATH"@),
        spec_child_env(c)["PATH"@] == "/bin:/usr/bin"@,
{
}

} // verus!
