//! Tilde expansion of user-supplied paths.

use crate::text::starts_with;
use vstd::prelude::*;

verus! {

/// `path` with its leading `~` replaced by the home directory. A path without
/// a leading `~` stays as it is, and so does every path when no home
/// directory is known.
pub open spec fn spec_expand_tilde(path: Seq<char>, home: Option<Seq<char>>) -> Seq<char> {
    match home {
        Some(h) => if path.len() > 0 && path[0] == '~' {
            h + path.skip(1)
        } else {
            path
        },
        None => path,
    }
}

/// The home directory of the current user, as `dirs::home_dir` resolves it
/// from the environment and the user database. Nothing is claimed of the
/// answer: it may be absent, and it may differ from one call to the next.
#[verifier::external_body]
pub(crate) fn home_dir() -> (home: Option<String>) {
    match dirs::home_dir() {
        Some(dir) => Some(dir.to_string_lossy().into_owned()),
        None => None,
    }
}

/// Whether `path` begins with `~`.
pub fn has_tilde(path: &str) -> (b: bool)
    ensures
        b == (path@.len() > 0 && path@[0] == '~'),
{
    let b = starts_with(path, "~");
    proof {
        reveal_strlit("~");
        if path@.len() > 0 {
            assert(path@.subrange(0, 1)[0] == path@[0]);
        }
        if path@.len() > 0 && path@[0] == '~' {
            assert("~"@ =~= path@.subrange(0, 1));
        }
    }
    b
}

/// Expands a leading `~` in `path` to the given home directory.
pub fn expand_tilde_with(path: &str, home: Option<&str>) -> (expanded: String)
    ensures
        expanded@ == spec_expand_tilde(
            path@,
            match home {
                Some(h) => Some(h@),
                None => None,
            },
        ),
{
    match home {
        Some(h) => {
            if has_tilde(path) {
                let n: usize = path.unicode_len();
                let mut expanded = h.to_owned();
                expanded.append(path.substring_char(1, n));
                assert(expanded@ =~= h@ + path@.skip(1));
                expanded
            } else {
                path.to_owned()
            }
        },
        None => path.to_owned(),
    }
}

/// Expands a leading `~` in `path` to the home directory of the current
/// user. The home directory is looked up only for a path that begins with
/// `~`; when none can be resolved the path is returned unchanged.
pub fn expand_tilde(path: &str) -> (expanded: String)
    ensures
        exists|home: Option<Seq<char>>| expanded@ == #[trigger] spec_expand_tilde(path@, home),
        path@.len() == 0 || path@[0] != '~' ==> expanded@ == path@,
{
    if has_tilde(path) {
        let home = home_dir();
        match &home {
            Some(h) => {
                let expanded = expand_tilde_with(path, Some(h.as_str()));
                assert(expanded@ == spec_expand_tilde(path@, Some(h@)));
                expanded
            },
            None => {
                assert(path@ == spec_expand_tilde(path@, None));
                path.to_owned()
            },
        }
    } else {
        assert(path@ == spec_expand_tilde(path@, None));
        path.to_owned()
    }
}

} // verus!
