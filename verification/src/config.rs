//! The session's configuration: aliases, functions, exported variables,
//! the prompt and the lifecycle hooks.

use crate::bindings::Bindings;
use crate::text::views;
use vstd::prelude::*;

verus! {

/// The state of a session. The three mappings are keyed by name; the two
/// hook sequences keep the order in which the hooks were added.
pub struct RshConfig {
    pub aliases: Bindings,
    pub functions: Bindings,
    pub env_vars: Bindings,
    pub prompt: String,
    pub on_start: Vec<String>,
    pub on_exit: Vec<String>,
}

/// What a configuration holds, as mathematical values.
pub struct ConfigView {
    pub aliases: Map<Seq<char>, Seq<char>>,
    pub functions: Map<Seq<char>, Seq<char>>,
    pub env_vars: Map<Seq<char>, Seq<char>>,
    pub prompt: Seq<char>,
    pub on_start: Seq<Seq<char>>,
    pub on_exit: Seq<Seq<char>>,
}

/// The configuration that holds nothing.
pub open spec fn empty_config() -> ConfigView {
    ConfigView {
        aliases: Map::empty(),
        functions: Map::empty(),
        env_vars: Map::empty(),
        prompt: Seq::empty(),
        on_start: Seq::empty(),
        on_exit: Seq::empty(),
    }
}

/// The prompt of a session whose run-control file sets none.
pub open spec fn default_prompt() -> Seq<char> {
    "\u{1f980}\u{2753}> "@
}

impl View for RshConfig {
    type V = ConfigView;

    open spec fn view(&self) -> ConfigView {
        ConfigView {
            aliases: self.aliases@,
            functions: self.functions@,
            env_vars: self.env_vars@,
            prompt: self.prompt@,
            on_start: views(self.on_start@),
            on_exit: views(self.on_exit@),
        }
    }
}

impl RshConfig {
    /// A configuration that holds nothing.
    pub fn new() -> (config: RshConfig)
        ensures
            config@ == empty_config(),
    {
        let config = RshConfig {
            aliases: Bindings::new(),
            functions: Bindings::new(),
            env_vars: Bindings::new(),
            prompt: String::new(),
            on_start: Vec::new(),
            on_exit: Vec::new(),
        };
        assert(views(config.on_start@) =~= Seq::<Seq<char>>::empty());
        assert(views(config.on_exit@) =~= Seq::<Seq<char>>::empty());
        config
    }

    /// Gives the configuration the default prompt where it has none.
    pub fn ensure_prompt(&mut self)
        ensures
            final(self)@ == (ConfigView {
                prompt: if old(self)@.prompt.len() == 0 {
                    default_prompt()
                } else {
                    old(self)@.prompt
                },
                ..old(self)@
            }),
    {
        if self.prompt.as_str().unicode_len() == 0 {
            self.prompt = "\u{1f980}\u{2753}> ".to_owned();
        }
    }
}

impl Default for RshConfig {
    fn default() -> (config: RshConfig)
        ensures
            config@ == empty_config(),
    {
        RshConfig::new()
    }
}

} // verus!
