use vstd::prelude::*;

verus! {

/// Default cooldown, in seconds, applied to the guild and to each phrase.
pub const DEFAULT_COOLDOWN: u16 = 60;

/// Default chance, in percent, that an eligible message is answered.
pub const DEFAULT_CHANCE: u8 = 25;

/// Default budget, in characters, of the context window.
pub const DEFAULT_MAX_CONTEXT_LEN: usize = 512;

/// Default minimum score a phrase must reach to be sent.
pub const DEFAULT_MINIMUM_SCORE: u16 = 20;

/// Tunable parameters of one guild.
#[derive(Clone, Copy, Debug, PartialEq, Eq, Structural)]
pub struct Config {
    /// Lowest oracle score that still lets a phrase be sent.
    pub minimum_score: u16,
    /// Budget, in characters, of the query built from recent messages.
    pub max_context_len: usize,
    /// Chance, in percent (0 to 100), that an eligible message is answered.
    pub chance: u8,
    /// Seconds that must pass between two responses of the guild, and
    /// between two uses of one phrase.
    pub cooldown: u16,
}

impl Config {
    /// A configuration is accepted only with a chance within 0..=100.
    pub open spec fn valid(&self) -> bool {
        self.chance <= 100
    }

    pub open spec fn spec_default() -> Config {
        Config {
            minimum_score: DEFAULT_MINIMUM_SCORE,
            max_context_len: DEFAULT_MAX_CONTEXT_LEN,
            chance: DEFAULT_CHANCE,
            cooldown: DEFAULT_COOLDOWN,
        }
    }

    /// Checks the configuration's bounds.
    pub fn is_valid(&self) -> (r: bool)
        ensures
            r == self.valid(),
    {
        self.chance <= 100
    }
}

impl Default for Config {
    fn default() -> (r: Config)
        ensures
            r == Config::spec_default(),
            r.valid(),
    {
        Config {
            minimum_score: DEFAULT_MINIMUM_SCORE,
            max_context_len: DEFAULT_MAX_CONTEXT_LEN,
            chance: DEFAULT_CHANCE,
            cooldown: DEFAULT_COOLDOWN,
        }
    }
}

} // verus!
