//! Configuration: message templates, the question bank, and the
//! identifiers of the community, channels and role the engine works
//! with.
//!
//! Configuration is mutated only through explicit administrative
//! operations; the provider offers a consistent snapshot read and an
//! atomic replace.  Persisting the replaced value is the embedding
//! program's work.

use vstd::prelude::*;

verus! {

/// One question of the bank: a prompt, its candidate answers, and the
/// index of the correct answer.
pub struct Question {
    pub id: String,
    pub prompt: String,
    pub answers: Vec<String>,
    pub correct_answer: usize,
}

impl Question {
    /// The correct-answer index points into the candidate answers.
    pub open spec fn wf(&self) -> bool {
        self.correct_answer < self.answers@.len()
    }

    /// The text of the correct answer.
    pub open spec fn correct_text(&self) -> Seq<char> {
        self.answers@[self.correct_answer as int]@
    }
}

/// The message templates the engine sends.
pub struct Messages {
    pub greeting: String,
    pub verified: String,
    pub rejected: String,
}

/// The whole configuration.
pub struct AppConfig {
    pub token: String,
    pub application_id: u64,
    pub owner_id: u64,
    pub active_guild_id: u64,
    pub greeting_channel_id: u64,
    pub messages: Messages,
    pub log_channel_id: u64,
    pub verified_role_id: u64,
    pub ckey_prompt: String,
    pub questions: Vec<Question>,
    pub whitelist_path: String,
}

impl AppConfig {
    /// Every question of the bank is well formed.
    pub open spec fn wf(&self) -> bool {
        forall|i: int| 0 <= i < self.questions@.len() ==> (#[trigger] self.questions@[i]).wf()
    }
}

/// Whether every question of the bank is well formed; a configuration
/// read from disk should pass this check before the engine uses it.
pub fn config_wf(config: &AppConfig) -> (r: bool)
    ensures
        r == config.wf(),
{
    let n = config.questions.len();
    let mut i: usize = 0;
    while i < n
        invariant
            i <= n,
            n == config.questions@.len(),
            forall|j: int| 0 <= j < i ==> (#[trigger] config.questions@[j]).wf(),
        decreases n - i,
    {
        let q = &config.questions[i];
        if q.correct_answer >= q.answers.len() {
            return false;
        }
        i += 1;
    }
    true
}

/// Holds the configuration behind a consistent snapshot read and an
/// atomic replace.
pub struct ConfigStore {
    config: AppConfig,
}

impl ConfigStore {
    /// The configuration currently held.
    pub closed spec fn current(&self) -> AppConfig {
        self.config
    }

    /// Wraps an initial configuration.
    pub fn new(config: AppConfig) -> (r: ConfigStore)
        ensures
            r.current() == config,
    {
        ConfigStore { config }
    }

    /// A consistent read of the configuration.
    pub fn get(&self) -> (r: &AppConfig)
        ensures
            *r == self.current(),
    {
        &self.config
    }

    /// Replaces the configuration; the new value needs to be persisted.
    pub fn replace(&mut self, config: AppConfig) -> (previous: AppConfig)
        ensures
            final(self).current() == config,
            previous == old(self).current(),
    {
        let mut previous = config;
        core::mem::swap(&mut self.config, &mut previous);
        previous
    }
}

} // verus!
