//! Hot reload of the configuration. A watcher outside this crate observes the
//! config file's directory and re-parses the file on change; this module
//! holds the shared snapshot, the keep-old-on-parse-failure rule, and the
//! decision of whether a filesystem event concerns the config file at all.

use vstd::prelude::*;
use crate::config::{Config, ConfigV};
use crate::rule_engine::match_spec;

verus! {

/// The shared configuration: readers take whole snapshots; a reload replaces
/// the snapshot in one step, so no reader ever sees a half-updated rule set.
pub struct ConfigStore {
    pub current: Config,
}

impl ConfigStore {
    /// A store holding the startup configuration.
    pub fn new(initial: Config) -> (r: Self)
        ensures
            r.current == initial,
    {
        ConfigStore { current: initial }
    }

    /// The configuration currently in force.
    pub fn snapshot(&self) -> (r: &Config)
        ensures
            *r == self.current,
    {
        &self.current
    }

    /// Replaces the configuration atomically with the new snapshot.
    pub fn replace(&mut self, new_config: Config)
        ensures
            final(self).current == new_config,
    {
        self.current = new_config;
    }

    /// Applies the outcome of re-parsing the config file: a successful parse
    /// replaces the snapshot; a parse failure keeps the previous
    /// configuration in force. Returns whether the configuration changed
    /// hands.
    pub fn apply_reload(&mut self, parsed: Result<Config, String>) -> (changed: bool)
        ensures
            parsed matches Ok(c) ==> changed && final(self).current == c,
            parsed is Err ==> !changed && *final(self) == *old(self),
    {
        match parsed {
            Result::Ok(c) => {
                self.current = c;
                true
            },
            Result::Err(_) => false,
        }
    }
}

/// Whether a filesystem event's paths include the config file.
pub fn paths_include_config(paths: &Vec<String>, config_path: &String) -> (r: bool)
    ensures
        r == exists|i: int|
            0 <= i < paths.deep_view().len() && paths.deep_view()[i] == config_path@,
{
    let mut i: usize = 0;
    while i < paths.len()
        invariant
            i <= paths@.len(),
            forall|k: int| 0 <= k < i ==> paths.deep_view()[k] != config_path@,
        decreases paths.len() - i,
    {
        if crate::config::strings_equal(&paths[i], config_path) {
            assert(paths.deep_view()[i as int] == config_path@);
            return true;
        }
        i = i + 1;
    }
    false
}

/// Config atomicity law: a reload swaps the whole snapshot (see
/// `ConfigStore::replace`), so the configuration a `match` computes from is
/// entirely the pre-reload or entirely the post-reload one — and its result
/// is the match of exactly one of them, never a mixture.
pub proof fn lemma_config_atomicity(pre: ConfigV, post: ConfigV, snap: ConfigV, cmd: Seq<char>)
    requires
        snap == pre || snap == post,
    ensures
        match_spec(cmd, snap) == match_spec(cmd, pre) || match_spec(cmd, snap) == match_spec(
            cmd,
            post,
        ),
{
}

} // verus!
