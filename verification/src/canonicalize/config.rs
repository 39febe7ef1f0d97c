//! Configuration of the canonicalizer.
//!
//! Production defaults enable every rule with a round limit of 8.
use vstd::prelude::*;

verus! {

/// Configuration of the canonicalizer.
#[derive(Clone, Copy, Debug, PartialEq, Eq, Hash, Structural)]
pub struct CanonicalizeConfig {
    round_limit: u8,
    recurse_control_flow: bool,
    normalize_parameters: bool,
    canonicalize_instruction_form: bool,
    merge_adjacent_barriers: bool,
    drop_trivial_noops: bool,
}

/// Abstract content of a canonicalization configuration.
pub struct CanonicalizeSettings {
    pub round_limit: u8,
    pub recurse_control_flow: bool,
    pub normalize_parameters: bool,
    pub canonicalize_instruction_form: bool,
    pub merge_adjacent_barriers: bool,
    pub drop_trivial_noops: bool,
}

/// The production settings.
pub open spec fn production_settings() -> CanonicalizeSettings {
    CanonicalizeSettings {
        round_limit: 8,
        recurse_control_flow: true,
        normalize_parameters: true,
        canonicalize_instruction_form: true,
        merge_adjacent_barriers: true,
        drop_trivial_noops: true,
    }
}

impl View for CanonicalizeConfig {
    type V = CanonicalizeSettings;

    closed spec fn view(&self) -> CanonicalizeSettings {
        CanonicalizeSettings {
            round_limit: self.round_limit,
            recurse_control_flow: self.recurse_control_flow,
            normalize_parameters: self.normalize_parameters,
            canonicalize_instruction_form: self.canonicalize_instruction_form,
            merge_adjacent_barriers: self.merge_adjacent_barriers,
            drop_trivial_noops: self.drop_trivial_noops,
        }
    }
}

impl Default for CanonicalizeConfig {
    fn default() -> (r: CanonicalizeConfig)
        ensures
            r@ == production_settings(),
    {
        CanonicalizeConfig::production()
    }
}

impl CanonicalizeConfig {
    /// The production configuration: every rule enabled, round limit 8.
    pub fn production() -> (r: CanonicalizeConfig)
        ensures
            r@ == production_settings(),
    {
        CanonicalizeConfig {
            round_limit: 8,
            recurse_control_flow: true,
            normalize_parameters: true,
            canonicalize_instruction_form: true,
            merge_adjacent_barriers: true,
            drop_trivial_noops: true,
        }
    }

    /// A configuration with the production defaults.
    pub fn new() -> (r: CanonicalizeConfig)
        ensures
            r@ == production_settings(),
    {
        CanonicalizeConfig::production()
    }

    /// Sets the maximum number of canonicalization rounds (zero is rejected
    /// when the canonicalizer runs).
    pub fn with_round_limit(self, round_limit: u8) -> (r: CanonicalizeConfig)
        ensures
            r@ == (CanonicalizeSettings { round_limit, ..self@ }),
    {
        CanonicalizeConfig { round_limit, ..self }
    }

    /// Records whether control-flow bodies are to be canonicalized. The
    /// circuit model of this library holds no control-flow instruction, so
    /// the setting is kept and reported but changes no result.
    pub fn recurse_control_flow(self, enabled: bool) -> (r: CanonicalizeConfig)
        ensures
            r@ == (CanonicalizeSettings { recurse_control_flow: enabled, ..self@ }),
    {
        CanonicalizeConfig { recurse_control_flow: enabled, ..self }
    }

    /// Controls whether parameters are normalized.
    pub fn normalize_parameters(self, enabled: bool) -> (r: CanonicalizeConfig)
        ensures
            r@ == (CanonicalizeSettings { normalize_parameters: enabled, ..self@ }),
    {
        CanonicalizeConfig { normalize_parameters: enabled, ..self }
    }

    /// Controls whether multi-controlled wrappers collapse into standard gates.
    pub fn canonicalize_instruction_form(self, enabled: bool) -> (r: CanonicalizeConfig)
        ensures
            r@ == (CanonicalizeSettings { canonicalize_instruction_form: enabled, ..self@ }),
    {
        CanonicalizeConfig { canonicalize_instruction_form: enabled, ..self }
    }

    /// Controls whether adjacent barriers merge.
    pub fn merge_adjacent_barriers(self, enabled: bool) -> (r: CanonicalizeConfig)
        ensures
            r@ == (CanonicalizeSettings { merge_adjacent_barriers: enabled, ..self@ }),
    {
        CanonicalizeConfig { merge_adjacent_barriers: enabled, ..self }
    }

    /// Controls whether unlabeled trivial no-ops are dropped.
    pub fn drop_trivial_noops(self, enabled: bool) -> (r: CanonicalizeConfig)
        ensures
            r@ == (CanonicalizeSettings { drop_trivial_noops: enabled, ..self@ }),
    {
        CanonicalizeConfig { drop_trivial_noops: enabled, ..self }
    }

    /// The round limit.
    pub fn round_limit(&self) -> (r: u8)
        ensures
            r == self@.round_limit,
    {
        self.round_limit
    }

    /// The recorded control-flow setting; it changes no result, as the
    /// circuit model holds no control-flow bodies.
    pub fn recurses_control_flow(&self) -> (r: bool)
        ensures
            r == self@.recurse_control_flow,
    {
        self.recurse_control_flow
    }

    /// Whether parameters are normalized.
    pub fn normalizes_parameters(&self) -> (r: bool)
        ensures
            r == self@.normalize_parameters,
    {
        self.normalize_parameters
    }

    /// Whether multi-controlled wrappers collapse into standard gates.
    pub fn canonicalizes_instruction_form(&self) -> (r: bool)
        ensures
            r == self@.canonicalize_instruction_form,
    {
        self.canonicalize_instruction_form
    }

    /// Whether adjacent barriers merge.
    pub fn merges_adjacent_barriers(&self) -> (r: bool)
        ensures
            r == self@.merge_adjacent_barriers,
    {
        self.merge_adjacent_barriers
    }

    /// Whether unlabeled trivial no-ops are dropped.
    pub fn drops_trivial_noops(&self) -> (r: bool)
        ensures
            r == self@.drop_trivial_noops,
    {
        self.drop_trivial_noops
    }
}

} // verus!
