//! Owner-local bindings from stable ability IDs to granted ability handles, and
//! the decisions that granting and revoking make around the ability system.
//!
//! Granting checks the request first, and only a request that passes reaches the
//! ability system; the handle it returns is then bound. Revoking asks the ability
//! system to clear the bound handle, and the binding goes only when that succeeded
//! or the grant was already gone.

use super::definitions::AbilityId;
use crate::config::compiler::validation::{id_row, row_field};
use crate::config::error::{
    ConfigError, ConfigErrorKind, ErrorSite, reports, row_field_location, row_location, site_with,
};
use crate::config::text::{decimal_digits, owned, push_str, push_unsigned};
use std::collections::BTreeMap;
use vstd::prelude::*;

verus! {

broadcast use {vstd::std_specs::btree::group_btree_axioms, vstd::laws_cmp::group_laws_cmp};

/// Maps stable configuration IDs to the handles granted to one owner.
#[derive(Debug)]
pub struct ConfiguredAbilities<H> {
    bindings: BTreeMap<i32, H>,
}

impl<H> View for ConfiguredAbilities<H> {
    type V = Map<i32, H>;

    closed spec fn view(&self) -> Map<i32, H> {
        self.bindings@
    }
}

/// What a grant request gives before the ability system is asked: the unknown
/// ability, the unsupported level, the existing binding, or success.
pub open spec fn grant_failure<H>(bound: Map<i32, H>, max_level: Option<u32>, id: AbilityId, level: u32) -> Option<ErrorSite> {
    match max_level {
        None => Some(site_with(ConfigErrorKind::UnknownAbility, id_row("Ability"@, id.0), "unknown ability"@)),
        Some(m) => if !(1 <= level <= m) {
            Some(site_with(ConfigErrorKind::UnsupportedLevel, row_field("Ability"@, id.0, "level"@),
                "level "@ + decimal_digits(level as nat) + " is outside 1..="@ + decimal_digits(m as nat)))
        } else if bound.contains_key(id.0) {
            Some(site_with(ConfigErrorKind::AlreadyGranted, id_row("Ability"@, id.0), "ability is already bound for this owner"@))
        } else {
            None
        },
    }
}

impl<H: Copy> ConfiguredAbilities<H> {
    /// No bindings.
    pub fn new() -> (b: Self)
        ensures
            b@ == Map::<i32, H>::empty(),
    {
        ConfiguredAbilities { bindings: BTreeMap::new() }
    }

    /// Returns this owner's granted handle for `id`, or `None` if unbound.
    pub fn handle(&self, id: AbilityId) -> (h: Option<H>)
        ensures
            match h {
                Some(x) => self@.contains_key(id.0) && self@[id.0] == x,
                None => !self@.contains_key(id.0),
            },
    {
        match self.bindings.get(&id.0) {
            Some(h) => Some(*h),
            None => None,
        }
    }

    /// Checks a grant request for ability `id` at `level`, given the ability's
    /// maximum level when the catalog holds it. Nothing changes.
    pub fn check_grant(&self, max_level: Option<u32>, id: AbilityId, level: u32) -> (res: Result<(), ConfigError>)
        ensures
            match grant_failure(self@, max_level, id, level) {
                Some(s) => res matches Err(e) && reports(e@, s),
                None => res is Ok,
            },
    {
        let m = match max_level {
            Some(m) => m,
            None => return Err(ConfigError::new(ConfigErrorKind::UnknownAbility, row_location("Ability", id.0), "unknown ability")),
        };
        if !(1 <= level && level <= m) {
            let mut message = owned("level ");
            push_unsigned(&mut message, level as u64);
            push_str(&mut message, " is outside 1..=");
            push_unsigned(&mut message, m as u64);
            return Err(ConfigError::with_message(ConfigErrorKind::UnsupportedLevel, row_field_location("Ability", id.0, "level"), message));
        }
        if self.handle(id).is_some() {
            return Err(ConfigError::new(ConfigErrorKind::AlreadyGranted, row_location("Ability", id.0), "ability is already bound for this owner"));
        }
        Ok(())
    }

    /// Binds the handle granted for `id`.
    pub fn bind(&mut self, id: AbilityId, handle: H)
        requires
            !old(self)@.contains_key(id.0),
        ensures
            final(self)@ == old(self)@.insert(id.0, handle),
    {
        self.bindings.insert(id.0, handle);
    }

    /// Finishes revoking `id` once the ability system was asked to clear its
    /// handle: `cleared` tells whether the grant is gone (it was already absent,
    /// or clearing it succeeded). Returns `false` when `id` was unbound, an error
    /// when the grant is still active (the binding stays), and otherwise removes
    /// the binding and returns `true`.
    pub fn finish_revoke(&mut self, id: AbilityId, cleared: bool) -> (res: Result<bool, ConfigError>)
        ensures
            !old(self)@.contains_key(id.0) ==> res == Ok::<bool, ConfigError>(false) && final(self)@ == old(self)@,
            old(self)@.contains_key(id.0) && !cleared ==> final(self)@ == old(self)@
                && (res matches Err(e) && reports(e@, site_with(ConfigErrorKind::ActiveAbility, id_row("Ability"@, id.0),
                    "cannot revoke an active ability; end or cancel it first"@))),
            old(self)@.contains_key(id.0) && cleared ==> res == Ok::<bool, ConfigError>(true) && final(self)@ == old(self)@.remove(id.0),
    {
        if !self.bindings.contains_key(&id.0) {
            return Ok(false);
        }
        if !cleared {
            return Err(ConfigError::new(ConfigErrorKind::ActiveAbility, row_location("Ability", id.0), "cannot revoke an active ability; end or cancel it first"));
        }
        self.bindings.remove(&id.0);
        Ok(true)
    }
}

/// Binding a granted handle and then revoking it with the grant cleared restores
/// the owner's bindings, and a later grant request for the same ability is checked
/// exactly as before the first grant.
pub proof fn lemma_grant_then_revoke<H>(bound: Map<i32, H>, id: AbilityId, handle: H, max_level: Option<u32>, level: u32)
    requires
        !bound.contains_key(id.0),
    ensures
        bound.insert(id.0, handle).remove(id.0) == bound,
        grant_failure(bound.insert(id.0, handle).remove(id.0), max_level, id, level) == grant_failure(bound, max_level, id, level),
{
    assert(bound.insert(id.0, handle).remove(id.0) =~= bound);
}

/// An ability that the owner has not bound can be granted at every level from one
/// to its maximum level, and at no other level: outside that range the request is
/// refused as an unsupported level, at the request's `level` field. An ability
/// the catalog does not hold is refused as unknown at any level.
pub proof fn lemma_grant_levels<H>(bound: Map<i32, H>, id: AbilityId, max_level: u32, level: u32)
    requires
        !bound.contains_key(id.0),
    ensures
        grant_failure(bound, Some(max_level), id, level) is None <==> 1 <= level <= max_level,
        !(1 <= level <= max_level) ==> (grant_failure(bound, Some(max_level), id, level) matches Some(s)
            && s.kind == ConfigErrorKind::UnsupportedLevel && s.location == row_field("Ability"@, id.0, "level"@)),
        grant_failure(bound, None, id, level) matches Some(s) && s.kind == ConfigErrorKind::UnknownAbility,
{
}

/// A bound ability cannot be granted again while its binding stays.
pub proof fn lemma_bound_blocks_grant<H>(bound: Map<i32, H>, id: AbilityId, level: u32, max_level: u32)
    requires
        bound.contains_key(id.0),
        1 <= level <= max_level,
    ensures
        grant_failure(bound, Some(max_level), id, level)
            == Some(site_with(ConfigErrorKind::AlreadyGranted, id_row("Ability"@, id.0), "ability is already bound for this owner"@)),
{
}

} // verus!
