//! Filters: pure tests over what one entity currently carries.

use crate::state::EntityState;
use crate::world::EntityRef;
use vstd::prelude::*;

verus! {

/// The view offered to the rest of an application: an entity has been
/// checked and was not found invalid.
#[derive(Clone, Copy, Debug)]
pub struct Valid;

impl Valid {
    /// `Checked` is present and `Invalid` is absent.
    pub open spec fn holds(state: EntityState) -> bool {
        state.checked && !state.invalid
    }

    /// Evaluates the view on one entity.
    pub fn matches(entity: &EntityRef<'_>) -> (b: bool)
        ensures
            b == Self::holds(entity@),
    {
        entity.is_checked() && !entity.is_invalid()
    }
}

/// A side-effect-free predicate over an entity's records and markers. A
/// check's filter recognises the problem; a check's kind selects the
/// entities the check applies to.
#[derive(Debug)]
pub enum CheckFilter {
    /// Every entity.
    Any,
    /// The entities that have a record of the given tag.
    With(u32),
    /// The entities that lack a record of the given tag.
    Without(u32),
    /// The entities that have been checked and were not found invalid.
    Valid,
    /// The entities that both filters select.
    And(Box<CheckFilter>, Box<CheckFilter>),
    /// The entities that either filter selects.
    Or(Box<CheckFilter>, Box<CheckFilter>),
}

impl CheckFilter {
    /// The filter selects an entity in this state.
    pub open spec fn holds(self, state: EntityState) -> bool
        decreases self,
    {
        match self {
            CheckFilter::Any => true,
            CheckFilter::With(tag) => state.records.contains_key(tag),
            CheckFilter::Without(tag) => !state.records.contains_key(tag),
            CheckFilter::Valid => Valid::holds(state),
            CheckFilter::And(a, b) => a.holds(state) && b.holds(state),
            CheckFilter::Or(a, b) => a.holds(state) || b.holds(state),
        }
    }

    /// Evaluates the filter on one entity.
    pub fn matches(&self, entity: &EntityRef<'_>) -> (b: bool)
        ensures
            b == self.holds(entity@),
        decreases self,
    {
        match self {
            CheckFilter::Any => true,
            CheckFilter::With(tag) => entity.contains(*tag),
            CheckFilter::Without(tag) => !entity.contains(*tag),
            CheckFilter::Valid => Valid::matches(entity),
            CheckFilter::And(a, b) => a.matches(entity) && b.matches(entity),
            CheckFilter::Or(a, b) => a.matches(entity) || b.matches(entity),
        }
    }

    /// The filter that selects what `self` and `other` both select.
    pub fn and(self, other: CheckFilter) -> (f: CheckFilter)
        ensures
            f == CheckFilter::And(Box::new(self), Box::new(other)),
    {
        CheckFilter::And(Box::new(self), Box::new(other))
    }

    /// The filter that selects what `self` or `other` selects.
    pub fn or(self, other: CheckFilter) -> (f: CheckFilter)
        ensures
            f == CheckFilter::Or(Box::new(self), Box::new(other)),
    {
        CheckFilter::Or(Box::new(self), Box::new(other))
    }
}

} // verus!
