//! The mathematical model of the store: what a world holds, and what
//! cascading removal does to it.

use crate::entity::Entity;
use vstd::prelude::*;

verus! {

/// What the store knows about one live entity.
pub struct EntityState {
    /// The attached records, by tag.
    pub records: Map<u32, u64>,
    /// The entity has been evaluated since its markers were last cleared.
    pub checked: bool,
    /// The last evaluation found a problem under the `Invalid` policy.
    pub invalid: bool,
    /// The entity that structurally owns this one, if any.
    pub parent: Option<Entity>,
}

/// A store, slot by slot: `None` where no entity lives.
pub type WorldState = Seq<Option<EntityState>>;

/// Slot `i` holds a live entity.
pub open spec fn live(w: WorldState, i: int) -> bool {
    0 <= i < w.len() && w[i] is Some
}

/// The store's invariant: `Invalid` only together with `Checked`, and every
/// owner is live and was created before what it owns.
pub open spec fn world_wf(w: WorldState) -> bool {
    &&& w.len() <= u32::MAX
    &&& forall|i: int| #[trigger]
        live(w, i) ==> {
            &&& w[i]->0.invalid ==> w[i]->0.checked
            &&& w[i]->0.parent matches Some(p) ==> p.index < i && live(w, p.index as int)
        }
}

/// `d` is `a`, or `a` owns `d` through a chain of live owners.
pub open spec fn descends(w: WorldState, d: int, a: int) -> bool
    decreases d,
{
    d == a || (live(w, d) && w[d]->0.parent is Some && w[d]->0.parent->0.index < d && descends(
        w,
        w[d]->0.parent->0.index as int,
        a,
    ))
}

/// The store after the cascading removal of `a` and of everything it owns.
pub open spec fn despawned(w: WorldState, a: int) -> WorldState {
    Seq::new(
        w.len(),
        |i: int|
            if descends(w, i, a) {
                None
            } else {
                w[i]
            },
    )
}

/// Cascading removal keeps the store's invariant.
pub proof fn lemma_despawned_wf(w: WorldState, a: int)
    requires
        world_wf(w),
    ensures
        world_wf(despawned(w, a)),
{
    let v = despawned(w, a);
    assert forall|i: int| #[trigger] live(v, i) implies {
        &&& v[i]->0.invalid ==> v[i]->0.checked
        &&& v[i]->0.parent matches Some(p) ==> p.index < i && live(v, p.index as int)
    } by {
        assert(live(w, i));
        assert(!descends(w, i, a));
        if let Some(p) = w[i]->0.parent {
            assert(live(w, p.index as int));
            assert(!descends(w, p.index as int, a));
        }
    }
}

} // verus!
