//! The executable store: entities, their records and markers, and the
//! synchronisation point at which queued commands take effect.

use crate::command::{lemma_run_wf, lemma_step_wf, run, step, Command, Commands};
use crate::entity::{Entity, Record};
use crate::filter::CheckFilter;
use crate::state::{descends, despawned, live, world_wf, EntityState, WorldState};
use std::collections::HashMap;
use vstd::prelude::*;

verus! {

/// The records that a list attaches: where a tag occurs twice, the later
/// record stands.
pub open spec fn records_of(list: Seq<Record>) -> Map<u32, u64>
    decreases list.len(),
{
    if list.len() == 0 {
        Map::empty()
    } else {
        records_of(list.drop_last()).insert(list.last().tag, list.last().value)
    }
}

/// What the store holds for one live entity.
pub struct EntityData {
    records: HashMap<u32, u64>,
    checked: bool,
    invalid: bool,
    parent: Option<Entity>,
}

impl View for EntityData {
    type V = EntityState;

    closed spec fn view(&self) -> EntityState {
        EntityState {
            records: self.records@,
            checked: self.checked,
            invalid: self.invalid,
            parent: self.parent,
        }
    }
}

/// The model of one slot.
pub open spec fn slot_view(slot: Option<EntityData>) -> Option<EntityState> {
    match slot {
        Some(d) => Some(d@),
        None => None,
    }
}

/// The entity store.
pub struct World {
    slots: Vec<Option<EntityData>>,
}

impl View for World {
    type V = WorldState;

    closed spec fn view(&self) -> WorldState {
        Seq::new(self.slots@.len(), |i: int| slot_view(self.slots@[i]))
    }
}

impl World {
    /// The store's invariant holds.
    pub open spec fn wf(&self) -> bool {
        world_wf(self@)
    }

    /// An empty store.
    pub fn new() -> (w: World)
        ensures
            w@ == Seq::<Option<EntityState>>::empty(),
            w.wf(),
    {
        let w = World { slots: Vec::new() };
        assert(w@ =~= Seq::<Option<EntityState>>::empty());
        w
    }

    /// The number of slots ever handed out.
    pub fn len(&self) -> (n: usize)
        ensures
            n == self@.len(),
    {
        self.slots.len()
    }

    fn make(records: &Vec<Record>, parent: Option<Entity>) -> (d: EntityData)
        ensures
            d@ == (EntityState {
                records: records_of(records@),
                checked: false,
                invalid: false,
                parent,
            }),
    {
        let mut map: HashMap<u32, u64> = HashMap::new();
        let mut i: usize = 0;
        while i < records.len()
            invariant
                i <= records.len(),
                map@ == records_of(records@.take(i as int)),
            decreases records.len() - i,
        {
            let r = records[i];
            map.insert(r.tag, r.value);
            assert(records@.take(i + 1).drop_last() =~= records@.take(i as int));
            i = i + 1;
        }
        assert(records@.take(i as int) =~= records@);
        EntityData { records: map, checked: false, invalid: false, parent }
    }

    /// Creates an entity that carries `records` and no marker, owned by
    /// nothing.
    pub fn spawn(&mut self, records: &Vec<Record>) -> (e: Entity)
        requires
            old(self).wf(),
            old(self)@.len() < u32::MAX,
        ensures
            final(self).wf(),
            e.index == old(self)@.len(),
            final(self)@ == old(self)@.push(
                Some(
                    EntityState {
                        records: records_of(records@),
                        checked: false,
                        invalid: false,
                        parent: None,
                    },
                ),
            ),
    {
        let index = self.slots.len() as u32;
        let data = Self::make(records, None);
        self.slots.push(Some(data));
        proof {
            let s = EntityState {
                records: records_of(records@),
                checked: false,
                invalid: false,
                parent: None,
            };
            assert(self@ =~= old(self)@.push(Some(s)));
            assert forall|i: int| #[trigger] live(self@, i) implies {
                &&& self@[i]->0.invalid ==> self@[i]->0.checked
                &&& self@[i]->0.parent matches Some(p) ==> p.index < i && live(
                    self@,
                    p.index as int,
                )
            } by {
                if i < old(self)@.len() {
                    assert(live(old(self)@, i));
                    if let Some(p) = old(self)@[i]->0.parent {
                        assert(live(old(self)@, p.index as int));
                    }
                }
            }
        }
        Entity { index }
    }

    /// Creates an entity that carries `records` and no marker, owned by
    /// `parent`. Where `parent` is not in the store, nothing is created.
    pub fn spawn_child(&mut self, parent: Entity, records: &Vec<Record>) -> (e: Option<Entity>)
        requires
            old(self).wf(),
            old(self)@.len() < u32::MAX,
        ensures
            final(self).wf(),
            e is Some <==> live(old(self)@, parent.index as int),
            e is None ==> final(self)@ == old(self)@,
            e matches Some(child) ==> child.index == old(self)@.len() && final(self)@ == old(
                self,
            )@.push(
                Some(
                    EntityState {
                        records: records_of(records@),
                        checked: false,
                        invalid: false,
                        parent: Some(parent),
                    },
                ),
            ),
    {
        if !self.contains(parent) {
            return None;
        }
        let index = self.slots.len() as u32;
        let data = Self::make(records, Some(parent));
        self.slots.push(Some(data));
        proof {
            let s = EntityState {
                records: records_of(records@),
                checked: false,
                invalid: false,
                parent: Some(parent),
            };
            assert(self@ =~= old(self)@.push(Some(s)));
            assert forall|i: int| #[trigger] live(self@, i) implies {
                &&& self@[i]->0.invalid ==> self@[i]->0.checked
                &&& self@[i]->0.parent matches Some(p) ==> p.index < i && live(
                    self@,
                    p.index as int,
                )
            } by {
                if i < old(self)@.len() {
                    assert(live(old(self)@, i));
                    if let Some(p) = old(self)@[i]->0.parent {
                        assert(live(old(self)@, p.index as int));
                    }
                } else {
                    assert(live(old(self)@, parent.index as int));
                }
            }
        }
        Some(Entity { index })
    }

    /// The entity is in the store.
    pub fn contains(&self, entity: Entity) -> (b: bool)
        ensures
            b == live(self@, entity.index as int),
    {
        let i = entity.index as usize;
        i < self.slots.len() && self.slots[i].is_some()
    }

    /// The value of the entity's record of type `tag`, if it is in the
    /// store and has one.
    pub fn get(&self, entity: Entity, tag: u32) -> (v: Option<u64>)
        ensures
            v == (if live(self@, entity.index as int) && self@[entity.index as int]->0.records.contains_key(tag) {
                Some(self@[entity.index as int]->0.records[tag])
            } else {
                None
            }),
    {
        let i = entity.index as usize;
        if i < self.slots.len() {
            match &self.slots[i] {
                Some(d) => match d.records.get(&tag) {
                    Some(v) => Some(*v),
                    None => None,
                },
                None => None,
            }
        } else {
            None
        }
    }

    /// The entity is in the store and has a record of type `tag`.
    pub fn has(&self, entity: Entity, tag: u32) -> (b: bool)
        ensures
            b == (live(self@, entity.index as int) && self@[entity.index as int]->0.records.contains_key(tag)),
    {
        self.get(entity, tag).is_some()
    }

    /// The entity is in the store and carries `Checked`.
    pub fn is_checked(&self, entity: Entity) -> (b: bool)
        ensures
            b == (live(self@, entity.index as int) && self@[entity.index as int]->0.checked),
    {
        let i = entity.index as usize;
        if i < self.slots.len() {
            match &self.slots[i] {
                Some(d) => d.checked,
                None => false,
            }
        } else {
            false
        }
    }

    /// The entity is in the store and carries `Invalid`.
    pub fn is_invalid(&self, entity: Entity) -> (b: bool)
        ensures
            b == (live(self@, entity.index as int) && self@[entity.index as int]->0.invalid),
    {
        let i = entity.index as usize;
        if i < self.slots.len() {
            match &self.slots[i] {
                Some(d) => d.invalid,
                None => false,
            }
        } else {
            false
        }
    }

    /// The entities in the store that `filter` selects, in slot order.
    pub fn query(&self, filter: &CheckFilter) -> (found: Vec<Entity>)
        requires
            self.wf(),
        ensures
            forall|e: Entity|
                found@.contains(e) <==> live(self@, e.index as int) && filter.holds(
                    self@[e.index as int]->0,
                ),
            forall|a: int, b: int|
                0 <= a < b < found@.len() ==> (#[trigger] found@[a]).index < (
                #[trigger] found@[b]).index,
    {
        let mut found: Vec<Entity> = Vec::new();
        let n = self.slots.len();
        let mut i: usize = 0;
        while i < n
            invariant
                i <= n,
                n == self@.len(),
                self.wf(),
                forall|k: int|
                    0 <= k < found@.len() ==> (#[trigger] found@[k]).index < i && live(
                        self@,
                        found@[k].index as int,
                    ) && filter.holds(self@[found@[k].index as int]->0),
                forall|j: int|
                    0 <= j < i && #[trigger] live(self@, j) && filter.holds(self@[j]->0)
                        ==> found@.contains(Entity { index: j as u32 }),
                forall|a: int, b: int|
                    0 <= a < b < found@.len() ==> (#[trigger] found@[a]).index < (
                    #[trigger] found@[b]).index,
            decreases n - i,
        {
            let entity = Entity { index: i as u32 };
            let ghost before = found@;
            match self.entity(entity) {
                Some(view) => {
                    if filter.matches(&view) {
                        found.push(entity);
                        proof {
                            assert(found@[before.len() as int] == entity);
                        }
                    }
                },
                None => {},
            }
            proof {
                assert forall|j: int|
                    0 <= j < i + 1 && #[trigger] live(self@, j) && filter.holds(
                        self@[j]->0,
                    ) implies found@.contains(Entity { index: j as u32 }) by {
                    if j < i {
                        let k = choose|k: int|
                            0 <= k < before.len() && before[k] == (Entity { index: j as u32 });
                        assert(found@[k] == before[k]);
                    }
                }
            }
            i = i + 1;
        }
        proof {
            assert forall|e: Entity|
                live(self@, e.index as int) && filter.holds(
                    self@[e.index as int]->0,
                ) implies found@.contains(e) by {
                assert(e == Entity { index: e.index as int as u32 });
            }
        }
        found
    }

    /// A read-only view of the entity, if it is in the store.
    pub fn entity(&self, entity: Entity) -> (r: Option<EntityRef<'_>>)
        ensures
            r is Some <==> live(self@, entity.index as int),
            r matches Some(view) ==> view.id() == entity && view@ == self@[entity.index as int]->0,
    {
        let i = entity.index as usize;
        if i < self.slots.len() {
            match &self.slots[i] {
                Some(d) => Some(EntityRef { entity, data: d }),
                None => None,
            }
        } else {
            None
        }
    }

    /// A handle that changes the entity at once, if it is in the store.
    pub fn entity_mut(&mut self, entity: Entity) -> (r: Option<EntityWorldMut<'_>>)
        ensures
            r is Some <==> live(old(self)@, entity.index as int),
            r is None ==> *final(self) == *old(self),
            r matches Some(h) ==> h.entity == entity && *h.world == *old(self) && *final(self)
                == *final(h.world),
    {
        if self.contains(entity) {
            Some(EntityWorldMut { entity, world: self })
        } else {
            None
        }
    }

    /// Removes the entity and everything it owns. An entity that is not in
    /// the store owns nothing, and nothing changes.
    pub fn despawn_recursive(&mut self, entity: Entity)
        requires
            old(self).wf(),
        ensures
            final(self).wf(),
            final(self)@ == despawned(old(self)@, entity.index as int),
    {
        let a = entity.index as usize;
        let n = self.slots.len();
        let ghost w = self@;
        let mut i: usize = a;
        proof {
            assert forall|j: int| 0 <= j < a && j < n implies self@[j] == #[trigger] despawned(
                w,
                a as int,
            )[j] by {
                if descends(w, j, a as int) {
                    lemma_descends_not_below(w, j, a as int);
                }
            }
        }
        while i < n
            invariant
                a <= i,
                n == w.len(),
                self.slots@.len() == n,
                world_wf(w),
                forall|j: int| 0 <= j < i && j < n ==> self@[j] == #[trigger] despawned(w, a as int)[j],
                forall|j: int| i <= j < n ==> #[trigger] self@[j] == w[j],
            decreases n - i,
        {
            let doomed = i == a || match &self.slots[i] {
                Some(d) => match d.parent {
                    Some(p) => (p.index as usize) < i && self.slots[p.index as usize].is_none(),
                    None => false,
                },
                None => false,
            };
            proof {
                assert(self@[i as int] == w[i as int]);
                if live(w, i as int) {
                    if let Some(p) = w[i as int]->0.parent {
                        assert(live(w, p.index as int));
                        assert(self@[p.index as int] == despawned(w, a as int)[p.index as int]);
                    }
                }
                assert(doomed ==> descends(w, i as int, a as int) || w[i as int] is None);
                assert(!doomed ==> !descends(w, i as int, a as int));
            }
            let ghost before = self@;
            if doomed {
                self.slots.set(i, None);
            }
            proof {
                assert forall|j: int| 0 <= j < i + 1 && j < n implies self@[j] == #[trigger] despawned(
                    w,
                    a as int,
                )[j] by {
                    if j < i {
                        assert(self@[j] == before[j]);
                    }
                }
                assert forall|j: int| i + 1 <= j < n implies #[trigger] self@[j] == w[j] by {
                    assert(self@[j] == before[j]);
                }
            }
            i = i + 1;
        }
        proof {
            assert(self@ =~= despawned(w, a as int));
            crate::state::lemma_despawned_wf(w, a as int);
        }
    }

    /// Clears the entity's markers at once, so that every check of its
    /// kind evaluates it in the next cycle.
    pub fn check_again(&mut self, entity: Entity)
        ensures
            final(self)@ == step(old(self)@, Command::CheckAgain(entity)),
            old(self).wf() ==> final(self).wf(),
    {
        let ghost w = self@;
        proof {
            if world_wf(w) {
                lemma_step_wf(w, Command::CheckAgain(entity));
            }
        }
        let i = entity.index as usize;
        if i < self.slots.len() {
            match &mut self.slots[i] {
                Some(d) => {
                    d.checked = false;
                    d.invalid = false;
                },
                None => {},
            }
        }
        assert(self@ =~= step(w, Command::CheckAgain(entity)));
    }

    /// Brings one command into effect.
    pub(crate) fn apply_one(&mut self, command: Command)
        requires
            old(self).wf(),
        ensures
            final(self).wf(),
            final(self)@ == step(old(self)@, command),
    {
        let ghost w = self@;
        proof {
            lemma_step_wf(w, command);
        }
        let i = command.entity().index as usize;
        match command {
            Command::DespawnRecursive(e) => {
                self.despawn_recursive(e);
            },
            _ => {
                if i < self.slots.len() {
                    match &mut self.slots[i] {
                        Some(d) => {
                            match command {
                                Command::Insert(_, r) => {
                                    d.records.insert(r.tag, r.value);
                                },
                                Command::Remove(_, tag) => {
                                    d.records.remove(&tag);
                                },
                                Command::Check(_) => {
                                    d.checked = true;
                                },
                                Command::Invalidate(_) => {
                                    d.checked = true;
                                    d.invalid = true;
                                },
                                Command::CheckAgain(_) => {
                                    d.checked = false;
                                    d.invalid = false;
                                },
                                Command::DespawnRecursive(_) => {},
                            }
                        },
                        None => {},
                    }
                }
                assert(self@ =~= step(w, command));
            },
        }
    }

    /// The synchronisation point: brings every queued command into effect,
    /// first to last.
    pub fn apply(&mut self, commands: &Commands)
        requires
            old(self).wf(),
        ensures
            final(self).wf(),
            final(self)@ == run(old(self)@, commands@),
    {
        let ghost w = self@;
        let n = commands.len();
        let mut i: usize = 0;
        while i < n
            invariant
                i <= n,
                n == commands@.len(),
                self.wf(),
                self@ == run(w, commands@.take(i as int)),
            decreases n - i,
        {
            let c = commands.get(i).unwrap();
            self.apply_one(c);
            proof {
                assert(commands@.take(i + 1).drop_last() =~= commands@.take(i as int));
                assert(commands@.take(i + 1).last() == c);
            }
            i = i + 1;
        }
        proof {
            assert(commands@.take(i as int) =~= commands@);
        }
    }
}

/// A read-only view of one entity of the store.
#[derive(Clone, Copy)]
pub struct EntityRef<'w> {
    entity: Entity,
    data: &'w EntityData,
}

impl<'w> View for EntityRef<'w> {
    type V = EntityState;

    closed spec fn view(&self) -> EntityState {
        self.data@
    }
}

impl<'w> EntityRef<'w> {
    /// The entity that is viewed.
    pub closed spec fn spec_id(&self) -> Entity {
        self.entity
    }

    /// The entity that is viewed.
    #[verifier::when_used_as_spec(spec_id)]
    pub fn id(&self) -> (e: Entity)
        ensures
            e == self.id(),
    {
        self.entity
    }

    /// The entity has a record of type `tag`.
    pub fn contains(&self, tag: u32) -> (b: bool)
        ensures
            b == self@.records.contains_key(tag),
    {
        self.data.records.contains_key(&tag)
    }

    /// The value of the entity's record of type `tag`, if it has one.
    pub fn get(&self, tag: u32) -> (v: Option<u64>)
        ensures
            v == (if self@.records.contains_key(tag) {
                Some(self@.records[tag])
            } else {
                None
            }),
    {
        match self.data.records.get(&tag) {
            Some(v) => Some(*v),
            None => None,
        }
    }

    /// The entity carries `Checked`.
    pub fn is_checked(&self) -> (b: bool)
        ensures
            b == self@.checked,
    {
        self.data.checked
    }

    /// The entity carries `Invalid`.
    pub fn is_invalid(&self) -> (b: bool)
        ensures
            b == self@.invalid,
    {
        self.data.invalid
    }
}

/// A handle on the store that changes one entity at once, without the queue.
pub struct EntityWorldMut<'w> {
    pub entity: Entity,
    pub world: &'w mut World,
}

impl<'w> EntityWorldMut<'w> {
    /// The entity this handle addresses.
    pub fn id(&self) -> (e: Entity)
        ensures
            e == self.entity,
    {
        self.entity
    }

    /// Attaches `record`, replacing one of the same tag.
    pub fn insert(self, record: Record) -> (h: Self)
        requires
            old(self.world).wf(),
        ensures
            h.entity == self.entity,
            h.world.wf(),
            h.world@ == step(old(self.world)@, Command::Insert(self.entity, record)),
            *final(h.world) == *final(self.world),
    {
        let EntityWorldMut { entity, world } = self;
        world.apply_one(Command::Insert(entity, record));
        EntityWorldMut { entity, world }
    }

    /// Detaches the record of type `tag`.
    pub fn remove(self, tag: u32) -> (h: Self)
        requires
            old(self.world).wf(),
        ensures
            h.entity == self.entity,
            h.world.wf(),
            h.world@ == step(old(self.world)@, Command::Remove(self.entity, tag)),
            *final(h.world) == *final(self.world),
    {
        let EntityWorldMut { entity, world } = self;
        world.apply_one(Command::Remove(entity, tag));
        EntityWorldMut { entity, world }
    }
}

/// Nothing below `a` in the store is owned by `a`.
pub proof fn lemma_descends_not_below(w: WorldState, d: int, a: int)
    requires
        descends(w, d, a),
    ensures
        d >= a,
    decreases d,
{
    if d != a {
        lemma_descends_not_below(w, w[d]->0.parent->0.index as int, a);
    }
}

} // verus!
