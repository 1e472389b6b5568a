//! The deferred mutation buffer: commands, what each does to the store, and
//! the queue that collects them until the next synchronisation point.

use crate::entity::{Entity, Record};
use crate::state::{despawned, lemma_despawned_wf, live, world_wf, EntityState, WorldState};
use vstd::prelude::*;

verus! {

/// One pending operation on one entity.
#[derive(Clone, Copy, Debug, PartialEq, Eq, Structural)]
pub enum Command {
    /// Attach a record, replacing one of the same tag.
    Insert(Entity, Record),
    /// Detach the record of the given tag.
    Remove(Entity, u32),
    /// Set `Checked`.
    Check(Entity),
    /// Set `Checked` and `Invalid`.
    Invalidate(Entity),
    /// Clear `Checked` and `Invalid`.
    CheckAgain(Entity),
    /// Remove the entity and everything it owns.
    DespawnRecursive(Entity),
}

impl Command {
    /// The entity the command is addressed to.
    pub open spec fn target(self) -> Entity {
        match self {
            Command::Insert(e, _) => e,
            Command::Remove(e, _) => e,
            Command::Check(e) => e,
            Command::Invalidate(e) => e,
            Command::CheckAgain(e) => e,
            Command::DespawnRecursive(e) => e,
        }
    }

    /// What the command makes of the entity it is addressed to, while that
    /// entity stays in the store.
    pub open spec fn alter(self, s: EntityState) -> EntityState {
        match self {
            Command::Insert(_, r) => EntityState { records: s.records.insert(r.tag, r.value), ..s },
            Command::Remove(_, tag) => EntityState { records: s.records.remove(tag), ..s },
            Command::Check(_) => EntityState { checked: true, ..s },
            Command::Invalidate(_) => EntityState { checked: true, invalid: true, ..s },
            Command::CheckAgain(_) => EntityState { checked: false, invalid: false, ..s },
            Command::DespawnRecursive(_) => s,
        }
    }

    /// The entity the command is addressed to.
    pub fn entity(&self) -> (e: Entity)
        ensures
            e == self.target(),
    {
        match self {
            Command::Insert(e, _) => *e,
            Command::Remove(e, _) => *e,
            Command::Check(e) => *e,
            Command::Invalidate(e) => *e,
            Command::CheckAgain(e) => *e,
            Command::DespawnRecursive(e) => *e,
        }
    }
}

/// The store after one command. A command addressed to an entity that is
/// not in the store changes nothing.
pub open spec fn step(w: WorldState, c: Command) -> WorldState {
    let i = c.target().index as int;
    if c is DespawnRecursive {
        despawned(w, i)
    } else if live(w, i) {
        w.update(i, Some(c.alter(w[i]->0)))
    } else {
        w
    }
}

/// The store after a whole log, applied first to last.
pub open spec fn run(w: WorldState, log: Seq<Command>) -> WorldState
    decreases log.len(),
{
    if log.len() == 0 {
        w
    } else {
        step(run(w, log.drop_last()), log.last())
    }
}

/// One command keeps the store's invariant and its slots.
pub proof fn lemma_step_wf(w: WorldState, c: Command)
    requires
        world_wf(w),
    ensures
        world_wf(step(w, c)),
        step(w, c).len() == w.len(),
        forall|i: int| live(step(w, c), i) ==> live(w, i),
{
    let v = step(w, c);
    let t = c.target().index as int;
    if c is DespawnRecursive {
        lemma_despawned_wf(w, t);
    } else if live(w, t) {
        assert forall|i: int| #[trigger] live(v, i) implies {
            &&& v[i]->0.invalid ==> v[i]->0.checked
            &&& v[i]->0.parent matches Some(p) ==> p.index < i && live(v, p.index as int)
        } by {
            assert(live(w, i));
            if let Some(p) = w[i]->0.parent {
                assert(live(w, p.index as int));
            }
        }
    }
}

/// A log keeps the store's invariant and its slots, and revives nothing.
pub proof fn lemma_run_wf(w: WorldState, log: Seq<Command>)
    requires
        world_wf(w),
    ensures
        world_wf(run(w, log)),
        run(w, log).len() == w.len(),
        forall|i: int| live(run(w, log), i) ==> live(w, i),
    decreases log.len(),
{
    if log.len() > 0 {
        lemma_run_wf(w, log.drop_last());
        lemma_step_wf(run(w, log.drop_last()), log.last());
    }
}

/// Running two logs one after the other is running their concatenation.
pub proof fn lemma_run_concat(w: WorldState, a: Seq<Command>, b: Seq<Command>)
    ensures
        run(w, a + b) == run(run(w, a), b),
    decreases b.len(),
{
    if b.len() == 0 {
        assert(a + b =~= a);
    } else {
        assert((a + b).drop_last() =~= a + b.drop_last());
        assert((a + b).last() == b.last());
        lemma_run_concat(w, a, b.drop_last());
    }
}

/// A queue of commands, kept in the order in which they were issued.
pub struct Commands {
    log: Vec<Command>,
}

impl View for Commands {
    type V = Seq<Command>;

    closed spec fn view(&self) -> Seq<Command> {
        self.log@
    }
}

impl Commands {
    /// An empty queue.
    pub fn new() -> (c: Commands)
        ensures
            c@ == Seq::<Command>::empty(),
    {
        Commands { log: Vec::new() }
    }

    /// The number of commands that wait in the queue.
    pub fn len(&self) -> (n: usize)
        ensures
            n == self@.len(),
    {
        self.log.len()
    }

    /// The command at position `i`, if there is one.
    pub fn get(&self, i: usize) -> (c: Option<Command>)
        ensures
            c == (if i < self@.len() {
                Some(self@[i as int])
            } else {
                None
            }),
    {
        if i < self.log.len() {
            Some(self.log[i])
        } else {
            None
        }
    }

    /// Adds one command at the end of the queue. Client code queues
    /// through [`Commands::entity`], which offers no command that sets a
    /// marker.
    pub(crate) fn push(&mut self, c: Command)
        ensures
            final(self)@ == old(self)@.push(c),
    {
        self.log.push(c);
    }

    /// Moves every command of `other` to the end of this queue, in order.
    pub fn append(&mut self, other: Commands)
        ensures
            final(self)@ == old(self)@ + other@,
    {
        let mut i: usize = 0;
        while i < other.log.len()
            invariant
                i <= other.log.len(),
                self.log@ == old(self).log@ + other.log@.take(i as int),
            decreases other.log.len() - i,
        {
            self.log.push(other.log[i]);
            assert(other.log@.take(i + 1) =~= other.log@.take(i as int).push(other.log@[i as int]));
            i = i + 1;
        }
        assert(other.log@.take(i as int) =~= other.log@);
    }

    /// A handle that queues commands for `entity`.
    pub fn entity(&mut self, entity: Entity) -> (h: EntityCommands<'_>)
        ensures
            h.entity == entity,
            h.commands@ == old(self)@,
            *final(self) == *final(h.commands),
    {
        EntityCommands { entity, commands: self }
    }
}

/// A handle on a queue that addresses every command to one entity.
pub struct EntityCommands<'a> {
    pub entity: Entity,
    pub commands: &'a mut Commands,
}

impl<'a> EntityCommands<'a> {
    /// The entity this handle addresses.
    pub fn id(&self) -> (e: Entity)
        ensures
            e == self.entity,
    {
        self.entity
    }

    /// Queues the attachment of `record`.
    pub fn insert(self, record: Record) -> (h: Self)
        ensures
            h.entity == self.entity,
            h.commands@ == old(self.commands)@.push(Command::Insert(self.entity, record)),
            *final(h.commands) == *final(self.commands),
    {
        let EntityCommands { entity, commands } = self;
        commands.push(Command::Insert(entity, record));
        EntityCommands { entity, commands }
    }

    /// Queues the removal of the record of type `tag`.
    pub fn remove(self, tag: u32) -> (h: Self)
        ensures
            h.entity == self.entity,
            h.commands@ == old(self.commands)@.push(Command::Remove(self.entity, tag)),
            *final(h.commands) == *final(self.commands),
    {
        let EntityCommands { entity, commands } = self;
        commands.push(Command::Remove(entity, tag));
        EntityCommands { entity, commands }
    }

    /// Queues the removal of the entity and of everything it owns.
    pub fn despawn_recursive(self)
        ensures
            final(self.commands)@ == old(self.commands)@.push(
                Command::DespawnRecursive(self.entity),
            ),
    {
        let EntityCommands { entity, commands } = self;
        commands.push(Command::DespawnRecursive(entity));
    }
}

} // verus!
