//! Policies: what is done with an entity on which a check's filter matched,
//! and the fixers that the repair policy runs.

use crate::command::{Command, Commands};
use crate::entity::{Entity, Record};
use crate::state::EntityState;
use crate::world::EntityRef;
use vstd::prelude::*;

verus! {

/// A programmable repair: it reads one entity and queues commands.
pub trait Fix {
    /// The fixer may be run on this entity.
    spec fn admits(&self, entity: Entity, state: EntityState) -> bool;

    /// `out` is a queue that the fixer may leave when run on this entity.
    spec fn emits(&self, entity: Entity, state: EntityState, out: Seq<Command>) -> bool;

    /// Runs the fixer on `entity`, with an empty queue to fill.
    fn fix(&self, entity: EntityRef<'_>, commands: &mut Commands)
        requires
            self.admits(entity.id(), entity@),
            old(commands)@.len() == 0,
        ensures
            self.emits(entity.id(), entity@, final(commands)@),
    ;
}

/// Any function of an entity view and a queue is a fixer. Through the
/// trait nothing is known of what it queues; a caller that knows the
/// function learns it from the function's own contract.
impl<F: Fn(EntityRef<'_>, &mut Commands)> Fix for F {
    open spec fn admits(&self, entity: Entity, state: EntityState) -> bool {
        forall|view: EntityRef<'_>, commands: &mut Commands|
            view.id() == entity && view@ == state && commands@.len() == 0 ==> #[trigger] call_requires(
                *self,
                (view, commands),
            )
    }

    open spec fn emits(&self, entity: Entity, state: EntityState, out: Seq<Command>) -> bool {
        true
    }

    /// Calls the function on `entity` and `commands`: what the function
    /// itself promises of that call holds of what the queue then holds.
    fn fix(&self, entity: EntityRef<'_>, commands: &mut Commands)
        ensures
            exists|queue: &mut Commands|
                *queue == *old(commands) && *final(queue) == *final(commands)
                    && #[trigger] call_ensures(*self, (entity, queue), ()),
    {
        self(entity, commands)
    }
}

/// Queues the attachment of a given record.
pub struct InsertRecord(pub Record);

impl Fix for InsertRecord {
    open spec fn admits(&self, entity: Entity, state: EntityState) -> bool {
        true
    }

    open spec fn emits(&self, entity: Entity, state: EntityState, out: Seq<Command>) -> bool {
        out == seq![Command::Insert(entity, self.0)]
    }

    fn fix(&self, entity: EntityRef<'_>, commands: &mut Commands) {
        commands.entity(entity.id()).insert(self.0);
        assert(commands@ =~= seq![Command::Insert(entity.id(), self.0)]);
    }
}

/// Queues the removal of the record of one tag, then the attachment of a
/// given record.
pub struct ReplaceRecord(pub u32, pub Record);

impl Fix for ReplaceRecord {
    open spec fn admits(&self, entity: Entity, state: EntityState) -> bool {
        true
    }

    open spec fn emits(&self, entity: Entity, state: EntityState, out: Seq<Command>) -> bool {
        out == seq![Command::Remove(entity, self.0), Command::Insert(entity, self.1)]
    }

    fn fix(&self, entity: EntityRef<'_>, commands: &mut Commands) {
        commands.entity(entity.id()).remove(self.0).insert(self.1);
        assert(commands@ =~= seq![
            Command::Remove(entity.id(), self.0),
            Command::Insert(entity.id(), self.1),
        ]);
    }
}

/// Queues the removal of the record of tag `from`, then the attachment of
/// a record of tag `to` whose value `with` computes from the removed one.
/// It may run only on an entity that has a record of tag `from`.
pub struct ReplaceWith<F> {
    pub from: u32,
    pub to: u32,
    pub with: F,
}

impl<F: Fn(u64) -> u64> Fix for ReplaceWith<F> {
    open spec fn admits(&self, entity: Entity, state: EntityState) -> bool {
        state.records.contains_key(self.from) && call_requires(
            self.with,
            (state.records[self.from],),
        )
    }

    open spec fn emits(&self, entity: Entity, state: EntityState, out: Seq<Command>) -> bool {
        exists|value: u64| #[trigger]
            call_ensures(self.with, (state.records[self.from],), value) && out == seq![
                Command::Remove(entity, self.from),
                Command::Insert(entity, Record { tag: self.to, value }),
            ]
    }

    fn fix(&self, entity: EntityRef<'_>, commands: &mut Commands) {
        let found = entity.get(self.from);
        match found {
            Some(existing) => {
                let value = (self.with)(existing);
                commands.entity(entity.id()).remove(self.from).insert(
                    Record { tag: self.to, value },
                );
                assert(commands@ =~= seq![
                    Command::Remove(entity.id(), self.from),
                    Command::Insert(entity.id(), Record { tag: self.to, value }),
                ]);
            },
            None => {},
        }
    }
}

/// Queues the removal of the record of one tag.
pub struct RemoveRecord(pub u32);

impl Fix for RemoveRecord {
    open spec fn admits(&self, entity: Entity, state: EntityState) -> bool {
        true
    }

    open spec fn emits(&self, entity: Entity, state: EntityState, out: Seq<Command>) -> bool {
        out == seq![Command::Remove(entity, self.0)]
    }

    fn fix(&self, entity: EntityRef<'_>, commands: &mut Commands) {
        commands.entity(entity.id()).remove(self.0);
        assert(commands@ =~= seq![Command::Remove(entity.id(), self.0)]);
    }
}

/// A fixer, owned by the one repair policy that runs it.
pub struct Fixer(pub Box<dyn Fix>);

impl Fixer {
    /// The fixer may be run on this entity.
    pub open spec fn admits(&self, entity: Entity, state: EntityState) -> bool {
        self.0.admits(entity, state)
    }

    /// `out` is what the fixer may queue when run on this entity.
    pub open spec fn emits(&self, entity: Entity, state: EntityState, out: Seq<Command>) -> bool {
        self.0.emits(entity, state, out)
    }

    /// Wraps a programmable repair.
    pub fn new<F: Fix + 'static>(f: F) -> (fixer: Fixer)
        ensures
            forall|e: Entity, s: EntityState| #[trigger] fixer.admits(e, s) == f.admits(e, s),
            forall|e: Entity, s: EntityState, out: Seq<Command>| #[trigger]
                fixer.emits(e, s, out) == f.emits(e, s, out),
    {
        Fixer(Box::new(f))
    }

    /// Runs the fixer on `entity` and queues what it asks for behind what
    /// `commands` already holds.
    pub fn fix(&self, entity: EntityRef<'_>, commands: &mut Commands)
        requires
            self.admits(entity.id(), entity@),
        ensures
            exists|tail: Seq<Command>| #[trigger]
                self.emits(entity.id(), entity@, tail) && final(commands)@ == old(commands)@
                    + tail,
    {
        let mut scratch = Commands::new();
        self.0.fix(entity, &mut scratch);
        let ghost tail = scratch@;
        commands.append(scratch);
        assert(self.emits(entity.id(), entity@, tail));
    }
}

/// What is done with an entity on which a check's filter matched.
pub enum Policy {
    /// Mark the entity as checked and invalid; it stays in the store.
    Invalid,
    /// Remove the entity and everything it owns.
    Purge,
    /// Abort at once.
    Panic,
    /// Run a fixer on the entity.
    Repair(Fixer),
}

/// A policy without its fixer.
#[derive(Clone, Copy, Debug, PartialEq, Eq, Structural)]
pub enum PolicyKind {
    Invalid,
    Purge,
    Panic,
    Repair,
}

/// What a check does with one entity.
#[derive(Clone, Copy, Debug, PartialEq, Eq, Structural)]
pub enum Action {
    /// The check does not evaluate the entity: nothing.
    Skip,
    /// The problem is absent: set `Checked`.
    Accept,
    /// Set `Checked` and `Invalid`.
    Invalidate,
    /// Remove the entity and everything it owns.
    Purge,
    /// Abort at once.
    Abort,
    /// Set `Checked`, then run the fixer.
    Repair,
}

impl PolicyKind {
    /// What a check with this policy does with an entity: `applies` says
    /// that the entity is of the check's kind and has not been checked,
    /// `problem` that the check's filter matches it.
    pub open spec fn action(self, applies: bool, problem: bool) -> Action {
        if !applies {
            Action::Skip
        } else if !problem {
            Action::Accept
        } else {
            match self {
                PolicyKind::Invalid => Action::Invalidate,
                PolicyKind::Purge => Action::Purge,
                PolicyKind::Panic => Action::Abort,
                PolicyKind::Repair => Action::Repair,
            }
        }
    }

    /// Decides what a check with this policy does with one entity.
    pub fn resolve(self, applies: bool, problem: bool) -> (a: Action)
        ensures
            a == self.action(applies, problem),
    {
        if !applies {
            Action::Skip
        } else if !problem {
            Action::Accept
        } else {
            match self {
                PolicyKind::Invalid => Action::Invalidate,
                PolicyKind::Purge => Action::Purge,
                PolicyKind::Panic => Action::Abort,
                PolicyKind::Repair => Action::Repair,
            }
        }
    }
}

impl Policy {
    /// The policy, without its fixer.
    pub open spec fn spec_kind(&self) -> PolicyKind {
        match self {
            Policy::Invalid => PolicyKind::Invalid,
            Policy::Purge => PolicyKind::Purge,
            Policy::Panic => PolicyKind::Panic,
            Policy::Repair(_) => PolicyKind::Repair,
        }
    }

    /// The policy, without its fixer.
    #[verifier::when_used_as_spec(spec_kind)]
    pub fn kind(&self) -> (k: PolicyKind)
        ensures
            k == self.kind(),
    {
        match self {
            Policy::Invalid => PolicyKind::Invalid,
            Policy::Purge => PolicyKind::Purge,
            Policy::Panic => PolicyKind::Panic,
            Policy::Repair(_) => PolicyKind::Repair,
        }
    }

    /// The policy repairs, and its fixer runs on every entity and queues
    /// exactly `script(entity)`.
    pub open spec fn repairs_by(self, script: spec_fn(Entity) -> Seq<Command>) -> bool {
        &&& self is Repair
        &&& forall|e: Entity, s: EntityState| #[trigger] self->Repair_0.admits(e, s)
        &&& forall|e: Entity, s: EntityState, out: Seq<Command>| #[trigger]
            self->Repair_0.emits(e, s, out) <==> out == script(e)
    }
}

/// The policy that marks matching entities as invalid.
pub fn invalid() -> (p: Policy)
    ensures
        p is Invalid,
{
    Policy::Invalid
}

/// The policy that removes matching entities and everything they own.
pub fn purge() -> (p: Policy)
    ensures
        p is Purge,
{
    Policy::Purge
}

/// The policy that aborts on the first matching entity.
pub fn panic() -> (p: Policy)
    ensures
        p is Panic,
{
    Policy::Panic
}

/// The policy that runs `f` on matching entities.
pub fn repair<F: Fix + 'static>(f: F) -> (p: Policy)
    ensures
        p is Repair,
        forall|e: Entity, s: EntityState| #[trigger] p->Repair_0.admits(e, s) == f.admits(e, s),
        forall|e: Entity, s: EntityState, out: Seq<Command>| #[trigger]
            p->Repair_0.emits(e, s, out) == f.emits(e, s, out),
{
    Policy::Repair(Fixer::new(f))
}

/// The policy that attaches `record` to matching entities.
pub fn repair_insert(record: Record) -> (p: Policy)
    ensures
        p.repairs_by(|e: Entity| seq![Command::Insert(e, record)]),
{
    repair(InsertRecord(record))
}

/// The policy that attaches the default record of type `tag` to matching
/// entities.
pub fn repair_insert_default(tag: u32) -> (p: Policy)
    ensures
        p.repairs_by(|e: Entity| seq![Command::Insert(e, Record { tag, value: 0 })]),
{
    repair(InsertRecord(Record::default_of(tag)))
}

/// The policy that detaches the record of type `tag` from matching
/// entities and attaches `record` in its place.
pub fn repair_replace(tag: u32, record: Record) -> (p: Policy)
    ensures
        p.repairs_by(|e: Entity| seq![Command::Remove(e, tag), Command::Insert(e, record)]),
{
    repair(ReplaceRecord(tag, record))
}

/// The policy that detaches the record of type `from` from matching
/// entities and attaches the default record of type `to` in its place.
pub fn repair_replace_default(from: u32, to: u32) -> (p: Policy)
    ensures
        p.repairs_by(
            |e: Entity|
                seq![Command::Remove(e, from), Command::Insert(e, Record { tag: to, value: 0 })],
        ),
{
    repair(ReplaceRecord(from, Record::default_of(to)))
}

/// The policy that detaches the record of type `from` from matching
/// entities and attaches a record of type `to` whose value `f` computes
/// from the detached one. Its fixer runs only on entities that have a
/// record of type `from`.
pub fn repair_replace_with<F: Fn(u64) -> u64 + 'static>(from: u32, to: u32, f: F) -> (p: Policy)
    ensures
        p is Repair,
        forall|e: Entity, s: EntityState| #[trigger]
            p->Repair_0.admits(e, s) == (ReplaceWith { from, to, with: f }).admits(e, s),
        forall|e: Entity, s: EntityState, out: Seq<Command>| #[trigger]
            p->Repair_0.emits(e, s, out) == (ReplaceWith { from, to, with: f }).emits(e, s, out),
{
    repair(ReplaceWith { from, to, with: f })
}

/// The policy that detaches the record of type `tag` from matching
/// entities.
pub fn repair_remove(tag: u32) -> (p: Policy)
    ensures
        p.repairs_by(|e: Entity| seq![Command::Remove(e, tag)]),
{
    repair(RemoveRecord(tag))
}

} // verus!
