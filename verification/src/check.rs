//! Check registrations and their evaluation against one snapshot of the
//! store.

use crate::command::{Command, Commands};
use crate::entity::Entity;
use crate::filter::CheckFilter;
use crate::policy::{Action, Policy};
use crate::state::{live, world_wf, EntityState, WorldState};
use crate::world::{EntityRef, World};
use vstd::prelude::*;

verus! {

/// One recurring evaluation unit: the entities it applies to, the problem
/// it looks for, and what it does about it.
pub struct Registration {
    pub kind: CheckFilter,
    pub filter: CheckFilter,
    pub policy: Policy,
}

impl Registration {
    /// The check evaluates an entity in this state: it is of the check's
    /// kind and has not been checked.
    pub open spec fn applies(&self, state: EntityState) -> bool {
        !state.checked && self.kind.holds(state)
    }

    /// The check finds the problem on an entity in this state.
    pub open spec fn matched(&self, state: EntityState) -> bool {
        self.applies(state) && self.filter.holds(state)
    }

    /// The check aborts the cycle on an entity in this state.
    pub open spec fn fatal_on(&self, state: EntityState) -> bool {
        self.matched(state) && self.policy is Panic
    }

    /// The check may run on an entity in this state: where it would hand
    /// the entity to a fixer, the fixer admits it.
    pub open spec fn admits(&self, entity: Entity, state: EntityState) -> bool {
        self.matched(state) && self.policy is Repair ==> self.policy->Repair_0.admits(
            entity,
            state,
        )
    }

    /// What the check does with an entity in this state.
    pub open spec fn action(&self, state: EntityState) -> Action {
        self.policy.kind().action(self.applies(state), self.filter.holds(state))
    }

    /// `out` is what the check may queue for an entity in this state.
    ///
    /// Under `Repair` the engine's own `Check` stands before what the fixer
    /// queued, so that a fixer's `CheckAgain` for the entity comes last
    /// and prevails.
    pub open spec fn verdict(&self, entity: Entity, state: EntityState, out: Seq<Command>) -> bool {
        match self.action(state) {
            Action::Skip => out == Seq::<Command>::empty(),
            Action::Accept => out == seq![Command::Check(entity)],
            Action::Invalidate => out == seq![Command::Invalidate(entity)],
            Action::Purge => out == seq![Command::DespawnRecursive(entity)],
            Action::Abort => out == Seq::<Command>::empty(),
            Action::Repair => exists|tail: Seq<Command>| #[trigger]
                self.policy->Repair_0.emits(entity, state, tail) && out == seq![
                    Command::Check(entity),
                ] + tail,
        }
    }

    /// The check aborts the cycle on the entity in slot `i`.
    pub open spec fn fatal_at(&self, w: WorldState, i: int) -> bool {
        live(w, i) && self.fatal_on(w[i]->0)
    }

    /// The check may run on every entity of the store.
    pub open spec fn admits_all(&self, w: WorldState) -> bool {
        forall|i: int| #[trigger]
            live(w, i) ==> self.admits(Entity { index: i as u32 }, w[i]->0)
    }

    /// `out` is what the check may queue for slot `i` of the store.
    pub open spec fn slot_log(&self, w: WorldState, i: int, out: Seq<Command>) -> bool {
        if live(w, i) {
            self.verdict(Entity { index: i as u32 }, w[i]->0, out)
        } else {
            out == Seq::<Command>::empty()
        }
    }

    /// `parts` holds, slot by slot, what the check may queue for the first
    /// `n` slots of the store.
    pub open spec fn scan_parts(&self, w: WorldState, n: int, parts: Seq<Seq<Command>>) -> bool {
        &&& parts.len() == n
        &&& forall|i: int| 0 <= i < n ==> self.slot_log(w, i, #[trigger] parts[i])
    }

    /// `out` is what the check may queue for the first `n` slots of the
    /// store, in slot order.
    pub open spec fn scan_log(&self, w: WorldState, n: int, out: Seq<Command>) -> bool {
        exists|parts: Seq<Seq<Command>>| #[trigger]
            self.scan_parts(w, n, parts) && out == parts.flatten()
    }

    /// Binds a kind, a filter and a policy into one check.
    pub fn new(kind: CheckFilter, filter: CheckFilter, policy: Policy) -> (r: Registration)
        ensures
            r == (Registration { kind, filter, policy }),
    {
        Registration { kind, filter, policy }
    }

    /// Evaluates the check on one entity and queues what follows. Returns
    /// `true`, and queues nothing, where the check aborts the cycle.
    pub fn evaluate(&self, entity: EntityRef<'_>, commands: &mut Commands) -> (fatal: bool)
        requires
            self.admits(entity.id(), entity@),
        ensures
            fatal == self.fatal_on(entity@),
            exists|out: Seq<Command>| #[trigger]
                self.verdict(entity.id(), entity@, out) && final(commands)@ == old(commands)@
                    + out,
    {
        let ghost before = commands@;
        let ghost none = Seq::<Command>::empty();
        let id = entity.id();
        let applies = !entity.is_checked() && self.kind.matches(&entity);
        let problem = self.filter.matches(&entity);
        match self.policy.kind().resolve(applies, problem) {
            Action::Skip => {
                assert(self.verdict(id, entity@, none));
                assert(commands@ =~= before + none);
                false
            },
            Action::Accept => {
                commands.push(Command::Check(id));
                assert(self.verdict(id, entity@, seq![Command::Check(id)]));
                assert(commands@ =~= before + seq![Command::Check(id)]);
                false
            },
            Action::Invalidate => {
                commands.push(Command::Invalidate(id));
                assert(self.verdict(id, entity@, seq![Command::Invalidate(id)]));
                assert(commands@ =~= before + seq![Command::Invalidate(id)]);
                false
            },
            Action::Purge => {
                commands.push(Command::DespawnRecursive(id));
                assert(self.verdict(id, entity@, seq![Command::DespawnRecursive(id)]));
                assert(commands@ =~= before + seq![Command::DespawnRecursive(id)]);
                false
            },
            Action::Abort => {
                assert(self.verdict(id, entity@, none));
                assert(commands@ =~= before + none);
                true
            },
            Action::Repair => {
                match &self.policy {
                    Policy::Repair(fixer) => {
                        commands.push(Command::Check(id));
                        let ghost mid = commands@;
                        fixer.fix(entity, commands);
                        proof {
                            let tail = choose|tail: Seq<Command>| #[trigger]
                                fixer.emits(id, entity@, tail) && commands@ == mid + tail;
                            let out = seq![Command::Check(id)] + tail;
                            assert(self.verdict(id, entity@, out));
                            assert(commands@ =~= before + out);
                        }
                    },
                    _ => {},
                }
                false
            },
        }
    }

    /// Evaluates the check on every entity of the store, in slot order,
    /// against the store as it stands: nothing queued takes effect during
    /// the scan. Returns the entity on which the check aborts the cycle,
    /// if there is one.
    pub fn scan(&self, world: &World, commands: &mut Commands) -> (abort: Option<Entity>)
        requires
            world.wf(),
            self.admits_all(world@),
        ensures
            abort matches Some(e) ==> self.fatal_at(world@, e.index as int) && forall|j: int|
                0 <= j < e.index ==> !#[trigger] self.fatal_at(world@, j),
            abort is None ==> forall|j: int| !#[trigger] self.fatal_at(world@, j),
            abort is None ==> exists|out: Seq<Command>| #[trigger]
                self.scan_log(world@, world@.len() as int, out) && final(commands)@ == old(
                    commands,
                )@ + out,
            abort matches Some(e) ==> exists|out: Seq<Command>| #[trigger]
                self.scan_log(world@, e.index as int, out) && final(commands)@ == old(commands)@
                    + out,
    {
        let ghost w = world@;
        let ghost before = commands@;
        let ghost parts = Seq::<Seq<Command>>::empty();
        let n = world.len();
        let mut i: usize = 0;
        let mut abort: Option<Entity> = None;
        assert(commands@ =~= before + parts.flatten());
        while i < n && abort.is_none()
            invariant
                i <= n,
                n == w.len(),
                w == world@,
                world_wf(w),
                self.admits_all(w),
                forall|j: int| 0 <= j < i ==> !#[trigger] self.fatal_at(w, j),
                self.scan_parts(w, i as int, parts),
                commands@ == before + parts.flatten(),
                abort matches Some(e) ==> e.index == i && i < n && self.fatal_at(w, i as int),
            decreases n - i + (if abort is None { 1int } else { 0int }),
        {
            let entity = Entity { index: i as u32 };
            let ghost mid = commands@;
            let ghost last;
            let mut fatal = false;
            match world.entity(entity) {
                Some(view) => {
                    assert(live(w, i as int));
                    fatal = self.evaluate(view, commands);
                    proof {
                        last = choose|out: Seq<Command>| #[trigger]
                            self.verdict(entity, w[i as int]->0, out) && commands@ == mid + out;
                    }
                },
                None => {
                    proof {
                        last = Seq::<Command>::empty();
                        assert(commands@ =~= mid + last);
                    }
                },
            }
            if fatal {
                proof {
                    assert(last =~= Seq::<Command>::empty());
                    assert(commands@ =~= before + parts.flatten());
                }
                abort = Some(entity);
            } else {
                proof {
                    assert(self.slot_log(w, i as int, last));
                    parts.lemma_flatten_push(last);
                    assert(commands@ =~= before + parts.push(last).flatten());
                    parts = parts.push(last);
                }
                i = i + 1;
            }
        }
        proof {
            if abort is None {
                assert forall|j: int| !#[trigger] self.fatal_at(w, j) by {
                    if live(w, j) {
                        assert(0 <= j < i);
                    }
                }
                assert(self.scan_log(w, w.len() as int, parts.flatten()));
            } else {
                assert(self.scan_log(w, abort->0.index as int, parts.flatten()));
            }
        }
        abort
    }
}

/// What stopped a cycle: the check that aborted, by its place in the order
/// of registration, and the entity on which it did.
#[derive(Clone, Copy, Debug, PartialEq, Eq, Structural)]
pub struct Abort {
    pub check: usize,
    pub entity: Entity,
}

/// Check `k` aborts the cycle on the entity in slot `i`.
pub open spec fn fatal_pair(checks: Seq<Registration>, w: WorldState, k: int, i: int) -> bool {
    0 <= k < checks.len() && checks[k].fatal_at(w, i)
}

/// The pair `(k1, i1)` is evaluated before `(k2, i2)`.
pub open spec fn earlier(k1: int, i1: int, k2: int, i2: int) -> bool {
    k1 < k2 || (k1 == k2 && i1 < i2)
}

/// Every check may run on every entity of the store.
pub open spec fn admit_all(checks: Seq<Registration>, w: WorldState) -> bool {
    forall|k: int| 0 <= k < checks.len() ==> (#[trigger] checks[k]).admits_all(w)
}

/// `parts` holds, check by check, what the first `k` checks may queue in
/// one cycle over the store `w`, each scan made against `w` itself.
pub open spec fn cycle_parts(
    checks: Seq<Registration>,
    w: WorldState,
    k: int,
    parts: Seq<Seq<Command>>,
) -> bool {
    &&& parts.len() == k
    &&& forall|j: int| 0 <= j < k ==> checks[j].scan_log(w, w.len() as int, #[trigger] parts[j])
}

/// `out` is what the first `k` checks may queue in one cycle over the
/// store `w`: the log of each check's scan, in the order of registration,
/// each scan made against `w` itself.
pub open spec fn cycle_log(checks: Seq<Registration>, w: WorldState, k: int, out: Seq<Command>) -> bool {
    exists|parts: Seq<Seq<Command>>| #[trigger]
        cycle_parts(checks, w, k, parts) && out == parts.flatten()
}

/// The registered checks, in the order of their registration.
pub struct CheckSystems {
    checks: Vec<Registration>,
}

impl View for CheckSystems {
    type V = Seq<Registration>;

    closed spec fn view(&self) -> Seq<Registration> {
        self.checks@
    }
}

impl CheckSystems {
    /// No check.
    pub fn new() -> (s: CheckSystems)
        ensures
            s@ == Seq::<Registration>::empty(),
    {
        CheckSystems { checks: Vec::new() }
    }

    /// The number of registered checks.
    pub fn len(&self) -> (n: usize)
        ensures
            n == self@.len(),
    {
        self.checks.len()
    }

    /// Registers one more check, behind those already registered.
    pub fn add(&mut self, check: Registration)
        ensures
            final(self)@ == old(self)@.push(check),
    {
        self.checks.push(check);
    }

    /// One cycle's scan: every check is evaluated, in the order of
    /// registration, against the same store, and what they queue is
    /// returned for the synchronisation point. Where a check aborts, the
    /// first such check and entity are returned instead, and what was
    /// queued is dropped.
    pub fn evaluate(&self, world: &World) -> (r: Result<Commands, Abort>)
        requires
            world.wf(),
            admit_all(self@, world@),
        ensures
            r matches Err(a) ==> fatal_pair(self@, world@, a.check as int, a.entity.index as int)
                && forall|k: int, i: int|
                earlier(k, i, a.check as int, a.entity.index as int) ==> !#[trigger] fatal_pair(
                    self@,
                    world@,
                    k,
                    i,
                ),
            r matches Ok(commands) ==> cycle_log(self@, world@, self@.len() as int, commands@)
                && forall|k: int, i: int| !#[trigger] fatal_pair(self@, world@, k, i),
    {
        let ghost w = world@;
        let mut commands = Commands::new();
        let ghost parts = Seq::<Seq<Command>>::empty();
        let n = self.checks.len();
        let mut k: usize = 0;
        assert(commands@ =~= parts.flatten());
        while k < n
            invariant
                k <= n,
                n == self@.len(),
                w == world@,
                world.wf(),
                admit_all(self@, w),
                cycle_parts(self@, w, k as int, parts),
                commands@ == parts.flatten(),
                forall|j: int, i: int| 0 <= j < k ==> !#[trigger] fatal_pair(self@, w, j, i),
            decreases n - k,
        {
            let ghost head = commands@;
            assert(self@[k as int].admits_all(w));
            let abort = self.checks[k].scan(world, &mut commands);
            match abort {
                Some(entity) => {
                    return Err(Abort { check: k, entity });
                },
                None => {},
            }
            proof {
                let last = choose|out: Seq<Command>| #[trigger]
                    self@[k as int].scan_log(w, w.len() as int, out) && commands@ == head + out;
                parts.lemma_flatten_push(last);
                parts = parts.push(last);
            }
            k = k + 1;
        }
        Ok(commands)
    }
}

} // verus!
