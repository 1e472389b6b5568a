//! The host: a store, the checks registered on it, and the cycle that
//! evaluates them.

use crate::check::{admit_all, cycle_log, earlier, fatal_pair, Abort, CheckSystems, Registration};
use crate::command::{run, Command};
use crate::filter::CheckFilter;
use crate::policy::Policy;
use crate::state::{world_wf, WorldState};
use crate::world::World;
use vstd::prelude::*;

verus! {

/// How a cycle ended.
#[derive(Clone, Copy, Debug, PartialEq, Eq, Structural)]
pub enum Outcome {
    /// Every check scanned the store, and what they queued took effect.
    Completed,
    /// A check aborted under the `Panic` policy. Nothing that was queued
    /// took effect, and no further cycle runs.
    Aborted(Abort),
}

/// A store together with the checks registered on it.
pub struct App {
    world: World,
    systems: CheckSystems,
    halted: Option<Abort>,
}

impl App {
    /// What the store holds.
    pub closed spec fn store(&self) -> WorldState {
        self.world@
    }

    /// The registered checks, in the order of their registration.
    pub closed spec fn checks(&self) -> Seq<Registration> {
        self.systems@
    }

    /// What stopped the host, once a check has aborted.
    pub closed spec fn halted(&self) -> Option<Abort> {
        self.halted
    }

    /// The store's invariant holds.
    pub open spec fn wf(&self) -> bool {
        world_wf(self.store())
    }

    /// Every fixer admits every entity that its check would hand to it.
    pub open spec fn repairable(&self) -> bool {
        admit_all(self.checks(), self.store())
    }

    /// A host with an empty store and no check.
    pub fn new() -> (app: App)
        ensures
            app.wf(),
            app.store() == Seq::<Option<crate::state::EntityState>>::empty(),
            app.checks() == Seq::<Registration>::empty(),
            app.halted() is None,
    {
        App { world: World::new(), systems: CheckSystems::new(), halted: None }
    }

    /// The store, to read.
    pub fn world(&self) -> (w: &World)
        ensures
            w@ == self.store(),
    {
        &self.world
    }

    /// The store, to change at once.
    pub fn world_mut(&mut self) -> (w: &mut World)
        ensures
            w@ == old(self).store(),
            final(self).store() == final(w)@,
            final(self).checks() == old(self).checks(),
            final(self).halted() == old(self).halted(),
    {
        &mut self.world
    }

    /// One cycle. Every check scans the store as it stands at the start,
    /// in the order of registration; then everything that was queued takes
    /// effect at once. Where a check aborts, the host stops for good:
    /// nothing queued takes effect, and this and every later call reports
    /// the same abort.
    pub fn update(&mut self) -> (outcome: Outcome)
        requires
            old(self).wf(),
            old(self).repairable(),
        ensures
            final(self).wf(),
            final(self).checks() == old(self).checks(),
            old(self).halted() matches Some(a) ==> outcome == Outcome::Aborted(a)
                && final(self).store() == old(self).store()
                && final(self).halted() == old(self).halted(),
            old(self).halted() is None && outcome is Completed ==> {
                &&& final(self).halted() is None
                &&& forall|k: int, i: int|
                    !#[trigger] fatal_pair(old(self).checks(), old(self).store(), k, i)
                &&& exists|log: Seq<Command>| #[trigger]
                    cycle_log(
                        old(self).checks(),
                        old(self).store(),
                        old(self).checks().len() as int,
                        log,
                    ) && final(self).store() == run(old(self).store(), log)
            },
            old(self).halted() is None ==> (outcome matches Outcome::Aborted(a) ==> {
                &&& final(self).halted() == Some(a)
                &&& final(self).store() == old(self).store()
                &&& fatal_pair(
                    old(self).checks(),
                    old(self).store(),
                    a.check as int,
                    a.entity.index as int,
                )
                &&& forall|k: int, i: int|
                    earlier(k, i, a.check as int, a.entity.index as int) ==> !#[trigger] fatal_pair(
                        old(self).checks(),
                        old(self).store(),
                        k,
                        i,
                    )
            }),
    {
        match self.halted {
            Some(a) => {
                return Outcome::Aborted(a);
            },
            None => {},
        }
        match self.systems.evaluate(&self.world) {
            Ok(commands) => {
                self.world.apply(&commands);
                Outcome::Completed
            },
            Err(a) => {
                self.halted = Some(a);
                Outcome::Aborted(a)
            },
        }
    }
}

/// Registration of checks on a host.
pub trait Check {
    /// Installs one recurring check: every entity selected by `kind` that
    /// has not been checked is tested against `filter`, and `policy` is
    /// invoked where it matches. Returns the host, so that registrations
    /// chain.
    fn check(&mut self, kind: CheckFilter, filter: CheckFilter, policy: Policy) -> &mut Self;
}

impl Check for App {
    fn check(&mut self, kind: CheckFilter, filter: CheckFilter, policy: Policy) -> (app: &mut Self)
        ensures
            app.store() == old(self).store(),
            app.halted() == old(self).halted(),
            app.checks() == old(self).checks().push(Registration { kind, filter, policy }),
            *final(self) == *final(app),
    {
        self.systems.add(Registration::new(kind, filter, policy));
        self
    }
}

} // verus!
