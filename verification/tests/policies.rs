use moonshine_check::check::{Abort, CheckSystems, Registration};
use moonshine_check::command::{Command, Commands};
use moonshine_check::engine::{App, Check, Outcome};
use moonshine_check::entity::{Entity, Record};
use moonshine_check::filter::CheckFilter;
use moonshine_check::policy::{
    invalid, purge, repair, repair_insert, repair_insert_default, repair_remove, repair_replace,
    repair_replace_default, repair_replace_with, Action, Fixer, InsertRecord, Policy, PolicyKind,
};
use moonshine_check::world::{EntityRef, World};

const A: u32 = 1;
const B: u32 = 2;
const OLD: u32 = 3;
const NEW: u32 = 4;

fn one_entity(records: Vec<Record>, filter: CheckFilter, policy: Policy) -> (App, Entity) {
    let mut app = App::new();
    app.check(CheckFilter::With(A), filter, policy);
    let e = app.world_mut().spawn(&records);
    assert_eq!(app.update(), Outcome::Completed);
    (app, e)
}

#[test]
fn decision_table() {
    for kind in [PolicyKind::Invalid, PolicyKind::Purge, PolicyKind::Panic, PolicyKind::Repair] {
        assert_eq!(kind.resolve(false, false), Action::Skip);
        assert_eq!(kind.resolve(false, true), Action::Skip);
        assert_eq!(kind.resolve(true, false), Action::Accept);
    }
    assert_eq!(PolicyKind::Invalid.resolve(true, true), Action::Invalidate);
    assert_eq!(PolicyKind::Purge.resolve(true, true), Action::Purge);
    assert_eq!(PolicyKind::Panic.resolve(true, true), Action::Abort);
    assert_eq!(PolicyKind::Repair.resolve(true, true), Action::Repair);
}

#[test]
fn policy_constructors() {
    assert_eq!(invalid().kind(), PolicyKind::Invalid);
    assert_eq!(purge().kind(), PolicyKind::Purge);
    assert_eq!(moonshine_check::policy::panic().kind(), PolicyKind::Panic);
    assert_eq!(repair(InsertRecord(Record::new(B, 1))).kind(), PolicyKind::Repair);
    assert_eq!(repair_remove(B).kind(), PolicyKind::Repair);
}

#[test]
fn fixer_queues_behind_what_is_there() {
    let mut world = World::new();
    let e = world.spawn(&vec![Record::new(A, 0)]);
    let fixer = Fixer::new(InsertRecord(Record::new(B, 9)));
    let mut commands = Commands::new();
    commands.entity(e).remove(A);
    fixer.fix(world.entity(e).unwrap(), &mut commands);
    assert_eq!(commands.len(), 2);
    assert_eq!(commands.get(0), Some(Command::Remove(e, A)));
    assert_eq!(commands.get(1), Some(Command::Insert(e, Record::new(B, 9))));
    assert_eq!(commands.get(2), None);
}

#[test]
fn repair_insert_attaches_the_given_value() {
    let (app, e) = one_entity(
        vec![Record::new(A, 0)],
        CheckFilter::Without(B),
        repair_insert(Record::new(B, 7)),
    );
    assert_eq!(app.world().get(e, B), Some(7));
    assert!(app.world().is_checked(e));
}

#[test]
fn repair_insert_default_attaches_zero() {
    let (app, e) =
        one_entity(vec![Record::new(A, 0)], CheckFilter::Without(B), repair_insert_default(B));
    assert_eq!(app.world().get(e, B), Some(0));
    assert!(app.world().is_checked(e));
}

#[test]
fn repair_replace_swaps_the_record() {
    let (app, e) = one_entity(
        vec![Record::new(A, 0), Record::new(OLD, 3)],
        CheckFilter::With(OLD),
        repair_replace(OLD, Record::new(NEW, 8)),
    );
    assert!(!app.world().has(e, OLD));
    assert_eq!(app.world().get(e, NEW), Some(8));
    assert_eq!(app.world().get(e, A), Some(0));
}

#[test]
fn repair_replace_default_swaps_for_zero() {
    let (app, e) = one_entity(
        vec![Record::new(A, 0), Record::new(OLD, 3)],
        CheckFilter::With(OLD),
        repair_replace_default(OLD, NEW),
    );
    assert!(!app.world().has(e, OLD));
    assert_eq!(app.world().get(e, NEW), Some(0));
}

#[test]
fn repair_replace_with_transforms_the_old_value() {
    let (app, e) = one_entity(
        vec![Record::new(A, 0), Record::new(OLD, 20)],
        CheckFilter::With(OLD),
        repair_replace_with(OLD, NEW, |v: u64| v * 2 + 1),
    );
    assert!(!app.world().has(e, OLD));
    assert_eq!(app.world().get(e, NEW), Some(41));
    assert!(app.world().is_checked(e));
}

#[test]
fn repair_replace_with_same_tag_overwrites() {
    let (app, e) = one_entity(
        vec![Record::new(A, 0), Record::new(OLD, 20)],
        CheckFilter::With(OLD),
        repair_replace_with(OLD, OLD, |v: u64| v + 1),
    );
    assert_eq!(app.world().get(e, OLD), Some(21));
}

#[test]
fn repair_remove_detaches_the_record() {
    let (app, e) = one_entity(
        vec![Record::new(A, 0), Record::new(OLD, 3)],
        CheckFilter::With(OLD),
        repair_remove(OLD),
    );
    assert!(!app.world().has(e, OLD));
    assert!(app.world().is_checked(e));
    assert!(!app.world().is_invalid(e));
}

#[test]
fn policy_runs_only_where_the_filter_matches() {
    let mut app = App::new();
    app.check(CheckFilter::With(A), CheckFilter::Without(B), purge());
    let kept = app.world_mut().spawn(&vec![Record::new(A, 0), Record::new(B, 0)]);
    let gone = app.world_mut().spawn(&vec![Record::new(A, 0)]);
    assert_eq!(app.update(), Outcome::Completed);
    assert!(app.world().contains(kept));
    assert!(app.world().is_checked(kept));
    assert!(!app.world().contains(gone));
}

#[test]
fn repair_queues_check_before_the_fixer() {
    let mut world = World::new();
    let e = world.spawn(&vec![Record::new(A, 0)]);
    let check = Registration::new(
        CheckFilter::With(A),
        CheckFilter::Without(B),
        repair_insert(Record::new(B, 1)),
    );
    let mut commands = Commands::new();
    let fatal = check.evaluate(world.entity(e).unwrap(), &mut commands);
    assert!(!fatal);
    assert_eq!(commands.len(), 2);
    assert_eq!(commands.get(0), Some(Command::Check(e)));
    assert_eq!(commands.get(1), Some(Command::Insert(e, Record::new(B, 1))));
}

#[test]
fn evaluate_queues_one_command_per_policy() {
    let mut world = World::new();
    let e = world.spawn(&vec![Record::new(A, 0)]);
    let other = world.spawn(&vec![Record::new(B, 0)]);

    let mut commands = Commands::new();
    let check = Registration::new(CheckFilter::With(A), CheckFilter::Without(B), invalid());
    assert!(!check.evaluate(world.entity(e).unwrap(), &mut commands));
    assert!(!check.evaluate(world.entity(other).unwrap(), &mut commands));
    let check = Registration::new(CheckFilter::With(A), CheckFilter::Without(B), purge());
    assert!(!check.evaluate(world.entity(e).unwrap(), &mut commands));
    let check = Registration::new(CheckFilter::With(A), CheckFilter::With(B), purge());
    assert!(!check.evaluate(world.entity(e).unwrap(), &mut commands));
    let check = Registration::new(
        CheckFilter::With(A),
        CheckFilter::Without(B),
        moonshine_check::policy::panic(),
    );
    assert!(check.evaluate(world.entity(e).unwrap(), &mut commands));

    assert_eq!(commands.len(), 3);
    assert_eq!(commands.get(0), Some(Command::Invalidate(e)));
    assert_eq!(commands.get(1), Some(Command::DespawnRecursive(e)));
    assert_eq!(commands.get(2), Some(Command::Check(e)));
}

#[test]
fn scan_stops_at_the_first_fatal_entity() {
    let mut world = World::new();
    let fine = world.spawn(&vec![Record::new(A, 0), Record::new(B, 0)]);
    let first = world.spawn(&vec![Record::new(A, 0)]);
    let _second = world.spawn(&vec![Record::new(A, 0)]);
    let check = Registration::new(
        CheckFilter::With(A),
        CheckFilter::Without(B),
        moonshine_check::policy::panic(),
    );
    let mut commands = Commands::new();
    assert_eq!(check.scan(&world, &mut commands), Some(first));
    assert_eq!(commands.len(), 1);
    assert_eq!(commands.get(0), Some(Command::Check(fine)));
}

#[test]
fn evaluate_reports_the_first_abort_in_registration_order() {
    let mut world = World::new();
    let _a = world.spawn(&vec![Record::new(A, 0)]);
    let b = world.spawn(&vec![Record::new(B, 0)]);
    let mut systems = CheckSystems::new();
    systems.add(Registration::new(CheckFilter::With(A), CheckFilter::Without(B), invalid()));
    systems.add(Registration::new(
        CheckFilter::With(B),
        CheckFilter::Without(A),
        moonshine_check::policy::panic(),
    ));
    systems.add(Registration::new(
        CheckFilter::With(A),
        CheckFilter::Without(B),
        moonshine_check::policy::panic(),
    ));
    assert_eq!(systems.len(), 3);
    match systems.evaluate(&world) {
        Err(abort) => assert_eq!(abort, Abort { check: 1, entity: b }),
        Ok(_) => panic!("the cycle must abort"),
    }
}

#[test]
fn abort_leaves_the_store_untouched_and_halts_the_host() {
    let mut app = App::new();
    app.check(CheckFilter::With(A), CheckFilter::Without(B), invalid())
        .check(CheckFilter::With(B), CheckFilter::Without(A), moonshine_check::policy::panic());
    let a = app.world_mut().spawn(&vec![Record::new(A, 0)]);
    let b = app.world_mut().spawn(&vec![Record::new(B, 0)]);

    let abort = Abort { check: 1, entity: b };
    assert_eq!(app.update(), Outcome::Aborted(abort));
    // What the first check queued did not take effect.
    assert!(!app.world().is_checked(a));
    assert!(!app.world().is_invalid(a));

    // The host stays stopped, even once the cause is gone.
    app.world_mut().entity_mut(b).unwrap().insert(Record::new(A, 0));
    assert_eq!(app.update(), Outcome::Aborted(abort));
    assert!(!app.world().is_checked(a));
}

#[test]
fn cycle_without_checks_changes_nothing() {
    let mut app = App::new();
    let e = app.world_mut().spawn(&vec![Record::new(A, 0)]);
    assert_eq!(app.update(), Outcome::Completed);
    assert!(app.world().contains(e));
    assert!(!app.world().is_checked(e));
}

#[test]
fn custom_fixer_reads_the_entity() {
    let mut app = App::new();
    app.check(
        CheckFilter::With(A),
        CheckFilter::Without(B),
        repair(|entity: EntityRef, commands: &mut Commands| {
            let seen = entity.get(A).unwrap();
            commands.entity(entity.id()).insert(Record::new(B, seen + 1));
        }),
    );
    let e = app.world_mut().spawn(&vec![Record::new(A, 99)]);
    assert_eq!(app.update(), Outcome::Completed);
    assert_eq!(app.world().get(e, B), Some(100));
}
