use moonshine_check::command::Commands;
use moonshine_check::engine::{App, Check, Outcome};
use moonshine_check::entity::{Entity, Record};
use moonshine_check::filter::{CheckFilter, Valid};
use moonshine_check::policy::{invalid, purge, repair, repair_insert};
use moonshine_check::recheck::CheckAgain;
use moonshine_check::world::EntityRef;

const A: u32 = 10;
const B: u32 = 11;
const C: u32 = 12;
const ATTEMPTED: u32 = 13;

fn rec(tag: u32) -> Record {
    Record::new(tag, 0)
}

fn checked(app: &App, e: Entity) -> bool {
    app.world().is_checked(e)
}

fn invalid_mark(app: &App, e: Entity) -> bool {
    app.world().is_invalid(e)
}

#[test]
fn single_pass_ends_in_one_of_the_final_states() {
    let mut app = App::new();
    app.check(CheckFilter::With(A), CheckFilter::Without(B), invalid())
        .check(CheckFilter::With(C), CheckFilter::Without(B), purge());

    let fine = app.world_mut().spawn(&vec![rec(A), rec(B)]);
    let broken = app.world_mut().spawn(&vec![rec(A)]);
    let doomed = app.world_mut().spawn(&vec![rec(C)]);
    let stranger = app.world_mut().spawn(&vec![rec(B)]);

    assert_eq!(app.update(), Outcome::Completed);

    // Checked alone.
    assert!(checked(&app, fine) && !invalid_mark(&app, fine));
    // Checked and invalid.
    assert!(checked(&app, broken) && invalid_mark(&app, broken));
    // Removed.
    assert!(!app.world().contains(doomed));
    // No check is bound to its kind: it is not evaluated.
    assert!(app.world().contains(stranger));
    assert!(!checked(&app, stranger));
}

#[test]
fn checked_entity_is_not_evaluated_again() {
    let mut app = App::new();
    app.check(CheckFilter::With(A), CheckFilter::Without(B), invalid());

    let e = app.world_mut().spawn(&vec![rec(A), rec(B)]);
    assert_eq!(app.update(), Outcome::Completed);
    assert!(checked(&app, e) && !invalid_mark(&app, e));

    // The problem appears after the entity was checked: no cycle sees it.
    app.world_mut().entity_mut(e).unwrap().remove(B);
    assert_eq!(app.update(), Outcome::Completed);
    assert_eq!(app.update(), Outcome::Completed);
    assert!(checked(&app, e) && !invalid_mark(&app, e));

    // Until the re-check trigger is invoked.
    app.world_mut().entity_mut(e).unwrap().check_again();
    assert!(!checked(&app, e));
    assert_eq!(app.update(), Outcome::Completed);
    assert!(checked(&app, e) && invalid_mark(&app, e));
}

#[test]
fn invalid_entity_is_not_evaluated_again() {
    let mut app = App::new();
    app.check(CheckFilter::With(A), CheckFilter::Without(B), invalid());

    let e = app.world_mut().spawn(&vec![rec(A)]);
    assert_eq!(app.update(), Outcome::Completed);
    assert!(invalid_mark(&app, e));

    // Mending the entity does not clear the marker by itself.
    app.world_mut().entity_mut(e).unwrap().insert(rec(B));
    assert_eq!(app.update(), Outcome::Completed);
    assert!(checked(&app, e) && invalid_mark(&app, e));

    app.world_mut().entity_mut(e).unwrap().check_again();
    assert_eq!(app.update(), Outcome::Completed);
    assert!(checked(&app, e) && !invalid_mark(&app, e));
}

fn two_checks(first_lacks: u32, second_lacks: u32) -> Outcome {
    let mut app = App::new();
    app.check(CheckFilter::With(A), CheckFilter::Without(first_lacks), moonshine_check::policy::panic())
        .check(CheckFilter::With(A), CheckFilter::Without(second_lacks), moonshine_check::policy::panic());
    app.world_mut().spawn(&vec![rec(A), rec(B)]);
    app.update()
}

#[test]
fn snapshot_isolation_in_either_order() {
    // The entity has B and lacks C: the check on C fires, whichever check
    // was registered first.
    match two_checks(B, C) {
        Outcome::Aborted(abort) => {
            assert_eq!(abort.check, 1);
            assert_eq!(abort.entity, Entity::from_raw(0));
        }
        Outcome::Completed => panic!("the second check was hidden"),
    }
    match two_checks(C, B) {
        Outcome::Aborted(abort) => {
            assert_eq!(abort.check, 0);
            assert_eq!(abort.entity, Entity::from_raw(0));
        }
        Outcome::Completed => panic!("the first check was hidden"),
    }
}

#[test]
fn both_checks_see_the_unchecked_entity() {
    // The first check marks nothing that the second could see in the same
    // cycle: both evaluate the entity, and both effects arrive.
    let mut app = App::new();
    app.check(CheckFilter::With(A), CheckFilter::Without(B), repair_insert(Record::new(B, 5)))
        .check(CheckFilter::With(A), CheckFilter::Without(C), repair_insert(Record::new(C, 6)));
    let e = app.world_mut().spawn(&vec![rec(A)]);
    assert_eq!(app.update(), Outcome::Completed);
    assert_eq!(app.world().get(e, B), Some(5));
    assert_eq!(app.world().get(e, C), Some(6));
    assert!(checked(&app, e));
}

#[test]
fn purge_cascades_to_descendants() {
    let mut app = App::new();
    app.check(CheckFilter::With(A), CheckFilter::Without(B), purge());

    let root = app.world_mut().spawn(&vec![rec(A)]);
    let child = app.world_mut().spawn_child(root, &vec![rec(C)]).unwrap();
    let grandchild = app.world_mut().spawn_child(child, &vec![]).unwrap();
    let bystander = app.world_mut().spawn(&vec![rec(C)]);

    assert_eq!(app.update(), Outcome::Completed);

    assert!(!app.world().contains(root));
    assert!(!app.world().contains(child));
    assert!(!app.world().contains(grandchild));
    assert!(app.world().contains(bystander));
}

#[test]
fn repair_completes_in_one_cycle() {
    let mut app = App::new();
    app.check(CheckFilter::With(A), CheckFilter::Without(B), repair_insert(Record::new(B, 42)));

    let e = app.world_mut().spawn(&vec![rec(A)]);
    assert_eq!(app.update(), Outcome::Completed);

    assert_eq!(app.world().get(e, B), Some(42));
    assert!(checked(&app, e));
    assert!(!invalid_mark(&app, e));
}

#[test]
fn recheck_offers_the_entity_once_per_clear() {
    let mut app = App::new();
    app.check(
        CheckFilter::With(A),
        CheckFilter::Without(B),
        repair(|entity: EntityRef, commands: &mut Commands| {
            if entity.contains(ATTEMPTED) {
                // Second offer: give up, without asking again.
                commands.entity(entity.id()).insert(Record::new(B, 1));
            } else {
                commands.entity(entity.id()).insert(Record::new(ATTEMPTED, 1)).check_again();
            }
        }),
    );
    let e = app.world_mut().spawn(&vec![rec(A)]);

    assert_eq!(app.update(), Outcome::Completed);
    assert!(app.world().has(e, ATTEMPTED));
    assert!(!app.world().has(e, B));
    assert!(!checked(&app, e));

    assert_eq!(app.update(), Outcome::Completed);
    assert!(app.world().has(e, B));
    assert!(checked(&app, e));

    // Nothing cleared the markers: the fixer is not run a third time.
    app.world_mut().entity_mut(e).unwrap().remove(B);
    assert_eq!(app.update(), Outcome::Completed);
    assert!(!app.world().has(e, B));
    assert!(checked(&app, e));
}

#[test]
fn valid_view_is_checked_and_not_invalid() {
    let mut app = App::new();
    app.check(CheckFilter::With(A), CheckFilter::Without(B), invalid());

    let good = app.world_mut().spawn(&vec![rec(A), rec(B)]);
    let bad = app.world_mut().spawn(&vec![rec(A)]);
    let other = app.world_mut().spawn(&vec![rec(C)]);

    // Before the cycle nothing is checked, so nothing is valid.
    assert!(!Valid::matches(&app.world().entity(good).unwrap()));

    assert_eq!(app.update(), Outcome::Completed);

    for e in [good, bad, other] {
        let view = app.world().entity(e).unwrap();
        assert_eq!(Valid::matches(&view), view.is_checked() && !view.is_invalid());
    }
    assert!(Valid::matches(&app.world().entity(good).unwrap()));
    assert!(!Valid::matches(&app.world().entity(bad).unwrap()));
    assert!(!Valid::matches(&app.world().entity(other).unwrap()));

    // A downstream reader selects the valid entities of a kind.
    let valid = app.world().query(&CheckFilter::With(A).and(CheckFilter::Valid));
    assert_eq!(valid, vec![good]);
}
