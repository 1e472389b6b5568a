use moonshine_check::command::Commands;
use moonshine_check::engine::{App, Check, Outcome};
use moonshine_check::entity::Record;
use moonshine_check::filter::CheckFilter;
use moonshine_check::policy::{invalid, purge, repair};
use moonshine_check::recheck::CheckAgain;
use moonshine_check::world::EntityRef;

const FOO: u32 = 1;
const BAR: u32 = 2;
const BAZ: u32 = 3;
const REPAIRED: u32 = 4;

fn marker(tag: u32) -> Record {
    Record::new(tag, 0)
}

/// Runs one cycle as a host does: an abort ends the process.
fn update(app: &mut App) {
    if let Outcome::Aborted(abort) = app.update() {
        panic!("{:?} is strictly invalid: check {}", abort.entity, abort.check);
    }
}

#[test]
fn test_valid() {
    let mut app = App::new();
    app.check(CheckFilter::With(FOO), CheckFilter::Without(BAR), moonshine_check::policy::panic());

    let entity = app.world_mut().spawn(&vec![marker(FOO), marker(BAR)]);
    update(&mut app);

    assert!(app.world().entity(entity).unwrap().is_checked());
    assert!(!app.world().entity(entity).unwrap().is_invalid());
}

#[test]
fn test_invalid() {
    let mut app = App::new();
    app.check(CheckFilter::With(FOO), CheckFilter::Without(BAR), invalid());

    let entity = app.world_mut().spawn(&vec![marker(FOO)]);
    update(&mut app);

    assert!(app.world().entity(entity).unwrap().is_checked());
    assert!(app.world().entity(entity).unwrap().is_invalid());
}

#[test]
fn test_purge() {
    let mut app = App::new();
    app.check(CheckFilter::With(FOO), CheckFilter::Without(BAR), purge());

    let entity = app.world_mut().spawn(&vec![marker(FOO)]);
    update(&mut app);

    assert!(app.world().entity(entity).is_none());
}

#[test]
#[should_panic]
fn test_panic() {
    let mut app = App::new();
    app.check(CheckFilter::With(FOO), CheckFilter::Without(BAR), moonshine_check::policy::panic());

    app.world_mut().spawn(&vec![marker(FOO)]);
    update(&mut app);
}

#[test]
fn test_repair() {
    let mut app = App::new();
    app.check(
        CheckFilter::With(FOO),
        CheckFilter::Without(BAR),
        repair(|entity: EntityRef, commands: &mut Commands| {
            commands.entity(entity.id()).insert(marker(BAR));
        }),
    );

    let entity = app.world_mut().spawn(&vec![marker(FOO)]);
    update(&mut app);

    assert!(app.world().entity(entity).unwrap().contains(BAR));
    assert!(app.world().entity(entity).unwrap().is_checked());
}

#[test]
#[should_panic]
fn test_check_again() {
    let mut app = App::new();
    app.check(
        CheckFilter::With(FOO),
        CheckFilter::Without(BAR),
        repair(|entity: EntityRef, commands: &mut Commands| {
            // Avoid infinite repair loop
            if entity.contains(REPAIRED) {
                panic!("Bar is still missing!");
            }

            // Oops! Maybe we forget to insert Bar ...
            // Check again to be sure:
            commands.entity(entity.id()).insert(marker(REPAIRED)).check_again();
        }),
    );

    let entity = app.world_mut().spawn(&vec![marker(FOO)]);
    update(&mut app);

    assert!(!app.world().entity(entity).unwrap().contains(BAR));
    assert!(!app.world().entity(entity).unwrap().is_checked());

    update(&mut app); // Should panic!
}

#[test]
#[should_panic]
fn test_multiple() {
    let mut app = App::new();
    app.check(CheckFilter::With(FOO), CheckFilter::Without(BAR), moonshine_check::policy::panic())
        .check(CheckFilter::With(FOO), CheckFilter::Without(BAZ), moonshine_check::policy::panic());

    app.world_mut().spawn(&vec![marker(FOO), marker(BAR)]);
    update(&mut app);
}
