use squish_the_bots::bot::{BotError, Bots};
use squish_the_bots::space::Position;

#[test]
fn instantiation() {
    let a = Position::new(0, 0);
    let b = Position::new(2, 0);
    let c = Position::new(-1, 3);

    let mut bots = Bots::new();
    assert!(!bots.occupied(a));
    assert!(!bots.occupied(b));
    assert!(!bots.occupied(c));

    bots.make(a).unwrap();
    assert!(bots.occupied(a));
    assert!(!bots.occupied(b));
    assert!(!bots.occupied(c));

    bots.make(b).unwrap();
    assert!(bots.occupied(a));
    assert!(bots.occupied(b));
    assert!(!bots.occupied(c));
}

#[test]
fn movement() {
    let a = Position::new(0, 0);
    let b = Position::new(2, 0);

    let mut bots = Bots::new();

    bots.make(a).unwrap();
    assert!(bots.occupied(a));
    assert!(!bots.occupied(b));

    bots.shift(a, b).unwrap();
    assert!(!bots.occupied(a));
    assert!(bots.occupied(b));
}

#[test]
fn movement_nonexistent() {
    let mut bots = Bots::new();

    match bots.shift(Position::new(0, 1), Position::new(2, 5)) {
        Err(BotError::NotFound) => (),
        _ => panic!(),
    }
}

#[test]
fn already_occupied() {
    let a = Position::new(0, 0);
    let b = Position::new(2, 0);
    let mut bots = Bots::new();

    bots.make(a).unwrap();
    bots.make(b).unwrap();

    match bots.make(a) {
        Err(BotError::AlreadyOccupied) => (),
        _ => panic!(),
    }
    assert!(bots.occupied(a));
    assert!(bots.occupied(b));

    match bots.shift(a, b) {
        Err(BotError::AlreadyOccupied) => (),
        _ => panic!(),
    }
    assert!(bots.occupied(a));
    assert!(bots.occupied(b));
}

#[test]
fn shift_keeps_the_order_of_the_bots() {
    let mut bots = Bots::new();
    bots.make(Position::new(0, 0)).unwrap();
    bots.make(Position::new(1, 0)).unwrap();
    bots.make(Position::new(2, 0)).unwrap();
    assert_eq!(bots.shift(Position::new(1, 0), Position::new(1, 1)), Ok(()));
    assert_eq!(
        bots.instances,
        vec![Position::new(0, 0), Position::new(1, 1), Position::new(2, 0)]
    );
    assert_eq!(
        bots.shift(Position::new(1, 0), Position::new(2, 0)),
        Err(BotError::AlreadyOccupied)
    );
    assert_eq!(
        bots.shift(Position::new(1, 0), Position::new(5, 5)),
        Err(BotError::NotFound)
    );
}
