use squish_the_bots::space::Direction::{East, North, South, West};
use squish_the_bots::space::{Direction, Offset, Position, Rectangle};
use squish_the_bots::vector::{vec_max, vec_min, Vector2};

#[test]
fn add_position_offset() {
    assert_eq!(Offset::new(0, 0) + Position::new(0, 0), Position::new(0, 0));
    assert_eq!(Offset::new(1, 0) + Position::new(0, 0), Position::new(1, 0));
    assert_eq!(Offset::new(-1, 0) + Position::new(2, 1), Position::new(1, 1));
    assert_eq!(Position::new(-1, 1) + Offset::new(-1, 1), Position::new(-2, 2));
}

#[test]
fn add_offsets() {
    assert_eq!(Offset::new(0, 0) + Offset::new(0, 0), Offset::new(0, 0));
    assert_eq!(Offset::new(1, 0) + Offset::new(0, 0), Offset::new(1, 0));
    assert_eq!(Offset::new(-1, 0) + Offset::new(2, 1), Offset::new(1, 1));
    assert_eq!(Offset::new(-1, 1) + Offset::new(-1, 1), Offset::new(-2, 2));
}

#[test]
fn add_directions() {
    let north_offset: Offset = North.into();
    let east_offset: Offset = East.into();

    assert_eq!(North + East, north_offset + east_offset);
}

#[test]
fn add_direction_offset() {
    assert_eq!(North + Offset::default(), Offset::new(0, -1));
    assert_eq!(Offset::default() + North, Offset::new(0, -1));
}

#[test]
fn offset_from_positions() {
    assert_eq!(Position::new(-1, 1) >> Position::new(-2, 2), Offset::new(-1, 1));
    assert_eq!(Position::new(2, 1) >> Position::new(2, 2), Offset::new(0, 1));
    assert_eq!(Position::new(0, 0) >> Position::new(0, 3), Offset::new(0, 3));
}

#[test]
fn add_direction_position() {
    assert_eq!(Position::new(0, 0) + North + South, Position::new(0, 0));
    assert_eq!(Position::new(0, 0) + East + West, Position::new(0, 0));
}

#[test]
fn offset_multiplication() {
    assert_eq!(Offset::new(1, 1) * 3, Offset::new(3, 3));
    assert_eq!(Offset::new(0, -1) * 4, Offset::new(0, -4));
    assert_eq!(North * 2, Offset::new(0, -2));
}

#[test]
fn offset_from_directions() {
    assert_eq!(North * 3 + East * 2, Offset::new(2, -3));
    assert_eq!(North * -3 + East * 2, Offset::new(2, 3));
    assert_eq!(South * 3 + East * 2, Offset::new(2, 3));
}

#[test]
fn containment() {
    assert!(Rectangle::wh(Offset::new(1, 1)).contains(Position::new(0, 0)));
    assert!(Rectangle::wh(Offset::new(2, 2)).contains(Position::new(0, 0)));
    assert!(Rectangle::wh(Offset::new(2, 2)).contains(Position::new(1, 1)));
    assert!(!Rectangle::wh(Offset::new(2, 2)).contains(Position::new(1, 2)));
    assert!(!Rectangle::wh(Offset::new(2, 2)).contains(Position::new(2, 2)));
    assert!(!Rectangle::wh(Offset::new(2, 2)).contains(Position::new(2, 0)));
    assert!(!Rectangle::wh(Offset::new(2, 2)).contains(Position::new(-1, 0)));

    assert!(Rectangle::wh(Offset::new(-2, -2)).contains(Position::new(0, 0)));
    assert!(Rectangle::wh(Offset::new(-2, -2)).contains(Position::new(-1, 0)));
    assert!(!Rectangle::wh(Offset::new(-2, -2)).contains(Position::new(-2, 0)));

    let rec = Rectangle::corner_offsets(North * 2 + West * 2, South * 4 + East * 3);
    assert!(rec.contains(Position::default() + North * 2));
    assert!(rec.contains(Position::default() + North * 2 + West * 2));
    assert!(rec.contains(Position::default() + North * 2 + East * 3));

    let rec = Rectangle::corner_offsets(South * 4 + East * 3, North * 2 + West * 2);
    assert!(rec.contains(Position::default() + North * 2));
    assert!(rec.contains(Position::default() + North * 2 + West * 2));
    assert!(rec.contains(Position::default() + North * 2 + East * 3));
}

#[test]
fn direction_equality() {
    assert_eq!(East, East);
    assert!(East != West);
}

#[test]
fn rectangle_iteration() {
    let rect = Rectangle::wh(Offset::new(1, 1));
    assert_eq!(rect.positions(), vec![Position::default()]);

    let rect = Rectangle::wh(Offset::new(2, 1));
    assert_eq!(rect.positions(), vec![Position::default(), Position::default() + East]);

    let rect = Rectangle::wh(Offset::new(1, 2));
    assert_eq!(rect.positions(), vec![Position::default(), Position::default() + South]);

    let rect = Rectangle::wh(Offset::new(2, 2));
    assert_eq!(
        rect.positions(),
        vec![
            Position::default(),
            Position::default() + East,
            Position::default() + South,
            Position::default() + South + East
        ]
    );
}

#[test]
fn rectangle_iteration_2() {
    let position = Position::default() + North * 5 + West * 2;
    let rect = Rectangle::xywh(position, East * 20 + South * 19);
    for position in rect.positions() {
        assert!(rect.contains(position));
    }

    assert_eq!(rect.topleft, position); // rect should not be consumed by iterator
}

#[test]
fn area() {
    for rect in vec![
        Rectangle::wh(East * 20 + South * 19),
        Rectangle::wh(East * 10 + South * 1),
        Rectangle::wh(West * 4 + South * 17),
        Rectangle::wh(West * 4 + South * -3),
        Rectangle::wh(East * -4 + North * 17),
    ] {
        assert_eq!(rect.area(), rect.positions().len() as i32);
    }
}

#[test]
fn area_is_product_of_side_lengths() {
    assert_eq!(Rectangle::wh(Offset::new(20, 19)).area(), 380);
    assert_eq!(Rectangle::wh(Offset::new(-4, 17)).area(), 68);
    assert_eq!(Rectangle::wh(Offset::new(-4, -3)).area(), 12);
    assert_eq!(Rectangle::wh(Offset::new(0, 5)).area(), 0);
    assert_eq!(Rectangle::default().area(), 0);
}

#[test]
fn unit_offsets_of_directions() {
    assert_eq!(Offset::from(North), Offset::new(0, -1));
    assert_eq!(Offset::from(East), Offset::new(1, 0));
    assert_eq!(Offset::from(South), Offset::new(0, 1));
    assert_eq!(Offset::from(West), Offset::new(-1, 0));
    assert_eq!(Direction::all(), [North, East, South, West]);
    assert_eq!(3 * South, Offset::new(0, 3));
    assert_eq!(Position::zero(), Position::new(0, 0));
}

#[test]
fn coordinates_wrap_around() {
    assert_eq!(Position::new(i32::MAX, 0) + East, Position::new(i32::MIN, 0));
    assert_eq!(Position::new(0, i32::MIN) + North, Position::new(0, i32::MAX));
    assert_eq!(
        Position::new(i32::MIN, 0) >> Position::new(i32::MAX, 0),
        Offset::new(-1, 0)
    );
}

#[test]
fn enumeration_follows_the_signs_of_the_size() {
    let rect = Rectangle::xywh(Position::new(3, 4), Offset::new(-2, -2));
    assert_eq!(
        rect.positions(),
        vec![
            Position::new(3, 4),
            Position::new(2, 4),
            Position::new(3, 3),
            Position::new(2, 3)
        ]
    );
    for position in rect.positions() {
        assert!(rect.contains(position));
    }
}

#[test]
fn enumeration_hands_out_one_cell_at_a_time() {
    let mut contents = Rectangle::wh(Offset::new(2, 1)).into_iter();
    assert_eq!(contents.next(), Some(Position::new(0, 0)));
    assert_eq!(contents.next(), Some(Position::new(1, 0)));
    assert_eq!(contents.next(), None);
    assert_eq!(contents.next(), None);
}

#[test]
fn rectangle_without_width_has_one_cell_in_each_row() {
    let rect = Rectangle::wh(Offset::new(0, 2));
    assert_eq!(rect.positions(), vec![Position::new(0, 0), Position::new(0, 1)]);
    assert!(!rect.contains(Position::new(0, 0)));
    assert_eq!(Rectangle::wh(Offset::new(2, 0)).positions(), vec![]);
}

#[test]
fn corners_span_both_cells() {
    let rect = Rectangle::corners(Position::new(2, -1), Position::new(-1, 3));
    assert_eq!(rect.topleft, Position::new(-1, -1));
    assert_eq!(rect.size, Offset::new(4, 5));
    assert!(rect.contains(Position::new(2, 3)));
    assert!(!rect.contains(Position::new(3, 3)));
}

#[test]
fn componentwise_minimum_and_maximum() {
    let a = Vector2 { x: 1, y: 7 };
    let b = Vector2 { x: 4, y: -2 };
    assert_eq!(vec_min(a, b), Vector2 { x: 1, y: -2 });
    assert_eq!(vec_max(a, b), Vector2 { x: 4, y: 7 });
}

#[test]
fn vector_arithmetic() {
    let a = Vector2 { x: 1, y: 7 };
    let b = Vector2 { x: 4, y: -2 };
    assert_eq!(a + b, Vector2 { x: 5, y: 5 });
    assert_eq!(a - b, Vector2 { x: -3, y: 9 });
    assert_eq!(a * -3, Vector2 { x: -3, y: -21 });
    assert_eq!(a >> b, Vector2 { x: 3, y: -9 });
    assert_eq!(
        Vector2 { x: i32::MAX, y: i32::MIN } + Vector2 { x: 1, y: -1 },
        Vector2 { x: i32::MIN, y: i32::MAX }
    );
}
