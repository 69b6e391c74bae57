use squish_the_bots::appearance::Appearance;
use squish_the_bots::area::{make_block, Area};
use squish_the_bots::entity::Entity;
use squish_the_bots::pushable::Pushable;
use squish_the_bots::session::{
    execute_round, generate_area, lay_out, make_obstacle, random_unoccupied_position,
    random_unoccupied_position_list, unoccupied_positions, MAX_PARTICIPANTS,
};
use squish_the_bots::space::Direction::{East, North, South, West};
use squish_the_bots::space::{Position, Rectangle};
use squish_the_bots::stream::{Input, Output};

#[test]
fn emptiness() {
    let area = Area::new();
    let rect = Rectangle::corners(Position::zero(), Position::zero());
    assert_eq!(unoccupied_positions(&area, rect), vec![Position::zero()]);
    for _ in 0..1000 {
        assert_eq!(random_unoccupied_position(&area, rect), Some(Position::zero()));
    }

    let area = Area::new();
    let rect = Rectangle::corners(Position::zero(), Position::zero() + South);
    assert_eq!(
        unoccupied_positions(&area, rect),
        vec![Position::zero(), Position::zero() + South]
    );
    for _ in 0..1000 {
        let position = random_unoccupied_position(&area, rect);
        assert!(position == Some(Position::zero()) || position == Some(Position::zero() + South));
    }
}

#[test]
fn generation() {
    for i in 0..100 {
        let num_part = i % 20 + 1;

        let mut participants = Vec::<(Input, Output)>::new();
        for _ in 0..num_part {
            participants.push((Input::new(vec![]), Output::new()));
        }

        let length = 10 + participants.len() as i32;
        let bounds = Rectangle::wh(East * length + South * length);
        let lower_limit = bounds.area() / 4;

        let area = generate_area(participants);

        assert_eq!(area.inputs.contents.len(), num_part);
        assert_eq!(area.outputs.contents.len(), num_part);

        assert!(area.positions.contents.len() >= lower_limit as usize);
    }
}

#[test]
fn outer_boundaries() {
    for _ in 0..100 {
        let area = generate_area(vec![]);

        let length = 10;
        let bounds = Rectangle::wh(East * length + South * length);

        let outer_bounds = Rectangle::corners(
            Position::zero() + West + North,
            Position::zero() + East * (length + 1) + South * (length + 1),
        );

        for position in outer_bounds.positions() {
            if bounds.contains(position) {
                continue;
            }
            assert_eq!(area.appearance_at(position), Appearance::Abyss);
        }
    }
}

#[test]
fn single_round_disconnection() {
    let mut participants: Vec<(Input, Output)> = vec![
        (Input::new(vec![2, 1]), Output::new()),
        (Input::new(vec![]), Output::new()), // EoF causes disconnection
    ];

    execute_round(&mut participants);

    assert_eq!(participants.len(), 1);
}

#[test]
fn unoccupied_positions_leave_out_what_is_taken() {
    let mut area = Area::new();
    make_block(&mut area, Position::new(1, 0));
    let rect = Rectangle::corners(Position::zero(), Position::new(1, 1));
    assert_eq!(
        unoccupied_positions(&area, rect),
        vec![Position::new(0, 0), Position::new(0, 1), Position::new(1, 1)]
    );
    make_block(&mut area, Position::new(0, 0));
    make_block(&mut area, Position::new(0, 1));
    for _ in 0..50 {
        assert_eq!(random_unoccupied_position(&area, rect), Some(Position::new(1, 1)));
    }
    make_block(&mut area, Position::new(1, 1));
    assert_eq!(random_unoccupied_position(&area, rect), None);
}

#[test]
fn drawn_cells_are_distinct_cells_of_the_rectangle() {
    let area = Area::new();
    let rect = Rectangle::corners(Position::new(-2, 3), Position::new(4, 7));
    for limit in vec![0, 1, 7, 34, 35, 36, 1000] {
        let drawn = random_unoccupied_position_list(&area, rect, limit);
        assert_eq!(drawn.len(), limit.min(35));
        for (i, position) in drawn.iter().enumerate() {
            assert!(rect.contains(*position));
            assert!(!drawn[..i].contains(position));
        }
    }
}

#[test]
fn shuffling_changes_the_order_sometimes() {
    let area = Area::new();
    let rect = Rectangle::corners(Position::new(0, 0), Position::new(9, 9));
    let ordered = rect.positions();
    let mut changed = false;
    for _ in 0..20 {
        let drawn = random_unoccupied_position_list(&area, rect, 100);
        assert_eq!(drawn.len(), 100);
        changed = changed || drawn != ordered;
    }
    assert!(changed);
}

#[test]
fn obstacle_follows_the_draw() {
    let mut area = Area::new();
    let block = make_obstacle(&mut area, Position::new(0, 0), 0);
    let abyss = make_obstacle(&mut area, Position::new(1, 0), 1);
    assert_eq!(area.appearances.of(block), Some(Appearance::Block));
    assert_eq!(area.pushables.of(block), Some(Pushable::Heavy));
    assert_eq!(area.appearances.of(abyss), Some(Appearance::Abyss));
    assert_eq!(area.pushables.of(abyss), Some(Pushable::DestroysEnterer));
}

#[test]
fn layout_seats_bots_from_the_end_and_blocks_from_the_start() {
    let participants = vec![
        (Input::new(vec![10]), Output::new()),
        (Input::new(vec![20, 21]), Output::new()),
    ];
    let cells = vec![
        Position::new(3, 3),
        Position::new(0, 0),
        Position::new(5, 1),
        Position::new(11, 11),
    ];
    let area = lay_out(participants, cells);

    assert_eq!(area.positions.of(Entity(0)), Some(Position::new(11, 11)));
    assert_eq!(area.positions.of(Entity(1)), Some(Position::new(5, 1)));
    assert_eq!(area.positions.of(Entity(2)), Some(Position::new(3, 3)));
    assert_eq!(area.positions.of(Entity(3)), Some(Position::new(0, 0)));
    assert_eq!(area.appearances.of(Entity(0)), Some(Appearance::Bot));
    assert_eq!(area.appearances.of(Entity(1)), Some(Appearance::Bot));
    assert_eq!(area.appearances.of(Entity(2)), Some(Appearance::Block));
    assert_eq!(area.appearances.of(Entity(3)), Some(Appearance::Block));
    assert_eq!(area.inputs.of_ref(Entity(0)).unwrap().pending(), 1);
    assert_eq!(area.inputs.of_ref(Entity(1)).unwrap().pending(), 2);
    assert_eq!(area.all_actors(), vec![Entity(0), Entity(1)]);

    // the frame of a square with a side of 12: 15 * 15 - 12 * 12 cells
    assert_eq!(area.positions.contents.len(), 4 + 81);
    assert_eq!(area.positions.of(Entity(4)), Some(Position::new(-1, -1)));
    assert_eq!(area.appearances.of(Entity(4)), Some(Appearance::Abyss));
    assert_eq!(area.appearance_at(Position::new(12, 5)), Appearance::Abyss);
    assert_eq!(area.appearance_at(Position::new(13, 13)), Appearance::Abyss);
    assert_eq!(area.appearance_at(Position::new(14, 14)), Appearance::Floor);
    assert_eq!(area.appearance_at(Position::new(7, 7)), Appearance::Floor);
    assert_eq!(area.entities.next_id, 85);
}

#[test]
fn generated_arena_is_filled_within_the_limits() {
    for num_part in 0..12usize {
        let mut participants = Vec::<(Input, Output)>::new();
        for _ in 0..num_part {
            participants.push((Input::new(vec![]), Output::new()));
        }
        let length = 10 + num_part as i32;
        let cells = length * length;
        let frame = (length + 3) * (length + 3) - cells;
        let area = generate_area(participants);

        let inside = area.positions.contents.len() as i32 - frame;
        assert!(inside >= cells / 4);
        assert!(inside < cells * 7 / 8);

        let bounds = Rectangle::wh(East * length + South * length);
        let mut bots = 0;
        let mut blocks = 0;
        let mut seen: Vec<Position> = Vec::new();
        for entity in area.positions.entities() {
            let position = area.positions.of(entity).unwrap();
            assert!(!seen.contains(&position));
            seen.push(position);
            match area.appearances.of(entity) {
                Some(Appearance::Bot) => {
                    bots += 1;
                    assert!(bounds.contains(position));
                    assert!((entity.0 as usize) < num_part);
                    assert!(area.inputs.attached(entity));
                    assert!(area.outputs.attached(entity));
                    assert_eq!(area.pushables.of(entity), Some(Pushable::Squishable));
                }
                Some(Appearance::Block) => {
                    blocks += 1;
                    assert!(bounds.contains(position));
                    assert_eq!(area.pushables.of(entity), Some(Pushable::Heavy));
                }
                Some(Appearance::Abyss) => {
                    assert!(!bounds.contains(position));
                    assert_eq!(area.pushables.of(entity), Some(Pushable::DestroysEnterer));
                }
                _ => panic!(),
            }
        }
        assert_eq!(bots, num_part);
        assert_eq!(bots as i32 + blocks, inside);
    }
}

#[test]
fn streams_come_back_in_the_order_of_the_actors_then_of_the_dead() {
    let mut area = Area::new();
    let mut bots = Vec::new();
    for i in 0..4 {
        let bot = squish_the_bots::area::make_bot(&mut area, Position::new(2 * i, 0));
        area.inputs.attach(bot, Input::new(vec![i as u8; i as usize]));
        area.outputs.attach(bot, Output::new());
        bots.push(bot);
    }
    area.remove(bots[2]);
    area.remove(bots[0]);
    area.outputs.detach(bots[1]);

    let pairs = area.extract_io_pairs();

    let pending: Vec<usize> = pairs.iter().map(|pair| pair.0.pending()).collect();
    assert_eq!(pending, vec![3, 2, 0]);
    assert_eq!(pairs[0].1.bytes, vec![]);
    assert_eq!(pairs[1].1.bytes, vec![2]);
    assert_eq!(pairs[2].1.bytes, vec![2]);
    assert_eq!(area.inputs.contents.len(), 0);
    assert_eq!(area.outputs.contents.len(), 0);
    assert_eq!(area.participants_in_waiting.len(), 0);
    assert_eq!(area.positions.contents.len(), 2);
}

#[test]
fn round_among_the_silent_leaves_nobody() {
    let mut participants: Vec<(Input, Output)> = vec![
        (Input::new(vec![]), Output::new()),
        (Input::new(vec![]), Output::new()),
        (Input::new(vec![7]), Output::new()),
    ];
    execute_round(&mut participants);
    assert_eq!(participants.len(), 0);
    assert!(MAX_PARTICIPANTS >= 3);
}

#[test]
fn round_of_one_is_over_at_once() {
    let mut participants: Vec<(Input, Output)> =
        vec![(Input::new(vec![2, 1, 2, 1]), Output::new())];
    execute_round(&mut participants);
    assert_eq!(participants.len(), 1);
    assert_eq!(participants[0].0.pending(), 4);
    assert_eq!(participants[0].1.bytes, vec![]);
}

#[test]
fn fill_of_the_arena_varies() {
    let mut counts: Vec<usize> = Vec::new();
    for _ in 0..40 {
        let area = generate_area(vec![]);
        counts.push(area.positions.contents.len());
    }
    assert!(counts.iter().any(|count| *count != counts[0]));
}
