use squish_the_bots::area::{make_abyss, make_block, make_bot, Area};
use squish_the_bots::command::{
    code_to_direction, frame_length, i8_from_u8, i8_into_u8, parse_next, serialize_command,
    Command, CODE_EAST, CODE_NORTH, CODE_WEST,
};
use squish_the_bots::entity::Entity;
use squish_the_bots::notification::Notification;
use squish_the_bots::space::Direction::{East, North, South, West};
use squish_the_bots::space::{Direction, Offset, Position};
use squish_the_bots::stream::{Input, Output};

fn written_to(area: &Area, bot: Entity) -> Vec<u8> {
    match area.outputs.of_ref(bot) {
        Some(output) => output.bytes.clone(),
        None => area.participants_in_waiting[0].1.bytes.clone(),
    }
}

#[test]
fn parsing() {
    let mut commands = Input::new(vec![]);
    assert_eq!(parse_next(&mut commands), Command::End);

    let mut commands = Input::new(vec![1, i8_into_u8(0i8), i8_into_u8(0i8)]);
    assert_eq!(parse_next(&mut commands), Command::LookAt(Offset::default()));

    let mut commands = Input::new(vec![1, i8_into_u8(1i8), i8_into_u8(0i8)]);
    assert_eq!(parse_next(&mut commands), Command::LookAt(Offset::default() + East));

    let mut commands = Input::new(vec![1, i8_into_u8(-1i8), i8_into_u8(1i8)]);
    assert_eq!(parse_next(&mut commands), Command::LookAt(Offset::default() + West + North));

    let mut commands = Input::new(vec![1, i8_into_u8(-2i8), i8_into_u8(1i8)]);
    assert_eq!(
        parse_next(&mut commands),
        Command::LookAt(Offset::default() + West * 2 + North)
    );

    let mut commands = Input::new(vec![2, 0]);
    assert_eq!(parse_next(&mut commands), Command::Move(North));

    let mut commands = Input::new(vec![2, 1]);
    assert_eq!(parse_next(&mut commands), Command::Move(East));

    let mut commands = Input::new(vec![2, 2]);
    assert_eq!(parse_next(&mut commands), Command::Move(South));

    let mut commands = Input::new(vec![2, 3]);
    assert_eq!(parse_next(&mut commands), Command::Move(West));

    let mut commands = Input::new(vec![2, 4]);
    assert_eq!(parse_next(&mut commands), Command::Malformed);

    let mut commands = Input::new(vec![3, 0]);
    assert_eq!(parse_next(&mut commands), Command::Drill(North));

    let mut commands = Input::new(vec![3, 1]);
    assert_eq!(parse_next(&mut commands), Command::Drill(East));

    let mut commands = Input::new(vec![3, 2]);
    assert_eq!(parse_next(&mut commands), Command::Drill(South));

    let mut commands = Input::new(vec![3, 3]);
    assert_eq!(parse_next(&mut commands), Command::Drill(West));

    let mut commands = Input::new(vec![3, 4]);
    assert_eq!(parse_next(&mut commands), Command::Malformed);
}

#[test]
fn malformed_commands() {
    let streams = vec![
        vec![],
        vec![88],
        vec![4],
        vec![3],
        vec![2],
        vec![1],
        vec![1, 0],
        vec![0],
    ];
    for data in streams {
        let mut area = Area::new();
        let bot = make_bot(&mut area, Position::default());
        area.inputs.attach(bot, Input::new(data));
        area.outputs.attach(bot, Output::new());
        area.act(bot);

        assert_eq!(area.positions.of(bot), None);
        assert_eq!(area.participants_in_waiting.len(), 0);
    }
}

#[test]
fn win() {
    let mut area = Area::new();
    let bot_a = make_bot(&mut area, Position::default());
    let bot_b = make_bot(&mut area, Position::default() + East);
    let block = make_block(&mut area, Position::default() + East * 2);

    area.inputs.attach(bot_a, Input::new(vec![2, 1]));
    area.inputs.attach(bot_b, Input::new(vec![]));

    area.outputs.attach(bot_a, Output::new());
    area.outputs.attach(bot_b, Output::new());

    let entities = area.all_actors();
    assert_eq!(entities, &[bot_a, bot_b]);

    let winners = area.act_all();
    assert_eq!(winners, &[bot_a]);

    let entities = area.all_actors();
    assert_eq!(entities, &[bot_a]);

    assert_eq!(area.positions.of(bot_a), Some(Position::default() + East));
    assert_eq!(area.positions.of(bot_b), None);
    assert_eq!(area.positions.of(block), Some(Position::default() + East * 2));

    assert_eq!(area.participants_in_waiting.len(), 1);
}

#[test]
fn command_feedback() {
    let streams = vec![
        (vec![2, CODE_NORTH], vec![1, 2]), // died
        (vec![2, CODE_EAST], vec![1, 3]),  // success
        (vec![2, CODE_WEST], vec![1, 4]),  // too heavy
        (vec![1, i8_into_u8(0), i8_into_u8(-1)], vec![1, 6, 0]), // floor
        (vec![1, i8_into_u8(0), i8_into_u8(0)], vec![1, 6, 1]), // bot
        (vec![1, i8_into_u8(-1), i8_into_u8(0)], vec![1, 6, 2]), // wall
        (vec![1, i8_into_u8(0), i8_into_u8(1)], vec![1, 6, 3]), // abyss
    ];

    for (instream, target) in streams {
        let mut area = Area::new();
        let bot = make_bot(&mut area, Position::default());
        area.inputs.attach(bot, Input::new(instream));
        make_abyss(&mut area, Position::default() + North);
        make_block(&mut area, Position::default() + West);
        make_block(&mut area, Position::default() + West * 2);

        area.outputs.attach(bot, Output::new());

        area.act(bot);

        assert_eq!(written_to(&area, bot), target);
    }
}

#[test]
fn disconnect_during_notify() {
    let mut shared = Output::new();
    shared.close();

    let mut area = Area::new();
    let bot = make_bot(&mut area, Position::default());

    area.outputs.attach(bot, shared);

    area.notify(bot, Notification::YourTurn);

    assert_eq!(area.outputs.contents.len(), 0);
}

#[test]
fn cooldown_after_movement() {
    let mut area = Area::new();

    let mut position = Position::default();
    let bot = make_bot(&mut area, position);
    area.inputs.attach(bot, Input::new(vec![2, 1, 2, 1, 2, 1]));

    for _ in 0..3 {
        position = position + East;
        for _ in 0..3 {
            area.act(bot);
            assert_eq!(area.positions.of(bot), Some(position));
        }
    }
}

#[test]
fn cooldown_after_drilling() {
    let mut area = Area::new();

    let mut position = Position::default();
    let bot = make_bot(&mut area, position);
    area.inputs.attach(bot, Input::new(vec![3, 1, 3, 1, 3, 1]));

    for _ in 0..3 {
        position = position + East;
        for _ in 0..5 {
            area.act(bot);
            assert_eq!(area.positions.of(bot), Some(position));
        }
    }
}

#[test]
fn empty_map_move() {
    let mut area = Area::new();
    let bot = make_bot(&mut area, Position::new(0, 0));
    area.inputs.attach(bot, Input::new(vec![2, 1]));
    area.outputs.attach(bot, Output::new());
    area.act(bot);
    assert_eq!(area.positions.of(bot), Some(Position::new(1, 0)));
    assert_eq!(written_to(&area, bot), vec![1, 3]);
}

#[test]
fn bot_cannot_push_two_blocks() {
    let mut area = Area::new();
    let bot = make_bot(&mut area, Position::new(0, 0));
    let near = make_block(&mut area, Position::new(1, 0));
    let far = make_block(&mut area, Position::new(2, 0));
    area.inputs.attach(bot, Input::new(vec![2, 1]));
    area.outputs.attach(bot, Output::new());
    area.act(bot);
    assert_eq!(area.positions.of(bot), Some(Position::new(0, 0)));
    assert_eq!(area.positions.of(near), Some(Position::new(1, 0)));
    assert_eq!(area.positions.of(far), Some(Position::new(2, 0)));
    assert_eq!(written_to(&area, bot), vec![1, 4]);
}

#[test]
fn bot_squishes_bot_against_block() {
    let mut area = Area::new();
    let bot_a = make_bot(&mut area, Position::new(0, 0));
    let bot_b = make_bot(&mut area, Position::new(1, 0));
    let block = make_block(&mut area, Position::new(2, 0));
    area.inputs.attach(bot_a, Input::new(vec![2, 1]));
    area.outputs.attach(bot_a, Output::new());
    area.inputs.attach(bot_b, Input::new(vec![]));
    area.outputs.attach(bot_b, Output::new());

    area.act_vec(vec![bot_a, bot_b]);

    assert_eq!(area.positions.of(bot_a), Some(Position::new(1, 0)));
    assert_eq!(area.positions.of(bot_b), None);
    assert_eq!(area.positions.of(block), Some(Position::new(2, 0)));
    assert_eq!(area.outputs.of_ref(bot_a).unwrap().bytes, vec![1, 3]);
    assert_eq!(area.participants_in_waiting.len(), 1);
    assert_eq!(area.participants_in_waiting[0].1.bytes, vec![2]);
}

#[test]
fn bot_squished_after_its_turn_was_announced() {
    let mut area = Area::new();
    let bot_b = make_bot(&mut area, Position::new(1, 0));
    let bot_a = make_bot(&mut area, Position::new(0, 0));
    make_block(&mut area, Position::new(2, 0));
    area.inputs.attach(bot_a, Input::new(vec![2, 1]));
    area.outputs.attach(bot_a, Output::new());
    area.inputs.attach(bot_b, Input::new(vec![1, 0, 0]));
    area.outputs.attach(bot_b, Output::new());

    area.act_vec(vec![bot_b, bot_a]);

    assert_eq!(area.positions.of(bot_a), Some(Position::new(1, 0)));
    assert_eq!(area.positions.of(bot_b), None);
    assert_eq!(area.participants_in_waiting[0].1.bytes, vec![1, 6, 1, 2]);
}

#[test]
fn bot_walks_into_abyss() {
    let mut area = Area::new();
    let bot = make_bot(&mut area, Position::new(0, 0));
    make_abyss(&mut area, Position::new(0, -1));
    area.inputs.attach(bot, Input::new(vec![2, 0]));
    area.outputs.attach(bot, Output::new());
    area.act(bot);
    assert_eq!(area.positions.of(bot), None);
    assert_eq!(area.participants_in_waiting.len(), 1);
    assert_eq!(area.participants_in_waiting[0].1.bytes, vec![1, 2]);
}

fn looked_at(dx: i8, dy: i8) -> Vec<u8> {
    let mut area = Area::new();
    let bot = make_bot(&mut area, Position::new(0, 0));
    make_abyss(&mut area, Position::new(0, -1));
    make_block(&mut area, Position::new(-1, 0));
    make_block(&mut area, Position::new(-2, 0));
    area.inputs.attach(bot, Input::new(vec![1, i8_into_u8(dx), i8_into_u8(dy)]));
    area.outputs.attach(bot, Output::new());
    area.act(bot);
    written_to(&area, bot)
}

#[test]
fn look_at_floor() {
    assert_eq!(looked_at(0, -1), vec![1, 6, 0]);
}

#[test]
fn look_at_self() {
    assert_eq!(looked_at(0, 0), vec![1, 6, 1]);
}

#[test]
fn look_at_block() {
    assert_eq!(looked_at(-1, 0), vec![1, 6, 2]);
}

#[test]
fn look_at_abyss() {
    assert_eq!(looked_at(0, 1), vec![1, 6, 3]);
}

#[test]
fn look_at_costs_no_turn() {
    let mut area = Area::new();
    let bot = make_bot(&mut area, Position::new(0, 0));
    area.inputs.attach(bot, Input::new(vec![1, 0, 0, 1, 1, 0]));
    area.outputs.attach(bot, Output::new());
    area.act(bot);
    assert_eq!(area.cooldowns.of(bot), None);
    area.act(bot);
    assert_eq!(written_to(&area, bot), vec![1, 6, 1, 1, 6, 0]);
}

#[test]
fn bot_advances_in_every_third_turn() {
    let mut area = Area::new();
    let bot = make_bot(&mut area, Position::new(0, 0));
    area.inputs.attach(bot, Input::new(vec![2, 1, 2, 1, 2, 1]));
    area.outputs.attach(bot, Output::new());
    let mut xs = Vec::new();
    for _ in 0..9 {
        area.act(bot);
        xs.push(area.positions.of(bot).unwrap().0.x);
    }
    assert_eq!(xs, vec![1, 1, 1, 2, 2, 2, 3, 3, 3]);
    assert_eq!(written_to(&area, bot), vec![1, 3, 1, 3, 1, 3]);
}

#[test]
fn blocked_move_costs_the_turns_of_a_move() {
    let mut area = Area::new();
    let bot = make_bot(&mut area, Position::new(0, 0));
    make_block(&mut area, Position::new(1, 0));
    make_block(&mut area, Position::new(2, 0));
    area.inputs.attach(bot, Input::new(vec![2, 1, 2, 3]));
    area.outputs.attach(bot, Output::new());
    area.act(bot);
    assert_eq!(area.cooldowns.of(bot), Some(3));
    area.act(bot);
    area.act(bot);
    assert_eq!(area.positions.of(bot), Some(Position::new(0, 0)));
    area.act(bot);
    assert_eq!(area.positions.of(bot), Some(Position::new(-1, 0)));
    assert_eq!(written_to(&area, bot), vec![1, 4, 1, 3]);
}

#[test]
fn turn_in_two_halves() {
    let mut area = Area::new();
    let bot = make_bot(&mut area, Position::new(0, 0));
    area.inputs.attach(bot, Input::new(vec![]));
    area.outputs.attach(bot, Output::new());
    assert!(area.begin_turn(bot));
    assert_eq!(area.outputs.of_mut_ref(bot).unwrap().take(), vec![1]);
    area.inputs.of_mut_ref(bot).unwrap().feed(3);
    area.inputs.of_mut_ref(bot).unwrap().feed(2);
    area.finish_turn(bot);
    assert_eq!(area.positions.of(bot), Some(Position::new(0, 1)));
    assert_eq!(area.outputs.of_mut_ref(bot).unwrap().take(), vec![3]);
    for _ in 0..4 {
        assert!(!area.begin_turn(bot));
    }
    assert!(area.begin_turn(bot));
    assert!(!area.begin_turn(Entity(40)));
}

#[test]
fn actors_take_their_turns_in_the_order_of_their_making() {
    let mut area = Area::new();
    let mut bots = Vec::new();
    for i in 0..40 {
        bots.push(make_bot(&mut area, Position::new(i, 0)));
    }
    for bot in bots.iter().rev() {
        area.inputs.attach(*bot, Input::new(vec![]));
    }
    area.inputs.detach(bots[7]);
    bots.remove(7);
    assert_eq!(area.all_actors(), bots);
}

#[test]
fn round_ends_with_no_actor_when_all_are_disconnected() {
    let mut area = Area::new();
    let bot_a = make_bot(&mut area, Position::new(0, 0));
    let bot_b = make_bot(&mut area, Position::new(5, 5));
    area.inputs.attach(bot_a, Input::new(vec![1, 0, 0, 9]));
    area.outputs.attach(bot_a, Output::new());
    area.inputs.attach(bot_b, Input::new(vec![1, 0, 0, 1, 0]));
    area.outputs.attach(bot_b, Output::new());
    let winners = area.act_all();
    assert_eq!(winners, vec![]);
    assert_eq!(area.positions.contents.len(), 0);
    assert_eq!(area.participants_in_waiting.len(), 0);
}

#[test]
fn frames_have_the_length_that_their_first_byte_gives() {
    assert_eq!(frame_length(1), 3);
    assert_eq!(frame_length(2), 2);
    assert_eq!(frame_length(3), 2);
    assert_eq!(frame_length(0), 1);
    assert_eq!(frame_length(4), 1);
    assert_eq!(frame_length(255), 1);
}

#[test]
fn signed_octets() {
    assert_eq!(i8_into_u8(-1), 255);
    assert_eq!(i8_into_u8(-128), 128);
    assert_eq!(i8_into_u8(127), 127);
    assert_eq!(i8_from_u8(255), -1);
    assert_eq!(i8_from_u8(128), -128);
    assert_eq!(i8_from_u8(127), 127);
    for x in i8::MIN..=i8::MAX {
        assert_eq!(i8_from_u8(i8_into_u8(x)), x);
    }
}

#[test]
fn direction_codes() {
    assert_eq!(code_to_direction(0), Some(North));
    assert_eq!(code_to_direction(1), Some(East));
    assert_eq!(code_to_direction(2), Some(South));
    assert_eq!(code_to_direction(3), Some(West));
    assert_eq!(code_to_direction(4), None);
    assert_eq!(code_to_direction(255), None);
}

#[test]
fn moves_and_drills_round_trip() {
    for direction in Direction::all() {
        for command in vec![Command::Move(direction), Command::Drill(direction)] {
            let mut bytes = serialize_command(command).unwrap();
            bytes.push(42);
            let mut input = Input::new(bytes);
            assert_eq!(parse_next(&mut input), command);
            assert_eq!(input.pending(), 1);
        }
    }
    assert_eq!(serialize_command(Command::Move(West)), Some(vec![2, 3]));
    assert_eq!(serialize_command(Command::Drill(South)), Some(vec![3, 2]));
}

#[test]
fn looks_round_trip() {
    for dx in i8::MIN..=i8::MAX {
        for dy in i8::MIN..=i8::MAX {
            let command = Command::LookAt(East * (dx as i32) + North * (dy as i32));
            let bytes = serialize_command(command).unwrap();
            assert_eq!(bytes, vec![1, i8_into_u8(dx), i8_into_u8(dy)]);
            let mut input = Input::new(bytes);
            assert_eq!(parse_next(&mut input), command);
            assert_eq!(input.pending(), 0);
        }
    }
}

#[test]
fn commands_without_a_frame() {
    assert_eq!(serialize_command(Command::Malformed), None);
    assert_eq!(serialize_command(Command::End), None);
    assert_eq!(serialize_command(Command::LookAt(Offset::new(128, 0))), None);
    assert_eq!(serialize_command(Command::LookAt(Offset::new(0, -128))), None);
    assert_eq!(
        serialize_command(Command::LookAt(Offset::new(-128, 128))),
        Some(vec![1, 128, 128])
    );
}

#[test]
fn parser_reads_one_command_and_leaves_the_rest() {
    let mut input = Input::new(vec![2, 1, 1, 255, 2, 9, 3, 3, 1, 5]);
    assert_eq!(parse_next(&mut input), Command::Move(East));
    assert_eq!(parse_next(&mut input), Command::LookAt(Offset::new(-1, -2)));
    assert_eq!(parse_next(&mut input), Command::Malformed);
    assert_eq!(input.pending(), 4);
    assert_eq!(parse_next(&mut input), Command::Drill(West));
    assert_eq!(parse_next(&mut input), Command::End);
    assert_eq!(input.pending(), 0);
    assert_eq!(parse_next(&mut input), Command::End);
}
