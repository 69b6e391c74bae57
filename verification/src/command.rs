//! The commands that a bot sends to the arena, and their form on the wire.

use vstd::prelude::*;
use crate::space::{lemma_unit_times, Direction, Offset};
use crate::stream::Input;
use crate::vector::Vector2;

verus! {

/// What a bot asks for in its turn, or the reason it asked for nothing.
#[derive(Copy, Clone, PartialEq, Eq, Structural, Debug)]
pub enum Command {
    /// Look at the cell at this displacement from the bot.
    LookAt(Offset),
    /// Step into the neighbouring cell, pushing what stands there.
    Move(Direction),
    /// Step into the neighbouring cell, destroying what stands there.
    Drill(Direction),
    /// The bytes read are no command.
    Malformed,
    /// The stream ended before a whole command had arrived.
    End,
}

pub const CODE_LOOK_AT: u8 = 1;

pub const CODE_MOVE: u8 = 2;

pub const CODE_DRILL: u8 = 3;

pub const CODE_NORTH: u8 = 0;

pub const CODE_EAST: u8 = 1;

pub const CODE_SOUTH: u8 = 2;

pub const CODE_WEST: u8 = 3;

impl Direction {
    /// The byte that stands for this direction on the wire.
    pub open spec fn code(self) -> u8 {
        match self {
            Direction::North => 0,
            Direction::East => 1,
            Direction::South => 2,
            Direction::West => 3,
        }
    }
}

/// The direction that a byte stands for, if it stands for one.
pub open spec fn direction_of(code: u8) -> Option<Direction> {
    if code == 0 {
        Some(Direction::North)
    } else if code == 1 {
        Some(Direction::East)
    } else if code == 2 {
        Some(Direction::South)
    } else if code == 3 {
        Some(Direction::West)
    } else {
        None
    }
}

/// The number that a byte stands for when read as a signed octet in two's
/// complement.
pub open spec fn signed(byte: u8) -> int {
    if byte < 128 {
        byte as int
    } else {
        byte - 256
    }
}

/// The displacement that the two argument bytes of a look command stand for:
/// the first counts steps east, the second steps north.
pub open spec fn look_offset(dx: u8, dy: u8) -> Offset {
    Offset(Vector2 { x: signed(dx) as i32, y: (-signed(dy)) as i32 })
}

/// The command at the head of a byte stream, and what the stream holds once
/// the command has been read. A stream that ends inside a command is read to
/// its end.
pub open spec fn parse(bytes: Seq<u8>) -> (Command, Seq<u8>) {
    if bytes.len() == 0 {
        (Command::End, bytes)
    } else if bytes[0] == 1 {
        if bytes.len() < 3 {
            (Command::End, Seq::empty())
        } else {
            (Command::LookAt(look_offset(bytes[1], bytes[2])), bytes.skip(3))
        }
    } else if bytes[0] == 2 {
        if bytes.len() < 2 {
            (Command::End, Seq::empty())
        } else {
            match direction_of(bytes[1]) {
                Some(direction) => (Command::Move(direction), bytes.skip(2)),
                None => (Command::Malformed, bytes.skip(2)),
            }
        }
    } else if bytes[0] == 3 {
        if bytes.len() < 2 {
            (Command::End, Seq::empty())
        } else {
            match direction_of(bytes[1]) {
                Some(direction) => (Command::Drill(direction), bytes.skip(2)),
                None => (Command::Malformed, bytes.skip(2)),
            }
        }
    } else {
        (Command::Malformed, bytes.skip(1))
    }
}

/// The number of bytes of the command that starts with the given byte.
pub fn frame_length(first: u8) -> (r: usize)
    ensures
        r == (if first == 1 {
            3int
        } else if first == 2 || first == 3 {
            2int
        } else {
            1int
        }),
{
    match first {
        CODE_LOOK_AT => 3,
        CODE_MOVE => 2,
        CODE_DRILL => 2,
        _ => 1,
    }
}

/// The direction that a byte stands for, if it stands for one.
pub fn code_to_direction(code: u8) -> (r: Option<Direction>)
    ensures
        r == direction_of(code),
{
    match code {
        CODE_NORTH => Some(Direction::North),
        CODE_EAST => Some(Direction::East),
        CODE_SOUTH => Some(Direction::South),
        CODE_WEST => Some(Direction::West),
        _ => None,
    }
}

/// The byte that stands for a direction.
pub fn direction_to_code(direction: Direction) -> (r: u8)
    ensures
        r == direction.code(),
        direction_of(r) == Some(direction),
{
    match direction {
        Direction::North => CODE_NORTH,
        Direction::East => CODE_EAST,
        Direction::South => CODE_SOUTH,
        Direction::West => CODE_WEST,
    }
}

/// The octet that stands for a signed number in two's complement.
pub fn i8_into_u8(x: i8) -> (r: u8)
    ensures
        signed(r) == x,
{
    if x < 0 {
        (x as i16 + 256) as u8
    } else {
        x as u8
    }
}

/// The signed number that an octet stands for in two's complement.
pub fn i8_from_u8(x: u8) -> (r: i8)
    ensures
        r == signed(x),
{
    if x < 128 {
        x as i8
    } else {
        (x as i16 - 256) as i8
    }
}

/// Reads one command from the stream, byte by byte.
pub fn parse_next(bytes: &mut Input) -> (r: Command)
    ensures
        (r, final(bytes)@) == parse(old(bytes)@),
{
    let first = match bytes.read() {
        None => {
            return Command::End;
        },
        Some(byte) => byte,
    };
    match first {
        CODE_LOOK_AT => {
            let dx = match bytes.read() {
                None => {
                    assert(bytes@ =~= Seq::<u8>::empty());
                    return Command::End;
                },
                Some(byte) => i8_from_u8(byte) as i32,
            };
            let dy = match bytes.read() {
                None => {
                    assert(bytes@ =~= Seq::<u8>::empty());
                    return Command::End;
                },
                Some(byte) => i8_from_u8(byte) as i32,
            };
            assert(bytes@ =~= old(bytes)@.skip(3));
            assert(Direction::East.offset().times(dx).plus(Direction::North.offset().times(dy))
                == look_offset(old(bytes)@[1], old(bytes)@[2])) by {
                lemma_unit_times(dx);
                lemma_unit_times(dy);
            }
            Command::LookAt(Direction::East * dx + Direction::North * dy)
        },
        CODE_MOVE => {
            let code = match bytes.read() {
                None => {
                    assert(bytes@ =~= Seq::<u8>::empty());
                    return Command::End;
                },
                Some(byte) => byte,
            };
            assert(bytes@ =~= old(bytes)@.skip(2));
            match code_to_direction(code) {
                Some(direction) => Command::Move(direction),
                None => Command::Malformed,
            }
        },
        CODE_DRILL => {
            let code = match bytes.read() {
                None => {
                    assert(bytes@ =~= Seq::<u8>::empty());
                    return Command::End;
                },
                Some(byte) => byte,
            };
            assert(bytes@ =~= old(bytes)@.skip(2));
            match code_to_direction(code) {
                Some(direction) => Command::Drill(direction),
                None => Command::Malformed,
            }
        },
        _ => Command::Malformed,
    }
}

/// The octet that stands for a number between -128 and 127 in two's
/// complement.
pub open spec fn octet(n: int) -> u8 {
    if n < 0 {
        (n + 256) as u8
    } else {
        n as u8
    }
}

impl Command {
    /// Whether the command has a form on the wire: a move, a drill, or a look
    /// whose displacement fits in two signed octets.
    pub open spec fn encodable(self) -> bool {
        match self {
            Command::LookAt(offset) => -128 <= offset.0.x <= 127 && -127 <= offset.0.y <= 128,
            Command::Move(_) => true,
            Command::Drill(_) => true,
            Command::Malformed => false,
            Command::End => false,
        }
    }

    /// The bytes that stand for an encodable command on the wire.
    pub open spec fn frame(self) -> Seq<u8> {
        match self {
            Command::LookAt(offset) => {
                let north = -offset.0.y;
                seq![1u8, octet(offset.0.x as int), octet(north)]
            },
            Command::Move(direction) => seq![2u8, direction.code()],
            Command::Drill(direction) => seq![3u8, direction.code()],
            Command::Malformed => Seq::empty(),
            Command::End => Seq::empty(),
        }
    }
}

/// The bytes that stand for the command on the wire, where it has such a
/// form.
pub fn serialize_command(command: Command) -> (r: Option<Vec<u8>>)
    ensures
        command.encodable() ==> r is Some && r->Some_0@ == command.frame(),
        !command.encodable() ==> r is None,
{
    match command {
        Command::LookAt(offset) => {
            let x = offset.0.x;
            let y = offset.0.y;
            if -128 <= x && x <= 127 && -127 <= y && y <= 128 {
                let north: i32 = -y;
                let r = vec![CODE_LOOK_AT, i8_into_u8(x as i8), i8_into_u8(north as i8)];
                assert(r@ =~= command.frame());
                Some(r)
            } else {
                None
            }
        },
        Command::Move(direction) => {
            let r = vec![CODE_MOVE, direction_to_code(direction)];
            assert(r@ =~= command.frame());
            Some(r)
        },
        Command::Drill(direction) => {
            let r = vec![CODE_DRILL, direction_to_code(direction)];
            assert(r@ =~= command.frame());
            Some(r)
        },
        Command::Malformed => None,
        Command::End => None,
    }
}

/// Decoding undoes encoding: a stream that starts with the frame of an
/// encodable command parses to that command and leaves what follows the
/// frame.
pub proof fn lemma_codec_round_trip(command: Command, rest: Seq<u8>)
    requires
        command.encodable(),
    ensures
        parse(command.frame() + rest) == (command, rest),
{
    let bytes = command.frame() + rest;
    match command {
        Command::LookAt(offset) => {
            assert(bytes.skip(3) =~= rest);
        },
        Command::Move(direction) => {
            assert(bytes.skip(2) =~= rest);
        },
        Command::Drill(direction) => {
            assert(bytes.skip(2) =~= rest);
        },
        _ => {},
    }
}

/// Every look whose two arguments are signed octets is encodable, and its
/// frame holds those two octets: `dx` steps east and `dy` steps north.
pub proof fn lemma_look_frame(dx: i8, dy: i8)
    ensures
        Command::LookAt(look_offset(octet(dx as int), octet(dy as int))).encodable(),
        Command::LookAt(look_offset(octet(dx as int), octet(dy as int))).frame() == seq![
            1u8,
            octet(dx as int),
            octet(dy as int),
        ],
        look_offset(octet(dx as int), octet(dy as int)) == Direction::East.offset().times(
            dx as i32,
        ).plus(Direction::North.offset().times(dy as i32)),
{
    lemma_unit_times(dx as i32);
    lemma_unit_times(dy as i32);
}

} // verus!
