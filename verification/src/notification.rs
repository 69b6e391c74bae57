//! The messages that the arena sends to a bot, and their form on the wire.

use vstd::prelude::*;
use crate::appearance::Appearance;
use crate::stream::{Output, WriteError};

verus! {

/// A message from the arena to a bot.
#[derive(Copy, Clone, PartialEq, Eq, Structural, Debug)]
pub enum Notification {
    YourTurn,
    YouSee(Appearance),
    YouDied,
    Success,
    TooHeavy,
    NewRound,
}

pub const CODE_FLOOR: u8 = 0;

pub const CODE_BOT: u8 = 1;

pub const CODE_BLOCK: u8 = 2;

pub const CODE_ABYSS: u8 = 3;

impl Appearance {
    /// The byte that stands for this appearance on the wire.
    pub open spec fn code(self) -> u8 {
        match self {
            Appearance::Floor => 0,
            Appearance::Bot => 1,
            Appearance::Block => 2,
            Appearance::Abyss => 3,
        }
    }
}

impl Notification {
    /// The bytes that stand for this notification on the wire.
    pub open spec fn bytes(self) -> Seq<u8> {
        match self {
            Notification::YourTurn => seq![1u8],
            Notification::YouDied => seq![2u8],
            Notification::Success => seq![3u8],
            Notification::TooHeavy => seq![4u8],
            Notification::NewRound => seq![5u8],
            Notification::YouSee(appearance) => seq![6u8, appearance.code()],
        }
    }
}

/// The byte that stands for the appearance on the wire.
pub fn appearance_to_code(appearance: Appearance) -> (r: u8)
    ensures
        r == appearance.code(),
{
    match appearance {
        Appearance::Floor => CODE_FLOOR,
        Appearance::Bot => CODE_BOT,
        Appearance::Block => CODE_BLOCK,
        Appearance::Abyss => CODE_ABYSS,
    }
}

/// The bytes that stand for the notification on the wire.
pub fn serialize_notification(notification: Notification) -> (r: Vec<u8>)
    ensures
        r@ == notification.bytes(),
{
    let r = match notification {
        Notification::YourTurn => vec![1],
        Notification::YouDied => vec![2],
        Notification::Success => vec![3],
        Notification::TooHeavy => vec![4],
        Notification::NewRound => vec![5],
        Notification::YouSee(appearance) => vec![6, appearance_to_code(appearance)],
    };
    assert(r@ =~= notification.bytes());
    r
}

/// Writes the notification to the sink. A closed sink refuses it and stays as
/// it was.
pub fn notify(output: &mut Output, notification: Notification) -> (r: Result<(), WriteError>)
    ensures
        old(output)@.closed ==> r == Err::<(), WriteError>(WriteError::Closed) && final(output)@
            == old(output)@,
        !old(output)@.closed ==> r is Ok && final(output)@ == old(output)@.wrote(
            notification.bytes(),
        ),
{
    let bytes = serialize_notification(notification);
    output.write_all(&bytes)
}

} // verus!
