//! The lobby: participants gather in it until a round can be played, and
//! those who are left of a round gather in it again.
//!
//! The lobby itself waits for nobody. It is told what has happened on the
//! queue of arriving participants and says what is to be done next.

use vstd::prelude::*;
use crate::area::pair_views;
use crate::notification::{notify, Notification};
use crate::stream::{Input, Output, Sink};

verus! {

/// A bot between rounds: the stream that its commands arrive on and the
/// stream that it is notified on.
pub struct Participant {
    pub input: Input,
    pub output: Output,
}

impl Participant {
    /// The participant with the given streams.
    pub fn new(input: Input, output: Output) -> (r: Participant)
        ensures
            r.input == input,
            r.output == output,
    {
        Participant { input: input, output: output }
    }
}

/// What has happened on the queue of arriving participants, or to the round
/// that was to be played.
pub enum LobbyEvent {
    /// A participant has arrived.
    Received(Participant),
    /// Nobody is waiting in the queue.
    Empty,
    /// Nobody will arrive any more.
    Disconnected,
    /// The round has been played.
    Played,
}

/// What the lobby is to do next.
#[derive(Copy, Clone, PartialEq, Eq, Structural, Debug)]
pub enum LobbyAction {
    /// Wait until a participant arrives.
    Receive,
    /// Take a participant from the queue if one is waiting there.
    TryReceive,
    /// Play a round among the participants in the lobby.
    Play,
    /// Stop.
    Stop,
}

/// The participants after a new round has been announced to them: those
/// whose sink has taken the announcement, in their order.
pub open spec fn announced(participants: Seq<(Seq<u8>, Sink)>) -> Seq<(Seq<u8>, Sink)>
    decreases participants.len(),
{
    if participants.len() == 0 {
        Seq::empty()
    } else {
        let sooner = announced(participants.drop_last());
        let last = participants.last();
        if last.1.closed {
            sooner
        } else {
            sooner.push((last.0, last.1.wrote(Notification::NewRound.bytes())))
        }
    }
}

/// What a lobby with the given number of participants asks of the queue:
/// with fewer than two it waits for one more, with two or more it takes
/// whoever else is there already.
pub open spec fn request_for(count: nat) -> LobbyAction {
    if count < 2 {
        LobbyAction::Receive
    } else {
        LobbyAction::TryReceive
    }
}

/// What a lobby does once a round has been announced to the participants
/// that are left: it stops where none is left, waits for another where one
/// is left, and lets them play where more are left.
pub open spec fn verdict_for(count: nat) -> LobbyAction {
    if count == 0 {
        LobbyAction::Stop
    } else if count == 1 {
        LobbyAction::Receive
    } else {
        LobbyAction::Play
    }
}

/// The participants without those whose sink is closed, in their order.
pub open spec fn reachable(participants: Seq<(Seq<u8>, Sink)>) -> Seq<(Seq<u8>, Sink)>
    decreases participants.len(),
{
    if participants.len() == 0 {
        Seq::empty()
    } else {
        let sooner = reachable(participants.drop_last());
        let last = participants.last();
        if last.1.closed {
            sooner
        } else {
            sooner.push(last)
        }
    }
}

/// The participants that wait for the next round.
pub struct Lobby {
    pub participants: Vec<(Input, Output)>,
}

impl View for Lobby {
    type V = Seq<(Seq<u8>, Sink)>;

    open spec fn view(&self) -> Seq<(Seq<u8>, Sink)> {
        pair_views(self.participants@)
    }
}

/// Tells every participant that a new round begins, and drops those whose
/// sink refuses the announcement.
pub fn announce_round(participants: &mut Vec<(Input, Output)>)
    ensures
        pair_views(final(participants)@) == announced(pair_views(old(participants)@)),
{
    let mut elements: Vec<(Input, Output)> = Vec::new();
    core::mem::swap(participants, &mut elements);
    let ghost all = elements@;
    assert(all.take(0) =~= Seq::<(Input, Output)>::empty());
    assert(pair_views(participants@) =~= announced(pair_views(all.take(0))));
    for pair in it: elements
        invariant
            it.seq() == all,
            pair_views(participants@) == announced(pair_views(all.take(it.index()))),
    {
        let ghost made = it.index();
        let ghost before = participants@;
        let input = pair.0;
        let mut output = pair.1;
        let notify_result = notify(&mut output, Notification::NewRound);
        proof {
            assert(all.take(made + 1).drop_last() =~= all.take(made));
            assert(pair_views(all.take(made + 1)).drop_last() =~= pair_views(all.take(made)));
            assert(pair_views(all.take(made + 1)).last() == (pair.0@, pair.1@));
        }
        match notify_result {
            Ok(()) => {
                participants.push((input, output));
                assert(pair_views(participants@) =~= pair_views(before).push(
                    (input@, output@),
                ));
            },
            Err(_) => {},
        }
    }
    assert(all.take(all.len() as int) =~= all);
}

impl Lobby {
    /// A lobby without participants.
    pub fn new() -> (r: Lobby)
        ensures
            r@ == Seq::<(Seq<u8>, Sink)>::empty(),
    {
        let r = Lobby { participants: Vec::new() };
        assert(r@ =~= Seq::<(Seq<u8>, Sink)>::empty());
        r
    }

    /// What an empty lobby does first: it waits for a participant.
    pub fn start(&self) -> (action: LobbyAction)
        ensures
            action == request_for(self@.len()),
    {
        if self.participants.len() < 2 {
            LobbyAction::Receive
        } else {
            LobbyAction::TryReceive
        }
    }

    /// Drops the participants whose sink has been closed since the round was
    /// announced, and says what is to be done with those who are left.
    pub fn drop_unreachable(&mut self) -> (action: LobbyAction)
        ensures
            final(self)@ == reachable(old(self)@),
            action == verdict_for(final(self)@.len()),
    {
        let mut elements: Vec<(Input, Output)> = Vec::new();
        core::mem::swap(&mut self.participants, &mut elements);
        let ghost all = elements@;
        assert(all.take(0) =~= Seq::<(Input, Output)>::empty());
        assert(self@ =~= reachable(pair_views(all.take(0))));
        for pair in it: elements
            invariant
                it.seq() == all,
                self@ == reachable(pair_views(all.take(it.index()))),
        {
            let ghost made = it.index();
            let ghost before = self.participants@;
            proof {
                assert(all.take(made + 1).drop_last() =~= all.take(made));
                assert(pair_views(all.take(made + 1)).drop_last() =~= pair_views(
                    all.take(made),
                ));
                assert(pair_views(all.take(made + 1)).last() == (pair.0@, pair.1@));
            }
            if !pair.1.closed {
                self.participants.push(pair);
                assert(self@ =~= pair_views(before).push((pair.0@, pair.1@)));
            }
        }
        assert(all.take(all.len() as int) =~= all);
        match self.participants.len() {
            0 => LobbyAction::Stop,
            1 => LobbyAction::Receive,
            _ => LobbyAction::Play,
        }
    }

    /// Takes note of what has happened and says what is to be done next.
    ///
    /// A participant that has arrived joins the others, and the queue is
    /// asked for more. When nobody waits in the queue, the round is
    /// announced to the participants and those who cannot be reached are
    /// dropped. After a round the queue is asked for more. When nobody will
    /// arrive any more, the lobby stops.
    pub fn handle(&mut self, event: LobbyEvent) -> (action: LobbyAction)
        ensures
            match event {
                LobbyEvent::Received(participant) => {
                    &&& final(self)@ == old(self)@.push(
                        (participant.input@, participant.output@),
                    )
                    &&& action == request_for(final(self)@.len())
                },
                LobbyEvent::Empty => {
                    &&& final(self)@ == announced(old(self)@)
                    &&& action == verdict_for(final(self)@.len())
                },
                LobbyEvent::Disconnected => {
                    &&& final(self)@ == old(self)@
                    &&& action == LobbyAction::Stop
                },
                LobbyEvent::Played => {
                    &&& final(self)@ == old(self)@
                    &&& action == request_for(final(self)@.len())
                },
            },
    {
        match event {
            LobbyEvent::Received(participant) => {
                self.participants.push((participant.input, participant.output));
                assert(self@ =~= old(self)@.push((participant.input@, participant.output@)));
                self.start()
            },
            LobbyEvent::Empty => {
                announce_round(&mut self.participants);
                match self.participants.len() {
                    0 => LobbyAction::Stop,
                    1 => LobbyAction::Receive,
                    _ => LobbyAction::Play,
                }
            },
            LobbyEvent::Disconnected => LobbyAction::Stop,
            LobbyEvent::Played => self.start(),
        }
    }
}

} // verus!
