use squish_the_bots::lobby::{announce_round, Lobby, LobbyAction, LobbyEvent, Participant};
use squish_the_bots::stream::{Input, Output};

fn open_participant(bytes: Vec<u8>) -> Participant {
    Participant::new(Input::new(bytes), Output::new())
}

fn closed_participant() -> Participant {
    let mut output = Output::new();
    output.close();
    Participant::new(Input::new(vec![]), output)
}

#[test]
fn lobby_waits_for_two_participants() {
    let mut lobby = Lobby::new();
    assert_eq!(lobby.start(), LobbyAction::Receive);
    assert_eq!(
        lobby.handle(LobbyEvent::Received(open_participant(vec![]))),
        LobbyAction::Receive
    );
    assert_eq!(lobby.participants[0].1.bytes, vec![]);
    assert_eq!(
        lobby.handle(LobbyEvent::Received(open_participant(vec![]))),
        LobbyAction::TryReceive
    );
    assert_eq!(
        lobby.handle(LobbyEvent::Received(open_participant(vec![]))),
        LobbyAction::TryReceive
    );
    assert_eq!(lobby.handle(LobbyEvent::Empty), LobbyAction::Play);
    assert_eq!(lobby.participants.len(), 3);
    for pair in lobby.participants.iter() {
        assert_eq!(pair.1.bytes, vec![5]);
    }
    assert_eq!(lobby.handle(LobbyEvent::Played), LobbyAction::TryReceive);
}

#[test]
fn lobby_waits_after_disconnection() {
    let mut lobby = Lobby::new();
    assert_eq!(
        lobby.handle(LobbyEvent::Received(closed_participant())),
        LobbyAction::Receive
    );
    assert_eq!(
        lobby.handle(LobbyEvent::Received(open_participant(vec![1, 2]))),
        LobbyAction::TryReceive
    );
    assert_eq!(lobby.handle(LobbyEvent::Empty), LobbyAction::Receive);
    assert_eq!(lobby.participants.len(), 1);
    assert_eq!(lobby.participants[0].0.pending(), 2);
    assert_eq!(lobby.participants[0].1.bytes, vec![5]);
}

#[test]
fn lobby_stops_when_nobody_is_left() {
    let mut lobby = Lobby::new();
    lobby.handle(LobbyEvent::Received(closed_participant()));
    lobby.handle(LobbyEvent::Received(closed_participant()));
    assert_eq!(lobby.handle(LobbyEvent::Empty), LobbyAction::Stop);
    assert_eq!(lobby.participants.len(), 0);
}

#[test]
fn lobby_stops_when_the_queue_is_gone() {
    let mut lobby = Lobby::new();
    assert_eq!(lobby.handle(LobbyEvent::Disconnected), LobbyAction::Stop);
    lobby.handle(LobbyEvent::Received(open_participant(vec![])));
    assert_eq!(lobby.handle(LobbyEvent::Disconnected), LobbyAction::Stop);
    assert_eq!(lobby.participants.len(), 1);
    assert_eq!(lobby.participants[0].1.bytes, vec![]);
}

#[test]
fn lobby_asks_for_one_more_after_a_round_that_left_one() {
    let mut lobby = Lobby::new();
    lobby.handle(LobbyEvent::Received(open_participant(vec![])));
    assert_eq!(lobby.handle(LobbyEvent::Played), LobbyAction::Receive);
}

#[test]
fn announcement_keeps_the_order_of_those_it_reaches() {
    let mut participants = vec![
        (Input::new(vec![1]), Output::new()),
        (Input::new(vec![2, 2]), {
            let mut output = Output::new();
            output.close();
            output
        }),
        (Input::new(vec![3, 3, 3]), Output::new()),
    ];
    announce_round(&mut participants);
    assert_eq!(participants.len(), 2);
    assert_eq!(participants[0].0.pending(), 1);
    assert_eq!(participants[1].0.pending(), 3);
    assert_eq!(participants[0].1.bytes, vec![5]);
    assert_eq!(participants[1].1.bytes, vec![5]);
}

#[test]
fn lobby_drops_those_it_could_not_reach() {
    let mut lobby = Lobby::new();
    lobby.handle(LobbyEvent::Received(Participant::new(Input::new(vec![]), Output::to_peer(7))));
    lobby.handle(LobbyEvent::Received(Participant::new(Input::new(vec![]), Output::to_peer(8))));
    lobby.handle(LobbyEvent::Received(Participant::new(Input::new(vec![]), Output::to_peer(9))));
    assert_eq!(lobby.handle(LobbyEvent::Empty), LobbyAction::Play);
    lobby.participants[1].1.close();
    assert_eq!(lobby.drop_unreachable(), LobbyAction::Play);
    let peers: Vec<u64> = lobby.participants.iter().map(|pair| pair.1.peer).collect();
    assert_eq!(peers, vec![7, 9]);
    lobby.participants[0].1.close();
    assert_eq!(lobby.drop_unreachable(), LobbyAction::Receive);
    lobby.participants[0].1.close();
    assert_eq!(lobby.drop_unreachable(), LobbyAction::Stop);
    assert_eq!(lobby.participants.len(), 0);
}

#[test]
fn streams_keep_their_peer_through_a_round() {
    let mut participants = vec![
        (Input::new(vec![1, 0, 0, 1, 0, 0]), Output::to_peer(41)),
        (Input::new(vec![]), Output::to_peer(42)),
    ];
    squish_the_bots::session::execute_round(&mut participants);
    assert_eq!(participants.len(), 1);
    assert_eq!(participants[0].1.peer, 41);
    assert_eq!(participants[0].1.bytes, vec![1, 6, 1]);
    assert_eq!(participants[0].0.pending(), 3);
}
