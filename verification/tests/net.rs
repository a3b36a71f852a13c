use frog_quest_battle::game::{GameStatus, Player, WorldState};
use frog_quest_battle::net::{
    decode_input_message, encode_input_message, name_comes_before, p2p_session, players, seat_of,
    start_matchbox_socket, wait_for_players, Lobby, PlayerType, FRAME_DELAY, INPUT_MESSAGE_LEN,
    MAX_PREDICTION, NUM_PLAYERS,
};
use frog_quest_battle::session::{Session, SessionState};

fn world() -> WorldState {
    WorldState::new(vec![Player::spawn(0), Player::spawn(1)], 0)
}

fn session() -> Session {
    p2p_session(world()).unwrap()
}

#[test]
fn the_session_parameters_are_those_of_the_game() {
    assert_eq!(NUM_PLAYERS, 2);
    assert_eq!(MAX_PREDICTION, 12);
    assert_eq!(FRAME_DELAY, 2);
    assert_eq!(INPUT_MESSAGE_LEN, 5);
}

#[test]
fn an_input_message_is_five_bytes_frame_first_lowest_byte_first() {
    assert_eq!(encode_input_message(0, 0), vec![0, 0, 0, 0, 0]);
    assert_eq!(encode_input_message(1, 16), vec![1, 0, 0, 0, 16]);
    assert_eq!(encode_input_message(0x0102_0304, 31), vec![4, 3, 2, 1, 31]);
    assert_eq!(encode_input_message(u32::MAX, 255), vec![255, 255, 255, 255, 255]);
    assert_eq!(encode_input_message(256, 9), vec![0, 1, 0, 0, 9]);
}

#[test]
fn input_messages_round_trip() {
    for frame in [0u32, 1, 255, 256, 65535, 65536, 16777215, 16777216, 0xdead_beef, u32::MAX] {
        for input in [0u8, 1, 31, 32, 255] {
            let bytes = encode_input_message(frame, input);
            assert_eq!(bytes.len(), 5);
            assert_eq!(decode_input_message(&bytes), Some((frame, input)));
        }
    }
    assert_eq!(decode_input_message(&vec![4, 3, 2, 1, 31]), Some((0x0102_0304, 31)));
}

#[test]
fn messages_of_another_length_are_not_read() {
    assert_eq!(decode_input_message(&vec![]), None);
    assert_eq!(decode_input_message(&vec![1, 0, 0, 0]), None);
    assert_eq!(decode_input_message(&vec![1, 0, 0, 0, 0, 0]), None);
}

#[test]
fn waiting_for_players_starts_the_session_once_all_have_joined() {
    let mut status = GameStatus::default();
    assert_eq!(status.0, "");
    let mut s = session();
    start_matchbox_socket(&mut status, &mut s);
    assert_eq!(status.0, "connecting");
    assert_eq!(s.phase(), SessionState::Syncing);
    assert_eq!(wait_for_players(&mut status, &mut s, Some(&vec![])), Lobby::Waiting);
    assert_eq!(status.0, "waiting for players");
    assert_eq!(
        wait_for_players(&mut status, &mut s, Some(&vec![PlayerType::Local])),
        Lobby::Waiting
    );
    assert_eq!(s.phase(), SessionState::Syncing);
    status.set_message("x".to_string());
    assert_eq!(
        wait_for_players(&mut status, &mut s, Some(&vec![PlayerType::Remote, PlayerType::Local])),
        Lobby::Started
    );
    assert_eq!(status.0, "x");
    assert_eq!(s.phase(), SessionState::Running);
    assert_eq!(
        s.add_remote_input(1, 5, 0),
        frog_quest_battle::session::Arrival::Malformed
    );
    assert_eq!(
        s.add_remote_input(0, 5, 0),
        frog_quest_battle::session::Arrival::Recorded
    );
    assert_eq!(wait_for_players(&mut status, &mut s, None), Lobby::AlreadyStarted);
    assert_eq!(status.0, "game started");
    assert_eq!(
        wait_for_players(&mut status, &mut s, Some(&vec![PlayerType::Remote, PlayerType::Local])),
        Lobby::Unseated
    );
    assert_eq!(status.0, "game started");
}

#[test]
fn a_lobby_without_a_seat_for_the_local_player_starts_nothing() {
    let mut status = GameStatus::default();
    let mut s = session();
    assert_eq!(
        wait_for_players(&mut status, &mut s, Some(&vec![PlayerType::Local, PlayerType::Remote])),
        Lobby::Unseated
    );
    assert_eq!(s.phase(), SessionState::Idle);
    s.begin_sync();
    assert_eq!(
        wait_for_players(&mut status, &mut s, Some(&vec![PlayerType::Remote, PlayerType::Remote])),
        Lobby::Unseated
    );
    assert_eq!(
        wait_for_players(
            &mut status,
            &mut s,
            Some(&vec![PlayerType::Remote, PlayerType::Spectator, PlayerType::Local])
        ),
        Lobby::Unseated
    );
    assert_eq!(s.phase(), SessionState::Syncing);
    assert_eq!(status.0, "");
    assert_eq!(
        wait_for_players(
            &mut status,
            &mut s,
            Some(&vec![PlayerType::Local, PlayerType::Local, PlayerType::Remote])
        ),
        Lobby::Started
    );
    assert_eq!(s.phase(), SessionState::Running);
    assert_eq!(
        s.add_remote_input(0, 5, 0),
        frog_quest_battle::session::Arrival::Malformed
    );
}

#[test]
fn the_session_of_a_game_for_two_has_its_parameters() {
    let s = session();
    assert_eq!(s.phase(), SessionState::Idle);
    assert_eq!(s.seats(), 2);
    assert_eq!(s.max_prediction(), 12);
    assert_eq!(s.frame_delay(), 2);
    assert_eq!(s.current_frame(), 0);
    assert_eq!(s.last_confirmed_frame(), Some(1));
    assert_eq!(*s.state(), world());
    let three = WorldState::new(vec![Player::spawn(0), Player::spawn(2)], 0);
    assert!(p2p_session(three).is_none());
    assert!(p2p_session(WorldState::new(vec![], u64::MAX)).is_none());
    assert!(p2p_session(WorldState::new(vec![], 7)).is_some());
}

#[test]
fn only_a_session_of_a_game_for_two_is_started() {
    let both = vec![PlayerType::Local, PlayerType::Remote];
    for (seats, window, delay) in [(3, 12, 2), (2, 11, 2), (2, 12, 1), (2, 13, 3)] {
        let mut status = GameStatus::default();
        let mut s = Session::new(world(), seats, window, delay).unwrap();
        s.begin_sync();
        assert_eq!(wait_for_players(&mut status, &mut s, Some(&both)), Lobby::Unseated);
        assert_eq!(s.phase(), SessionState::Syncing);
        assert_eq!(
            wait_for_players(&mut status, &mut s, Some(&vec![PlayerType::Local])),
            Lobby::Waiting
        );
    }
    let mut status = GameStatus::default();
    let mut s = Session::new(world(), 2, 12, 2).unwrap();
    s.begin_sync();
    assert_eq!(wait_for_players(&mut status, &mut s, Some(&both)), Lobby::Started);
}

#[test]
fn seats_are_in_the_order_of_the_peer_names() {
    let name = |s: &str| s.as_bytes().to_vec();
    assert!(name_comes_before(&name("a"), &name("b")));
    assert!(!name_comes_before(&name("b"), &name("a")));
    assert!(!name_comes_before(&name("a"), &name("a")));
    assert!(name_comes_before(&name(""), &name("a")));
    assert!(!name_comes_before(&name(""), &name("")));
    assert!(name_comes_before(&name("ab"), &name("abc")));
    assert!(!name_comes_before(&name("abc"), &name("ab")));
    assert!(name_comes_before(&name("abc"), &name("abd")));
    assert!(name_comes_before(&name("Z"), &name("a")));
    assert!(name_comes_before(&vec![1, 255], &vec![2, 0]));
    for (a, b) in [("a", "b"), ("10", "9"), ("x", "x0"), ("", "q"), ("same", "same")] {
        assert_eq!(name_comes_before(&name(a), &name(b)), a < b);
        assert_eq!(name_comes_before(&name(b), &name(a)), b < a);
    }
    let peers = vec![name("m"), name("c"), name("x")];
    assert_eq!(seat_of(&peers, &name("a")), 0);
    assert_eq!(seat_of(&peers, &name("d")), 1);
    assert_eq!(seat_of(&peers, &name("m")), 1);
    assert_eq!(seat_of(&peers, &name("n")), 2);
    assert_eq!(seat_of(&peers, &name("z")), 3);
    assert_eq!(seat_of(&vec![], &name("z")), 0);
    let local = PlayerType::Local;
    let remote = PlayerType::Remote;
    assert_eq!(players(&name("a"), &peers), vec![local, remote, remote, remote]);
    assert_eq!(players(&name("d"), &peers), vec![remote, local, remote, remote]);
    assert_eq!(players(&name("z"), &peers), vec![remote, remote, remote, local]);
    assert_eq!(players(&name("z"), &vec![]), vec![local]);
    assert_eq!(players(&name("b"), &vec![name("a")]), vec![remote, local]);
    assert_eq!(players(&name("a"), &vec![name("b")]), vec![local, remote]);
}
