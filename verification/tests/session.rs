use frog_quest_battle::game::{Player, PlayerBody, WorldState};
use frog_quest_battle::input::{Input, InputSet};
use frog_quest_battle::session::{Advance, Arrival, RemoteInput, Session, SessionState};

fn held(inputs: &[Input]) -> InputSet {
    let mut s = InputSet::new();
    for i in inputs {
        s.insert(*i);
    }
    s
}

fn start_world() -> WorldState {
    WorldState::new(vec![Player::spawn(0), Player::spawn(1)], 0)
}

fn running(max_prediction: u32, frame_delay: u32, local: usize) -> Session {
    let mut s = Session::new(start_world(), 2, max_prediction, frame_delay).unwrap();
    s.begin_sync();
    assert!(s.start(local));
    s
}

fn replay(inputs: &[[u8; 2]]) -> WorldState {
    let mut w = start_world();
    for frame in inputs {
        w.step(&vec![InputSet::from_u8(frame[0]), InputSet::from_u8(frame[1])]);
    }
    w
}

const L: u8 = 4;
const R: u8 = 8;
const P: u8 = 16;

#[test]
fn a_session_goes_through_its_phases() {
    let mut s = Session::new(start_world(), 2, 12, 2).unwrap();
    assert_eq!(s.phase(), SessionState::Idle);
    assert_eq!(s.seats(), 2);
    assert_eq!(s.advance(InputSet::new()), Advance::NotRunning);
    assert_eq!(s.add_remote_input(1, 2, 0), Arrival::NotRunning);
    assert!(!s.start(0));
    assert_eq!(s.phase(), SessionState::Idle);
    s.peer_dropped();
    assert_eq!(s.phase(), SessionState::Idle);
    s.begin_sync();
    assert_eq!(s.phase(), SessionState::Syncing);
    assert_eq!(s.advance(InputSet::new()), Advance::NotRunning);
    assert!(!s.start(2));
    assert_eq!(s.phase(), SessionState::Syncing);
    assert!(s.start(1));
    assert_eq!(s.phase(), SessionState::Running);
    s.begin_sync();
    assert_eq!(s.phase(), SessionState::Running);
    assert!(!s.start(0));
    assert_eq!(s.advance(InputSet::new()), Advance::Advanced { frame: 2, input: 0 });
    s.peer_dropped();
    assert_eq!(s.phase(), SessionState::Disconnected);
    assert_eq!(s.advance(InputSet::new()), Advance::NotRunning);
    assert_eq!(s.add_remote_input(0, 2, 0), Arrival::NotRunning);
    assert_eq!(s.current_frame(), 1);
    s.begin_sync();
    assert!(!s.start(0));
    assert_eq!(s.phase(), SessionState::Disconnected);
}

#[test]
fn a_session_is_not_made_of_bad_parameters() {
    assert!(Session::new(start_world(), 0, 12, 2).is_none());
    assert!(Session::new(start_world(), 1, 12, 2).is_none());
    assert!(Session::new(start_world(), 1025, 12, 2).is_none());
    assert!(Session::new(start_world(), 2, 1025, 2).is_none());
    assert!(Session::new(start_world(), 2, 12, 1025).is_none());
    assert!(Session::new(start_world(), 2, 1024, 1024).is_some());
    assert!(Session::new(start_world(), 3, 0, 0).is_some());
    assert!(Session::new(WorldState::new(vec![], 0xffff_ffff_0000_0001), 1, 12, 2).is_none());
    assert!(Session::new(WorldState::new(vec![], 0xffff_ffff_0000_0000), 1, 12, 2).is_some());
    let mut fast = Player::spawn(0);
    fast.velocity.0.x = 3;
    assert!(Session::new(WorldState::new(vec![fast], 0), 1, 12, 2).is_none());
}

#[test]
fn two_peer_rollback() {
    let mut s = running(12, 0, 0);
    assert_eq!(s.advance(held(&[Input::Left])), Advance::Advanced { frame: 0, input: L });
    assert_eq!(s.advance(held(&[Input::Left])), Advance::Advanced { frame: 1, input: L });
    assert_eq!(s.advance(held(&[Input::Right])), Advance::Advanced { frame: 2, input: R });
    assert_eq!(s.current_frame(), 3);
    assert_eq!(s.last_confirmed_frame(), None);
    assert_eq!(*s.state(), replay(&[[L, 0], [L, 0], [R, 0]]));
    assert_eq!(s.add_remote_input(1, 0, L), Arrival::RolledBack);
    assert_eq!(s.last_confirmed_frame(), Some(0));
    assert_eq!(*s.state(), replay(&[[L, L], [L, L], [R, L]]));
    assert_eq!(s.add_remote_input(1, 1, L), Arrival::Recorded);
    assert_eq!(s.last_confirmed_frame(), Some(1));
    assert_eq!(s.add_remote_input(1, 2, R), Arrival::RolledBack);
    assert_eq!(s.last_confirmed_frame(), Some(2));
    assert_eq!(s.current_frame(), 3);
    let authoritative = replay(&[[L, L], [L, L], [R, R]]);
    assert_eq!(*s.state(), authoritative);
    assert_eq!(authoritative.players[0].velocity.0.x, -1);
    assert_eq!(authoritative.players[1].velocity.0.x, -1);
    assert_eq!(authoritative.players[0].bounds.0.origin.x, 6);
}

#[test]
fn inputs_that_arrive_out_of_order_give_the_same_world() {
    let remote = [P, 0, L, L | P, R, 0, 0, P, R, R];
    let local = [R, R, 0, P, 0, L, L, 0, P, 0];
    let orders: [[usize; 10]; 3] = [
        [0, 1, 2, 3, 4, 5, 6, 7, 8, 9],
        [9, 8, 7, 6, 5, 4, 3, 2, 1, 0],
        [3, 0, 9, 1, 7, 2, 8, 5, 4, 6],
    ];
    let mut both = vec![];
    for k in 0..10 {
        both.push([local[k], remote[k]]);
    }
    let authoritative = replay(&both);
    for order in orders.iter() {
        let mut s = running(12, 0, 0);
        for k in 0..10 {
            assert_eq!(
                s.advance(InputSet::from_u8(local[k])),
                Advance::Advanced { frame: k as u32, input: local[k] }
            );
        }
        let mut confirmed = None;
        for g in order.iter() {
            let r = s.add_remote_input(1, *g as u32, remote[*g]);
            assert!(r == Arrival::Recorded || r == Arrival::RolledBack);
            assert!(s.last_confirmed_frame() >= confirmed);
            confirmed = s.last_confirmed_frame();
            assert_eq!(s.current_frame(), 10);
        }
        assert_eq!(s.last_confirmed_frame(), Some(9));
        assert_eq!(*s.state(), authoritative);
    }
}

#[test]
fn inputs_that_arrive_ahead_of_the_simulation_are_used_when_it_comes_to_them() {
    let mut s = running(12, 0, 1);
    assert_eq!(s.add_remote_input(0, 1, R), Arrival::Recorded);
    assert_eq!(s.add_remote_input(0, 0, L), Arrival::Recorded);
    assert_eq!(s.last_confirmed_frame(), None);
    assert_eq!(s.advance(held(&[Input::Primary])), Advance::Advanced { frame: 0, input: P });
    assert_eq!(s.last_confirmed_frame(), Some(0));
    assert_eq!(s.advance(InputSet::new()), Advance::Advanced { frame: 1, input: 0 });
    assert_eq!(s.last_confirmed_frame(), Some(1));
    assert_eq!(s.advance(InputSet::new()), Advance::Advanced { frame: 2, input: 0 });
    assert_eq!(s.last_confirmed_frame(), Some(1));
    assert_eq!(*s.state(), replay(&[[L, P], [R, 0], [R, 0]]));
}

#[test]
fn prediction_repeats_the_last_known_input() {
    let mut s = running(12, 0, 0);
    assert_eq!(s.add_remote_input(1, 0, R), Arrival::Recorded);
    for _ in 0..4 {
        s.advance(InputSet::new());
    }
    assert_eq!(*s.state(), replay(&[[0, R], [0, R], [0, R], [0, R]]));
    assert_eq!(s.add_remote_input(1, 1, R), Arrival::Recorded);
    assert_eq!(s.add_remote_input(1, 3, 0), Arrival::RolledBack);
    assert_eq!(*s.state(), replay(&[[0, R], [0, R], [0, R], [0, 0]]));
    assert_eq!(s.add_remote_input(1, 2, 0), Arrival::RolledBack);
    assert_eq!(*s.state(), replay(&[[0, R], [0, R], [0, 0], [0, 0]]));
    assert_eq!(s.last_confirmed_frame(), Some(3));
}

#[test]
fn prediction_window_stall() {
    let mut s = running(12, 0, 0);
    assert_eq!(s.add_remote_input(1, 0, 0), Arrival::Recorded);
    for k in 0..13 {
        assert!(!s.is_stalled());
        assert_eq!(s.advance(held(&[Input::Right])), Advance::Advanced { frame: k, input: R });
        assert_eq!(s.last_confirmed_frame(), Some(0));
    }
    assert_eq!(s.current_frame(), 13);
    assert!(s.is_stalled());
    let stalled_at = s.state().snapshot();
    assert_eq!(s.advance(held(&[Input::Left])), Advance::Stalled);
    assert_eq!(s.advance(held(&[Input::Left])), Advance::Stalled);
    assert_eq!(s.current_frame(), 13);
    assert_eq!(*s.state(), stalled_at);
    assert_eq!(s.add_remote_input(1, 1, 0), Arrival::Recorded);
    assert_eq!(s.last_confirmed_frame(), Some(1));
    assert!(!s.is_stalled());
    assert_eq!(s.advance(held(&[Input::Left])), Advance::Advanced { frame: 13, input: L });
    assert_eq!(s.current_frame(), 14);
    assert!(s.is_stalled());
    assert_eq!(s.advance(InputSet::new()), Advance::Stalled);
    let mut expected = vec![[R, 0]; 13];
    expected.push([L, 0]);
    assert_eq!(*s.state(), replay(&expected));
}

#[test]
fn without_a_confirmed_frame_twelve_frames_are_predicted() {
    let mut s = running(12, 0, 0);
    for k in 0..12 {
        assert!(!s.is_stalled());
        assert_eq!(s.advance(held(&[Input::Right])), Advance::Advanced { frame: k, input: R });
    }
    assert_eq!(s.last_confirmed_frame(), None);
    assert_eq!(s.current_frame(), 12);
    assert!(s.is_stalled());
    assert_eq!(s.advance(InputSet::new()), Advance::Stalled);
    assert_eq!(s.add_remote_input(1, 0, 0), Arrival::Recorded);
    assert_eq!(s.last_confirmed_frame(), Some(0));
    assert_eq!(s.advance(InputSet::new()), Advance::Advanced { frame: 12, input: 0 });
    assert_eq!(s.advance(InputSet::new()), Advance::Stalled);
    let mut none = Session::new(start_world(), 2, 0, 0).unwrap();
    none.begin_sync();
    assert!(none.start(0));
    assert_eq!(none.advance(InputSet::new()), Advance::Stalled);
    assert_eq!(none.add_remote_input(1, 0, 0), Arrival::Recorded);
    assert_eq!(none.advance(InputSet::new()), Advance::Stalled);
    assert_eq!(none.current_frame(), 0);
}

#[test]
fn the_frames_before_the_delay_are_known_from_the_start() {
    let mut s = running(12, 2, 0);
    assert_eq!(s.last_confirmed_frame(), Some(1));
    assert_eq!(s.add_remote_input(1, 0, L), Arrival::Stale);
    assert_eq!(s.add_remote_input(1, 1, L), Arrival::Duplicate);
    for k in 0..14 {
        assert_eq!(
            s.advance(held(&[Input::Right])),
            Advance::Advanced { frame: k + 2, input: R }
        );
    }
    assert_eq!(s.last_confirmed_frame(), Some(1));
    assert_eq!(s.current_frame(), 14);
    assert_eq!(s.advance(InputSet::new()), Advance::Stalled);
    assert_eq!(s.add_remote_input(1, 1, L), Arrival::Duplicate);
    assert_eq!(s.add_remote_input(1, 0, L), Arrival::Stale);
    let mut expected = vec![[0, 0], [0, 0]];
    for _ in 2..14 {
        expected.push([R, 0]);
    }
    assert_eq!(*s.state(), replay(&expected));
}

#[test]
fn the_local_input_is_applied_after_the_delay() {
    let mut s = running(12, 2, 1);
    assert_eq!(s.advance(held(&[Input::Primary])), Advance::Advanced { frame: 2, input: P });
    assert_eq!(s.advance(InputSet::new()), Advance::Advanced { frame: 3, input: 0 });
    assert_eq!(*s.state(), replay(&[[0, 0], [0, 0]]));
    for _ in 0..5 {
        s.advance(InputSet::new());
    }
    assert_eq!(s.current_frame(), 7);
    assert_eq!(s.state().players[1].player.last_flap_frame, 0);
    assert_eq!(s.state().players[1].velocity.0.y, 1);
    for _ in 0..7 {
        assert!(matches!(s.advance(held(&[Input::Primary])), Advance::Advanced { .. }));
    }
    assert_eq!(s.advance(held(&[Input::Primary])), Advance::Stalled);
    assert_eq!(s.current_frame(), 14);
    assert_eq!(s.state().players[1].player.last_flap_frame, 9);
}

#[test]
fn inputs_that_break_the_rules_are_dropped() {
    let mut s = running(12, 0, 0);
    assert_eq!(s.add_remote_input(0, 0, L), Arrival::Malformed);
    assert_eq!(s.add_remote_input(2, 0, L), Arrival::Malformed);
    assert_eq!(s.add_remote_input(1, 0, 32), Arrival::Malformed);
    assert_eq!(s.add_remote_input(1, 0, 255), Arrival::Malformed);
    assert_eq!(s.add_remote_input(1, 26, L), Arrival::OutOfWindow);
    assert_eq!(s.add_remote_input(1, 25, L), Arrival::Recorded);
    assert_eq!(s.add_remote_input(1, 25, L), Arrival::Duplicate);
    assert_eq!(s.add_remote_input(1, 25, R), Arrival::Duplicate);
    assert_eq!(s.add_remote_input(1, 0, R), Arrival::Recorded);
    assert_eq!(s.add_remote_input(1, 0, L), Arrival::Duplicate);
    s.advance(InputSet::new());
    assert_eq!(s.last_confirmed_frame(), Some(0));
    assert_eq!(s.add_remote_input(1, 0, L), Arrival::Duplicate);
    assert_eq!(s.add_remote_input(1, 27, L), Arrival::OutOfWindow);
    assert_eq!(s.add_remote_input(1, 26, L), Arrival::Recorded);
    assert_eq!(s.add_remote_input(1, u32::MAX, L), Arrival::OutOfWindow);
    assert_eq!(s.add_remote_input(1, 1, 0), Arrival::Recorded);
    assert_eq!(s.last_confirmed_frame(), Some(0));
    s.advance(InputSet::new());
    assert_eq!(s.last_confirmed_frame(), Some(1));
    assert_eq!(s.add_remote_input(1, 0, L), Arrival::Stale);
    assert_eq!(s.add_remote_input(1, 1, L), Arrival::Duplicate);
    assert_eq!(*s.state(), replay(&[[0, R], [0, 0]]));
}

#[test]
fn the_simulation_stays_within_its_prediction_window() {
    let mut s = running(3, 1, 0);
    let mut last = s.last_confirmed_frame();
    assert_eq!(last, Some(0));
    let mut remote_sent = 1;
    for tick in 0..200u32 {
        if tick % 7 == 3 {
            for _ in 0..5 {
                s.add_remote_input(1, remote_sent, ((remote_sent * 5) % 32) as u8);
                remote_sent += 1;
            }
        }
        let before = s.current_frame();
        let ahead_before = before as i64 - s.last_confirmed_frame().map_or(-1, |l| l as i64);
        let stalled = s.is_stalled();
        assert_eq!(stalled, ahead_before > 3);
        let r = s.advance(InputSet::from_u8((tick % 32) as u8));
        assert_eq!(r == Advance::Stalled, stalled);
        assert_eq!(s.current_frame(), if stalled { before } else { before + 1 });
        let confirmed = s.last_confirmed_frame();
        assert!(confirmed >= last);
        last = confirmed;
        let ahead = s.current_frame() as i64 - confirmed.map_or(-1, |l| l as i64);
        assert!(ahead <= 4);
        assert!(ahead <= 3 || s.is_stalled());
    }
    assert!(s.current_frame() > 50);
}

#[test]
fn a_session_with_one_seat_never_stalls_on_others() {
    let mut s = Session::new(WorldState::new(vec![Player::spawn(0)], 5), 1, 2, 0).unwrap();
    s.begin_sync();
    assert!(s.start(0));
    for k in 0..40 {
        assert_eq!(s.advance(InputSet::new()), Advance::Advanced { frame: k, input: 0 });
        assert_eq!(s.last_confirmed_frame(), Some(k));
    }
    assert_eq!(s.state().frame_counter.0, 45);
    let body: PlayerBody = s.state().players[0];
    assert!(body.is_settled());
}

#[test]
fn the_tick_of_a_frame_takes_the_inputs_in_and_then_advances() {
    let mut s = running(12, 0, 0);
    let message = |frame: u32, input: u8| RemoteInput { seat: 1, frame, input };
    let (arrivals, advance) = s.tick(&vec![], InputSet::from_u8(L));
    assert_eq!(arrivals, vec![]);
    assert_eq!(advance, Advance::Advanced { frame: 0, input: L });
    let (arrivals, advance) = s.tick(
        &vec![message(0, R), message(0, L), message(1, R), message(40, 0), message(2, 32)],
        InputSet::from_u8(P),
    );
    assert_eq!(
        arrivals,
        vec![
            Arrival::RolledBack,
            Arrival::Duplicate,
            Arrival::Recorded,
            Arrival::OutOfWindow,
            Arrival::Malformed
        ]
    );
    assert_eq!(advance, Advance::Advanced { frame: 1, input: P });
    assert_eq!(s.current_frame(), 2);
    assert_eq!(s.last_confirmed_frame(), Some(1));
    assert_eq!(*s.state(), replay(&[[L, R], [P, R]]));
    let mut other = running(12, 0, 0);
    other.advance(InputSet::from_u8(L));
    other.add_remote_input(1, 0, R);
    other.add_remote_input(1, 1, R);
    other.advance(InputSet::from_u8(P));
    assert_eq!(*other.state(), *s.state());
    s.peer_dropped();
    let (arrivals, advance) = s.tick(&vec![message(2, 0)], InputSet::new());
    assert_eq!(arrivals, vec![Arrival::NotRunning]);
    assert_eq!(advance, Advance::NotRunning);
    assert_eq!(s.current_frame(), 2);
}
