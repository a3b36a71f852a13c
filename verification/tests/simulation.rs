use frog_quest_battle::game::{
    arbitrary_color, move_body, move_player, physics, FrameCounter, Player, PlayerBody, Velocity,
    WorldState,
};
use frog_quest_battle::geometry::{Point2D, Rect, Size2D, Vector2D};
use frog_quest_battle::graphics::{pallet_color, Bounds};
use frog_quest_battle::hash::hash_u64;
use frog_quest_battle::input::{Input, InputSet};
use frog_quest_battle::local;
use frog_quest_battle::net;

fn body(handle: u32, x: i32, y: i32, vx: i32, vy: i32) -> PlayerBody {
    PlayerBody {
        player: Player { handle, last_flap_frame: 0 },
        bounds: Bounds(Rect::new(Point2D::new(x, y), Size2D::new(10, 10))),
        velocity: Velocity(Vector2D::new(vx, vy)),
    }
}

fn set(inputs: &[Input]) -> InputSet {
    let mut s = InputSet::new();
    for i in inputs {
        s.insert(*i);
    }
    s
}

fn world(bodies: Vec<PlayerBody>, frame: u64) -> WorldState {
    WorldState::new(bodies, frame)
}

#[test]
fn gravity_pulls_an_idle_player() {
    let mut w = world(vec![body(0, 10, 10, 0, 0)], 0);
    let idle = vec![InputSet::new()];
    for _ in 0..20 {
        w.step(&idle);
    }
    assert_eq!(w.frame_counter.0, 20);
    assert_eq!(w.players[0].velocity.0.y, 1);
    assert_eq!(w.players[0].bounds.0.origin.y, 29);
    for _ in 0..20 {
        w.step(&idle);
    }
    assert_eq!(w.frame_counter.0, 40);
    assert_eq!(w.players[0].velocity.0.y, 2);
    assert_eq!(w.players[0].bounds.0.origin.y, 68);
    assert_eq!(w.players[0].bounds.0.origin.x, 10);
}

#[test]
fn flap_raises_the_player_and_cools_down() {
    let mut w = world(vec![body(0, 10, 100, 0, 0)], 10);
    let flap = vec![set(&[Input::Primary])];
    let idle = vec![InputSet::new()];
    w.step(&flap);
    assert_eq!(w.players[0].velocity.0.y, -2);
    assert_eq!(w.players[0].player.last_flap_frame, 10);
    assert_eq!(w.players[0].bounds.0.origin.y, 98);
    w.step(&idle);
    assert_eq!(w.frame_counter.0, 12);
    w.step(&flap);
    assert_eq!(w.players[0].velocity.0.y, -2);
    assert_eq!(w.players[0].player.last_flap_frame, 10);
    w.step(&idle);
    w.step(&idle);
    w.step(&flap);
    assert_eq!(w.frame_counter.0, 16);
    assert_eq!(w.players[0].velocity.0.y, -2);
    assert_eq!(w.players[0].player.last_flap_frame, 10);
    w.step(&flap);
    assert_eq!(w.frame_counter.0, 17);
    assert_eq!(w.players[0].velocity.0.y, -4);
    assert_eq!(w.players[0].player.last_flap_frame, 16);
}

#[test]
fn flap_needs_more_than_five_frames() {
    let mut player = Player { handle: 0, last_flap_frame: 10 };
    let mut velocity = Velocity(Vector2D::new(0, 0));
    move_player(&FrameCounter(15), set(&[Input::Primary]), &mut player, &mut velocity);
    assert_eq!(velocity.0.y, 0);
    assert_eq!(player.last_flap_frame, 10);
    move_player(&FrameCounter(16), set(&[Input::Primary]), &mut player, &mut velocity);
    assert_eq!(velocity.0.y, -2);
    assert_eq!(player.last_flap_frame, 16);
}

#[test]
fn flap_before_the_last_flap_frame_does_nothing() {
    let mut player = Player { handle: 0, last_flap_frame: 100 };
    let mut velocity = Velocity(Vector2D::new(0, 3));
    move_player(&FrameCounter(7), set(&[Input::Primary]), &mut player, &mut velocity);
    assert_eq!(velocity.0.y, 3);
    assert_eq!(player.last_flap_frame, 100);
}

#[test]
fn ceiling_bounce_halves_velocity() {
    let mut w = world(vec![body(0, 10, 1, 0, -4)], 1);
    w.step(&vec![InputSet::new()]);
    assert_eq!(w.players[0].velocity.0.y, 2);
    assert_eq!(w.players[0].bounds.0.origin.y, 0);
    assert_eq!(w.players[0].bounds.0.origin.x, 10);
}

#[test]
fn ceiling_bounce_rounds_toward_zero() {
    let mut up = body(0, 10, 1, 0, -5);
    move_body(&FrameCounter(1), &mut up);
    assert_eq!(up.velocity.0.y, 2);
    assert_eq!(up.bounds.0.origin.y, 0);
    let mut down = body(0, 10, -100, 0, 5);
    move_body(&FrameCounter(1), &mut down);
    assert_eq!(down.velocity.0.y, -2);
    assert_eq!(down.bounds.0.origin.y, 0);
}

#[test]
fn a_body_that_reaches_the_ceiling_exactly_bounces() {
    let mut b = body(0, 10, 3, 0, -3);
    move_body(&FrameCounter(1), &mut b);
    assert_eq!(b.bounds.0.origin.y, 0);
    assert_eq!(b.velocity.0.y, 1);
}

#[test]
fn ground_stops_the_fall() {
    let mut b = body(0, 10, 130, 1, 7);
    move_body(&FrameCounter(3), &mut b);
    assert_eq!(b.bounds.0.origin.y, 133);
    assert_eq!(b.velocity.0.y, 0);
    assert_eq!(b.velocity.0.x, 1);
    assert_eq!(b.bounds.0.origin.x, 11);
}

#[test]
fn a_body_that_lands_exactly_keeps_its_speed_and_has_no_gravity() {
    let mut b = body(0, 10, 130, 0, 3);
    move_body(&FrameCounter(20), &mut b);
    assert_eq!(b.bounds.0.origin.y, 133);
    assert_eq!(b.velocity.0.y, 3);
}

#[test]
fn friction_slows_a_body_on_the_ground_every_twenty_frames() {
    let mut right = body(0, 10, 133, 2, 0);
    move_body(&FrameCounter(40), &mut right);
    assert_eq!(right.velocity.0.x, 1);
    assert_eq!(right.bounds.0.origin.x, 12);
    let mut left = body(0, 10, 133, -2, 0);
    move_body(&FrameCounter(40), &mut left);
    assert_eq!(left.velocity.0.x, -1);
    let mut still = body(0, 10, 133, 0, 0);
    move_body(&FrameCounter(40), &mut still);
    assert_eq!(still.velocity.0.x, 0);
    let mut off_beat = body(0, 10, 133, 2, 0);
    move_body(&FrameCounter(41), &mut off_beat);
    assert_eq!(off_beat.velocity.0.x, 2);
}

#[test]
fn gravity_acts_in_the_air_only_on_every_twentieth_frame() {
    let mut b = body(0, 10, 50, 0, 0);
    move_body(&FrameCounter(19), &mut b);
    assert_eq!(b.velocity.0.y, 0);
    move_body(&FrameCounter(20), &mut b);
    assert_eq!(b.velocity.0.y, 1);
    move_body(&FrameCounter(21), &mut b);
    assert_eq!(b.velocity.0.y, 1);
    assert_eq!(b.bounds.0.origin.y, 51);
}

#[test]
fn horizontal_wrap() {
    let mut w = world(vec![body(0, 316, 50, 0, 0)], 1);
    let idle = vec![InputSet::new()];
    w.step(&idle);
    assert_eq!(w.players[0].bounds.0.origin.x, -9);
    w.step(&idle);
    assert_eq!(w.players[0].bounds.0.origin.x, -9);
    assert_eq!(w.players[0].bounds.0.origin.y, 50);
}

#[test]
fn wrap_to_the_right_from_the_left_side() {
    let mut b = body(0, -10, 50, -1, 0);
    move_body(&FrameCounter(1), &mut b);
    assert_eq!(b.bounds.0.origin.x, 314);
    let mut edge = body(0, 315, 50, 0, 0);
    move_body(&FrameCounter(1), &mut edge);
    assert_eq!(edge.bounds.0.origin.x, 315);
    let mut other_edge = body(0, -10, 50, 0, 0);
    move_body(&FrameCounter(1), &mut other_edge);
    assert_eq!(other_edge.bounds.0.origin.x, -10);
}

#[test]
fn a_body_far_outside_is_brought_back_by_one_lap_only() {
    let mut b = body(0, 1000, 50, 0, 0);
    move_body(&FrameCounter(1), &mut b);
    assert_eq!(b.bounds.0.origin.x, 675);
}

#[test]
fn wrap_brings_a_body_within_one_lap_back_into_range() {
    for x in [316, 400, 640, -11, -100, -335] {
        let mut b = body(0, x, 50, 0, 0);
        move_body(&FrameCounter(1), &mut b);
        let after = b.bounds.0.origin.x;
        assert!(-10 <= after && after <= 315, "{} went to {}", x, after);
    }
}

#[test]
fn horizontal_speed_is_clamped_to_two() {
    let mut player = Player { handle: 0, last_flap_frame: 0 };
    let mut velocity = Velocity(Vector2D::new(2, 0));
    move_player(&FrameCounter(1), set(&[Input::Right]), &mut player, &mut velocity);
    assert_eq!(velocity.0.x, 2);
    let mut velocity = Velocity(Vector2D::new(-2, 0));
    move_player(&FrameCounter(1), set(&[Input::Left]), &mut player, &mut velocity);
    assert_eq!(velocity.0.x, -2);
    let mut velocity = Velocity(Vector2D::new(9, 0));
    move_player(&FrameCounter(1), InputSet::new(), &mut player, &mut velocity);
    assert_eq!(velocity.0.x, 2);
    let mut velocity = Velocity(Vector2D::new(-9, 0));
    move_player(&FrameCounter(1), InputSet::new(), &mut player, &mut velocity);
    assert_eq!(velocity.0.x, -2);
}

#[test]
fn left_and_right_steer_and_cancel() {
    let mut player = Player { handle: 0, last_flap_frame: 0 };
    let mut velocity = Velocity(Vector2D::new(0, 0));
    move_player(&FrameCounter(1), set(&[Input::Left]), &mut player, &mut velocity);
    assert_eq!(velocity.0.x, -1);
    move_player(&FrameCounter(1), set(&[Input::Right]), &mut player, &mut velocity);
    assert_eq!(velocity.0.x, 0);
    move_player(&FrameCounter(1), set(&[Input::Left, Input::Right]), &mut player, &mut velocity);
    assert_eq!(velocity.0.x, 0);
    move_player(&FrameCounter(1), set(&[Input::Up, Input::Down]), &mut player, &mut velocity);
    assert_eq!(velocity.0, Vector2D::new(0, 0));
}

#[test]
fn after_any_step_speed_is_clamped_and_the_body_is_contained() {
    let mut w = world(vec![body(0, 10, 10, 0, 0), body(1, 300, 100, 2, -3)], 0);
    let plays = [
        vec![set(&[Input::Right, Input::Primary]), set(&[Input::Left])],
        vec![set(&[Input::Right]), set(&[Input::Left, Input::Primary])],
        vec![InputSet::new(), set(&[Input::Primary])],
    ];
    for k in 0..600 {
        w.step(&plays[k % 3]);
        for b in w.players.iter() {
            assert!(-2 <= b.velocity.0.x && b.velocity.0.x <= 2);
            assert!(0 <= b.bounds.0.origin.y && b.bounds.0.origin.y <= 133);
            assert!(-10 <= b.bounds.0.origin.x && b.bounds.0.origin.x <= 315);
            assert!(b.is_settled());
        }
        assert!(w.is_settled(2));
    }
    assert_eq!(w.frame_counter.0, 600);
}

#[test]
fn step_is_deterministic() {
    let start = || world(vec![body(0, 10, 10, 0, 0), body(1, 30, 10, 0, 0)], 0);
    let plays = [
        vec![set(&[Input::Right, Input::Primary]), set(&[Input::Left])],
        vec![set(&[Input::Right]), set(&[Input::Left, Input::Primary])],
    ];
    let mut a = start();
    let mut b = start();
    for k in 0..200 {
        a.step(&plays[k % 2]);
    }
    for k in 0..200 {
        b.step(&plays[k % 2]);
    }
    assert_eq!(a, b);
    let copy = a.snapshot();
    assert_eq!(copy, a);
    a.step(&plays[0]);
    assert_ne!(copy, a);
}

#[test]
fn step_gives_each_player_the_inputs_of_its_seat() {
    let mut w = world(vec![body(1, 10, 50, 0, 0), body(0, 30, 50, 0, 0)], 1);
    w.step(&vec![set(&[Input::Left]), set(&[Input::Right])]);
    assert_eq!(w.players[0].velocity.0.x, 1);
    assert_eq!(w.players[1].velocity.0.x, -1);
    assert_eq!(w.players[0].bounds.0.origin.x, 11);
    assert_eq!(w.players[1].bounds.0.origin.x, 29);
    assert_eq!(w.frame_counter.0, 2);
}

#[test]
fn physics_moves_every_body() {
    let mut bodies = vec![body(0, 10, 50, 1, 1), body(1, 30, 60, -1, 2)];
    physics(&FrameCounter(3), &mut bodies);
    assert_eq!(bodies[0].bounds.0.origin, Point2D::new(11, 51));
    assert_eq!(bodies[1].bounds.0.origin, Point2D::new(29, 62));
}

#[test]
fn the_tick_of_two_peers_decodes_the_bytes_of_the_seats() {
    let mut bodies = vec![body(0, 10, 50, 0, 0), body(1, 30, 50, 0, 0)];
    net::move_sprites(&vec![8, 4 + 16], &FrameCounter(7), &mut bodies);
    assert_eq!(bodies[0].velocity.0, Vector2D::new(1, 0));
    assert_eq!(bodies[1].velocity.0, Vector2D::new(-1, -2));
    assert_eq!(bodies[1].player.last_flap_frame, 7);
    let mut same = world(vec![body(0, 10, 50, 0, 0), body(1, 30, 50, 0, 0)], 7);
    same.step(&vec![InputSet::from_u8(8), InputSet::from_u8(20)]);
    assert_eq!(same.players, bodies);
}

#[test]
fn the_tick_of_one_player_takes_what_waits_in_the_stream() {
    let mut stream = frog_quest_battle::input::InputStream::new();
    stream.put(Input::Right);
    stream.put(Input::Primary);
    stream.put(Input::Right);
    let mut bodies = vec![local::spawn_player()];
    local::move_sprites(&mut stream, &FrameCounter(6), &mut bodies);
    assert_eq!(stream.get(), None);
    assert_eq!(bodies[0].velocity.0, Vector2D::new(1, -2));
    assert_eq!(bodies[0].bounds.0.origin, Point2D::new(11, 8));
    assert_eq!(bodies[0].player.last_flap_frame, 6);
}

#[test]
fn players_spawn_apart() {
    let p = Player::spawn(0);
    assert_eq!(p.bounds.0, Rect::new(Point2D::new(10, 10), Size2D::new(10, 10)));
    assert_eq!(p.velocity.0, Vector2D::new(0, 0));
    assert_eq!(p.player.handle, 0);
    assert_eq!(p.player.last_flap_frame, 0);
    let q = Player::spawn(3);
    assert_eq!(q.bounds.0.origin, Point2D::new(70, 10));
    let both = net::spawn_players();
    assert_eq!(both.len(), 2);
    assert_eq!(both[0], Player::spawn(0));
    assert_eq!(both[1], Player::spawn(1));
    assert_eq!(both[1].bounds.0.origin, Point2D::new(30, 10));
}

#[test]
fn the_colour_of_a_handle_is_picked_by_its_hash() {
    for handle in [0u32, 1, 2, 7, 1000] {
        let expected = pallet_color((hash_u64(handle as u64) % 3) as usize + 1);
        assert_eq!(arbitrary_color(handle), expected);
        assert_ne!(arbitrary_color(handle), pallet_color(0));
    }
}

#[test]
fn frame_counter_counts_one() {
    let mut c = FrameCounter::default();
    assert_eq!(c.0, 0);
    c.update();
    c.update();
    assert_eq!(c.0, 2);
}

#[test]
fn a_world_that_is_not_settled_is_told_apart() {
    assert!(world(vec![body(0, 10, 10, 0, 0)], 0).is_settled(1));
    assert!(!world(vec![body(0, 10, 10, 0, 0)], 0).is_settled(0));
    assert!(!world(vec![body(1, 10, 10, 0, 0)], 0).is_settled(1));
    assert!(!world(vec![body(0, 10, 134, 0, 0)], 0).is_settled(1));
    assert!(!world(vec![body(0, 316, 10, 0, 0)], 0).is_settled(1));
    assert!(!world(vec![body(0, 10, 10, 3, 0)], 0).is_settled(1));
    assert!(!world(vec![body(0, 10, 10, 0, 144)], 0).is_settled(1));
    assert!(world(vec![], 0).is_settled(0));
}
