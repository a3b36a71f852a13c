//! The game for one player: the local inputs drive the only player, with no
//! session in between.

use vstd::prelude::*;
use crate::game::{move_player, physics, FrameCounter, Player, PlayerBody};
use crate::input::{collect_inputs, InputStream};

verus! {

/// The tick of the single-player game: every body takes the inputs that
/// wait in the stream, which is emptied, and the physics moves the bodies.
pub fn move_sprites(
    input_stream: &mut InputStream,
    frame_counter: &FrameCounter,
    bodies: &mut Vec<PlayerBody>,
)
    requires
        forall|i: int| 0 <= i < old(bodies)@.len() ==> (#[trigger] old(bodies)@[i]).steppable(),
    ensures
        final(input_stream)@.len() == 0,
        final(bodies)@.len() == old(bodies)@.len(),
        forall|i: int|
            0 <= i < old(bodies)@.len() ==> #[trigger] final(bodies)@[i] == old(bodies)@[i].stepped(
                frame_counter.0,
                old(input_stream)@.to_set(),
            ),
{
    let input = collect_inputs(input_stream);
    let mut n: usize = 0;
    while n < bodies.len()
        invariant
            n <= bodies@.len(),
            bodies@.len() == old(bodies)@.len(),
            input@ == old(input_stream)@.to_set(),
            forall|i: int| 0 <= i < old(bodies)@.len() ==> (#[trigger] old(bodies)@[i]).steppable(),
            forall|i: int|
                0 <= i < n ==> #[trigger] bodies@[i] == old(bodies)@[i].steered(
                    frame_counter.0,
                    input@,
                ),
            forall|i: int| n <= i < bodies@.len() ==> #[trigger] bodies@[i] == old(bodies)@[i],
            forall|i: int| 0 <= i < n ==> (#[trigger] bodies@[i]).movable(),
        decreases bodies@.len() - n,
    {
        let mut body = bodies[n];
        assert(old(bodies)@[n as int].steppable());
        move_player(frame_counter, input, &mut body.player, &mut body.velocity);
        bodies[n] = body;
        n = n + 1;
    }
    physics(frame_counter, bodies);
}

/// The player of the single-player game: seat zero.
pub fn spawn_player() -> (body: PlayerBody)
    ensures
        body == Player::spawned(0),
        body.settled(),
{
    Player::spawn(0)
}

} // verus!
