//! The world of the game and its deterministic simulation: one tick takes
//! the players, their inputs and the frame counter to the next world.

use vstd::prelude::*;
use crate::geometry::{Point2D, Rect, Size2D, Vector2D};
use crate::graphics::{
    fill_rect,
    pallet,
    pallet_color,
    rect_ink,
    Assets,
    Bounds,
    Entity,
    Owner,
    Sprite,
    TextBox,
    PALLET_SIZE,
};
use crate::hash::{fnv1a, hash_u64, le_bytes};
use crate::input::{Input, InputSet};
use crate::renderer::{painted, CanvasRenderer, Color, Pixels, RENDER_HEIGHT, RENDER_WIDTH};

verus! {

/// Frames that must pass after a flap before the next one.
pub const FLAP_COOLDOWN: u64 = 5;

/// Upward speed that a flap adds.
pub const FLAP_STRENGTH: i32 = 2;

/// The greatest horizontal speed, in either direction.
pub const MAX_HORIZONTAL_SPEED: i32 = 2;

/// Gravity and friction act on the frames that this number divides.
pub const DRAG_PERIOD: u64 = 20;

/// Coordinates, speeds and sizes of a body that can be stepped lie within
/// this distance of zero, so that no sum that a tick forms leaves 32 bits.
pub const COORD_LIMIT: i32 = 0x1000_0000;

/// The line shown while the game runs: what the connection is doing.
pub struct GameStatus(pub String);

impl Default for GameStatus {
    fn default() -> (s: Self)
        ensures
            s.0@ == Seq::<char>::empty(),
    {
        GameStatus(String::new())
    }
}

impl GameStatus {
    pub fn set_message(&mut self, message: String)
        ensures
            final(self).0 == message,
    {
        self.0 = message;
    }
}

#[derive(Clone, Copy, Debug, PartialEq, Eq, Hash)]
pub struct Player {
    pub handle: u32,
    pub last_flap_frame: u64,
}

#[derive(Clone, Copy, Debug, PartialEq, Eq, Hash)]
pub struct Velocity(pub Vector2D<Pixels>);

#[derive(Clone, Copy, Debug, PartialEq, Eq, Hash)]
pub struct FrameCounter(pub u64);

impl Default for FrameCounter {
    fn default() -> (c: Self)
        ensures
            c.0 == 0,
    {
        FrameCounter(0)
    }
}

impl Default for Velocity {
    fn default() -> (v: Self)
        ensures
            v.0 == Vector2D::<Pixels>::of(0, 0),
    {
        Velocity(Vector2D::zero())
    }
}

/// A player in the world: who it is, where it is and how it moves.
#[derive(Clone, Copy, Debug, PartialEq, Eq, Hash)]
pub struct PlayerBody {
    pub player: Player,
    pub bounds: Bounds,
    pub velocity: Velocity,
}

/// Everything that a tick reads and writes.
#[derive(Debug, PartialEq, Eq, Hash)]
pub struct WorldState {
    pub players: Vec<PlayerBody>,
    pub frame_counter: FrameCounter,
}

/// A world as a mathematical value.
pub struct WorldView {
    pub players: Seq<PlayerBody>,
    pub frame: u64,
}

impl View for WorldState {
    type V = WorldView;

    open spec fn view(&self) -> WorldView {
        WorldView { players: self.players@, frame: self.frame_counter.0 }
    }
}

/// A player flaps on a frame where the primary input is held and more than
/// the cooldown has passed since its last flap.
pub open spec fn flaps(frame: u64, player: Player, input: Set<Input>) -> bool {
    input.contains(Input::Primary) && frame - player.last_flap_frame > FLAP_COOLDOWN
}

/// What the inputs add to the horizontal speed: one to the right for
/// `Right`, one to the left for `Left`.
pub open spec fn steering(input: Set<Input>) -> int {
    (if input.contains(Input::Right) {
        1int
    } else {
        0int
    }) - (if input.contains(Input::Left) {
        1int
    } else {
        0int
    })
}

/// The speed `vx` held to the greatest horizontal speed.
pub open spec fn clamp_speed(vx: int) -> int {
    if vx > MAX_HORIZONTAL_SPEED {
        MAX_HORIZONTAL_SPEED as int
    } else if vx < -MAX_HORIZONTAL_SPEED {
        -MAX_HORIZONTAL_SPEED
    } else {
        vx
    }
}

/// Half of `n`, rounded toward zero.
pub open spec fn half_toward_zero(n: int) -> int {
    if n >= 0 {
        n / 2
    } else {
        -((-n) / 2)
    }
}

/// The speed `vx` one nearer to zero.
pub open spec fn slowed(vx: int) -> int {
    if vx > 0 {
        vx - 1
    } else if vx < 0 {
        vx + 1
    } else {
        vx
    }
}

/// The column `x` of a body `width` wide, brought back by one lap of the
/// grid where it has left the grid on either side.
pub open spec fn wrapped(x: int, width: int) -> int {
    let a = if x > RENDER_WIDTH {
        x - (RENDER_WIDTH + width)
    } else {
        x
    };
    if a < -width {
        a + (RENDER_WIDTH + width)
    } else {
        a
    }
}

impl Player {
    /// The player after its inputs were applied on `frame`: a flap is
    /// remembered.
    pub open spec fn steered(self, frame: u64, input: Set<Input>) -> Player {
        if flaps(frame, self, input) {
            Player { handle: self.handle, last_flap_frame: frame }
        } else {
            self
        }
    }

    pub fn new(handle: u32) -> (p: Self)
        ensures
            p.handle == handle,
            p.last_flap_frame == 0,
    {
        Player { handle, last_flap_frame: 0 }
    }

    /// A new player of seat `handle` as it enters the game: ten pixels
    /// square, at rest, ten pixels below the top, twenty pixels further
    /// right for each seat.
    pub open spec fn spawned(handle: u32) -> PlayerBody {
        PlayerBody {
            player: Player { handle: handle, last_flap_frame: 0 },
            bounds: Bounds(
                Rect { origin: Point2D::at(10 + handle * 20, 10), size: Size2D::of(10, 10) },
            ),
            velocity: Velocity(Vector2D::of(0, 0)),
        }
    }

    /// A new player of seat `handle` as it enters the game.
    pub fn spawn(handle: u32) -> (body: PlayerBody)
        requires
            10 + handle * 20 <= i32::MAX,
        ensures
            body == Self::spawned(handle),
    {
        PlayerBody {
            player: Player::new(handle),
            bounds: Bounds(Rect::new(Point2D::new(10 + handle as i32 * 20, 10), Size2D::new(10, 10))),
            velocity: Velocity(Vector2D::zero()),
        }
    }
}

impl Velocity {
    /// The velocity after the inputs of `player` were applied on `frame`:
    /// steered, held to the greatest horizontal speed, and raised by a flap.
    pub open spec fn steered(self, frame: u64, player: Player, input: Set<Input>) -> Velocity {
        Velocity(
            Vector2D::of(
                clamp_speed(self.0.x + steering(input)),
                if flaps(frame, player, input) {
                    self.0.y - FLAP_STRENGTH
                } else {
                    self.0.y as int
                },
            ),
        )
    }
}

impl PlayerBody {
    /// Coordinates, speeds and sizes lie within `COORD_LIMIT` of zero.
    pub open spec fn steppable(self) -> bool {
        &&& -COORD_LIMIT <= self.bounds.0.origin.x <= COORD_LIMIT
        &&& -COORD_LIMIT <= self.bounds.0.origin.y <= COORD_LIMIT
        &&& -COORD_LIMIT <= self.bounds.0.size.width <= COORD_LIMIT
        &&& -COORD_LIMIT <= self.bounds.0.size.height <= COORD_LIMIT
        &&& -COORD_LIMIT <= self.velocity.0.x <= COORD_LIMIT
        &&& -COORD_LIMIT <= self.velocity.0.y <= COORD_LIMIT
    }

    /// The physics can move the body: as `steppable`, with room for the
    /// speed that a flap has just added.
    pub open spec fn movable(self) -> bool {
        &&& -COORD_LIMIT <= self.bounds.0.origin.x <= COORD_LIMIT
        &&& -COORD_LIMIT <= self.bounds.0.origin.y <= COORD_LIMIT
        &&& -COORD_LIMIT <= self.bounds.0.size.width <= COORD_LIMIT
        &&& -COORD_LIMIT <= self.bounds.0.size.height <= COORD_LIMIT
        &&& -COORD_LIMIT <= self.velocity.0.x <= COORD_LIMIT
        &&& -COORD_LIMIT - FLAP_STRENGTH <= self.velocity.0.y <= COORD_LIMIT
    }

    /// The body is as ticks leave a body that fits the grid: no taller than
    /// the grid, between ceiling and ground, within one width of the grid's
    /// sides, and no faster than a tick lets a body become.
    pub open spec fn settled(self) -> bool {
        &&& 0 <= self.bounds.0.size.height <= RENDER_HEIGHT
        &&& 0 <= self.bounds.0.size.width <= COORD_LIMIT
        &&& -self.bounds.0.size.width <= self.bounds.0.origin.x <= RENDER_WIDTH
        &&& 0 <= self.bounds.0.origin.y <= RENDER_HEIGHT - self.bounds.0.size.height
        &&& -MAX_HORIZONTAL_SPEED <= self.velocity.0.x <= MAX_HORIZONTAL_SPEED
        &&& -RENDER_HEIGHT <= self.velocity.0.y <= RENDER_HEIGHT
    }

    /// The body after its inputs were applied on `frame`.
    pub open spec fn steered(self, frame: u64, input: Set<Input>) -> PlayerBody {
        PlayerBody {
            player: self.player.steered(frame, input),
            bounds: self.bounds,
            velocity: self.velocity.steered(frame, self.player, input),
        }
    }

    /// The body after the physics of `frame`. It moves by its velocity. At
    /// or above the ceiling it is put at the ceiling and its vertical speed
    /// is turned round and halved. Below the ground it is put on the ground
    /// and stops falling. On the frames that `DRAG_PERIOD` divides, a body
    /// on the ground loses one of horizontal speed and a body in the air
    /// gains one of downward speed. Last, its column is wrapped.
    pub open spec fn moved(self, frame: u64) -> PlayerBody {
        let size = self.bounds.0.size;
        let x1 = self.bounds.0.origin.x + self.velocity.0.x;
        let y1 = self.bounds.0.origin.y + self.velocity.0.y;
        let above_ceiling = y1 <= 0;
        let below_ground = y1 + size.height > RENDER_HEIGHT;
        let y2 = if above_ceiling {
            0
        } else {
            y1
        };
        let vy2 = if above_ceiling {
            half_toward_zero(-self.velocity.0.y)
        } else {
            self.velocity.0.y as int
        };
        let y3 = if below_ground {
            RENDER_HEIGHT - size.height
        } else {
            y2
        };
        let vy3 = if below_ground {
            0
        } else {
            vy2
        };
        let on_ground = y3 + size.height == RENDER_HEIGHT;
        let drag = frame % DRAG_PERIOD == 0;
        let vx4 = if on_ground && drag {
            slowed(self.velocity.0.x as int)
        } else {
            self.velocity.0.x as int
        };
        let vy4 = if !on_ground && drag {
            vy3 + 1
        } else {
            vy3
        };
        PlayerBody {
            player: self.player,
            bounds: Bounds(
                Rect { origin: Point2D::at(wrapped(x1, size.width as int), y3), size: size },
            ),
            velocity: Velocity(Vector2D::of(vx4, vy4)),
        }
    }

    /// The body after one tick on `frame` with the inputs `input`.
    pub open spec fn stepped(self, frame: u64, input: Set<Input>) -> PlayerBody {
        self.steered(frame, input).moved(frame)
    }
}

impl WorldView {
    /// Every body can be stepped, every player has a seat among the
    /// `seats` inputs, and the frame counter can still count on.
    pub open spec fn steppable(self, seats: int) -> bool {
        &&& self.frame < u64::MAX
        &&& forall|i: int|
            0 <= i < self.players.len() ==> (#[trigger] self.players[i]).steppable()
                && self.players[i].player.handle < seats
    }

    /// Every body is settled and every player has a seat among `seats`.
    pub open spec fn settled(self, seats: int) -> bool {
        forall|i: int|
            0 <= i < self.players.len() ==> (#[trigger] self.players[i]).settled()
                && self.players[i].player.handle < seats
    }

    /// The world after the inputs of the frame were applied: each player
    /// takes the inputs of its seat.
    pub open spec fn steered(self, inputs: Seq<InputSet>) -> WorldView {
        WorldView {
            players: Seq::new(
                self.players.len(),
                |i: int|
                    self.players[i].steered(
                        self.frame,
                        inputs[self.players[i].player.handle as int]@,
                    ),
            ),
            frame: self.frame,
        }
    }

    /// The world after the physics of its frame.
    pub open spec fn moved(self) -> WorldView {
        WorldView {
            players: Seq::new(self.players.len(), |i: int| self.players[i].moved(self.frame)),
            frame: self.frame,
        }
    }

    /// The world one tick later: each player has taken the inputs of its
    /// seat and moved, and the frame counter has counted one frame.
    pub open spec fn stepped(self, inputs: Seq<InputSet>) -> WorldView {
        WorldView {
            players: Seq::new(
                self.players.len(),
                |i: int|
                    self.players[i].stepped(
                        self.frame,
                        inputs[self.players[i].player.handle as int]@,
                    ),
            ),
            frame: (self.frame + 1) as u64,
        }
    }

    /// The world after one tick for each element of `inputs`, in order.
    pub open spec fn replayed(self, inputs: Seq<Seq<InputSet>>) -> WorldView
        decreases inputs.len(),
    {
        if inputs.len() == 0 {
            self
        } else {
            self.replayed(inputs.drop_last()).stepped(inputs.last())
        }
    }
}

/// Applies the inputs of one frame to a player: a flap where the primary
/// input is held and the cooldown has passed, one of horizontal speed for
/// `Left` and `Right`, and the horizontal speed limit.
pub fn move_player(
    frame_counter: &FrameCounter,
    input: InputSet,
    player: &mut Player,
    velocity: &mut Velocity,
)
    requires
        -COORD_LIMIT <= old(velocity).0.x <= COORD_LIMIT,
        -COORD_LIMIT <= old(velocity).0.y <= COORD_LIMIT,
    ensures
        *final(player) == old(player).steered(frame_counter.0, input@),
        *final(velocity) == old(velocity).steered(frame_counter.0, *old(player), input@),
{
    let mut direction: Vector2D<Pixels> = Vector2D::new(0, 0);
    if input.contains(Input::Primary) {
        if frame_counter.0 > player.last_flap_frame && frame_counter.0 - player.last_flap_frame
            > FLAP_COOLDOWN {
            direction.y = direction.y - FLAP_STRENGTH;
            player.last_flap_frame = frame_counter.0;
        }
    }
    if input.contains(Input::Left) {
        direction.x = direction.x - 1;
    }
    if input.contains(Input::Right) {
        direction.x = direction.x + 1;
    }
    velocity.0.x = velocity.0.x + direction.x;
    velocity.0.y = velocity.0.y + direction.y;

    // clamp horizontal velocity to 2
    if velocity.0.x > 0 {
        if velocity.0.x > MAX_HORIZONTAL_SPEED {
            velocity.0.x = MAX_HORIZONTAL_SPEED;
        }
    } else {
        if velocity.0.x < -MAX_HORIZONTAL_SPEED {
            velocity.0.x = -MAX_HORIZONTAL_SPEED;
        }
    }
}

/// The physics of one frame for one body.
pub fn move_body(frame_counter: &FrameCounter, body: &mut PlayerBody)
    requires
        old(body).movable(),
    ensures
        *final(body) == old(body).moved(frame_counter.0),
{
    let size = body.bounds.0.size;
    let mut origin = body.bounds.0.origin;
    let mut v = body.velocity.0;

    // apply the velocity
    origin.x = origin.x + v.x;
    origin.y = origin.y + v.y;

    let above_ceiling = origin.y <= 0;
    let below_ground = origin.y + size.height > RENDER_HEIGHT;

    // hitting the ceiling bounces you
    if above_ceiling {
        v.y = -v.y;
        v.y = v.y / 2;
        origin.y = 0;
    }
    if below_ground {
        // hitting the ground stops you from falling
        origin.y = RENDER_HEIGHT - size.height;
        v.y = 0;
    }
    let on_ground = origin.y + size.height == RENDER_HEIGHT;

    if on_ground {
        // being on the ground causes a degredation of lateral movement in
        // the direction of movement due to friction
        if frame_counter.0 % DRAG_PERIOD == 0 {
            if v.x > 0 {
                v.x = v.x - 1;
            } else if v.x < 0 {
                v.x = v.x + 1;
            }
        }
    } else if frame_counter.0 % DRAG_PERIOD == 0 {
        // apply gravity to the velocity if not on the ground
        v.y = v.y + 1;
    }
    // screen wrapping

    if origin.x > RENDER_WIDTH {
        origin.x = origin.x - (RENDER_WIDTH + size.width);
    }
    if origin.x < -size.width {
        origin.x = origin.x + (RENDER_WIDTH + size.width);
    }
    body.bounds = Bounds(Rect::new(origin, size));
    body.velocity = Velocity(v);
}

/// The physics of one frame for every body.
pub fn physics(frame_counter: &FrameCounter, bodies: &mut Vec<PlayerBody>)
    requires
        forall|i: int| 0 <= i < old(bodies)@.len() ==> (#[trigger] old(bodies)@[i]).movable(),
    ensures
        final(bodies)@.len() == old(bodies)@.len(),
        forall|i: int|
            0 <= i < old(bodies)@.len() ==> #[trigger] final(bodies)@[i] == old(bodies)@[i].moved(
                frame_counter.0,
            ),
{
    let mut n: usize = 0;
    while n < bodies.len()
        invariant
            n <= bodies@.len(),
            bodies@.len() == old(bodies)@.len(),
            forall|i: int| 0 <= i < n ==> #[trigger] bodies@[i] == old(bodies)@[i].moved(frame_counter.0),
            forall|i: int| n <= i < bodies@.len() ==> #[trigger] bodies@[i] == old(bodies)@[i],
            forall|i: int| 0 <= i < old(bodies)@.len() ==> (#[trigger] old(bodies)@[i]).movable(),
        decreases bodies@.len() - n,
    {
        let mut body = bodies[n];
        move_body(frame_counter, &mut body);
        bodies[n] = body;
        n = n + 1;
    }
}


/// Inputs that agree seat by seat on which inputs are held.
pub open spec fn same_inputs(a: Seq<InputSet>, b: Seq<InputSet>) -> bool {
    &&& a.len() == b.len()
    &&& forall|p: int| 0 <= p < a.len() ==> (#[trigger] a[p])@ == b[p]@
}

/// A tick is a function of the world and the inputs, and of nothing else:
/// from equal worlds, with inputs that hold the same for every seat, it
/// gives equal worlds.
pub proof fn lemma_step_is_pure(a: WorldView, b: WorldView, xs: Seq<InputSet>, ys: Seq<InputSet>)
    requires
        a.players == b.players,
        a.frame == b.frame,
        same_inputs(xs, ys),
        forall|i: int| 0 <= i < a.players.len() ==> (#[trigger] a.players[i]).player.handle < xs.len(),
    ensures
        a.stepped(xs) == b.stepped(ys),
{
    assert forall|i: int| 0 <= i < a.players.len() implies a.stepped(xs).players[i] == b.stepped(
        ys,
    ).players[i] by {
        let h = a.players[i].player.handle as int;
        assert(xs[h]@ == ys[h]@);
    }
    assert(a.stepped(xs).players =~= b.stepped(ys).players);
}

/// A tick keeps the players and their seats.
pub proof fn lemma_step_keeps_seats(w: WorldView, inputs: Seq<InputSet>)
    ensures
        w.stepped(inputs).players.len() == w.players.len(),
        forall|i: int|
            0 <= i < w.players.len() ==> (#[trigger] w.stepped(inputs).players[i]).player.handle
                == w.players[i].player.handle,
{
}

/// Replaying keeps the players and their seats, and counts one frame for
/// each tick as long as the counter has room.
pub proof fn lemma_replay_keeps_seats(w: WorldView, inputs: Seq<Seq<InputSet>>)
    ensures
        w.replayed(inputs).players.len() == w.players.len(),
        forall|i: int|
            0 <= i < w.players.len() ==> (#[trigger] w.replayed(inputs).players[i]).player.handle
                == w.players[i].player.handle,
        w.frame + inputs.len() <= u64::MAX ==> w.replayed(inputs).frame == w.frame + inputs.len(),
    decreases inputs.len(),
{
    if inputs.len() > 0 {
        lemma_replay_keeps_seats(w, inputs.drop_last());
        lemma_step_keeps_seats(w.replayed(inputs.drop_last()), inputs.last());
    }
}

/// Replaying is deterministic: from equal worlds, two runs of ticks whose
/// inputs hold the same for every seat on every frame end in equal worlds.
pub proof fn lemma_replay_is_deterministic(
    a: WorldView,
    b: WorldView,
    xs: Seq<Seq<InputSet>>,
    ys: Seq<Seq<InputSet>>,
)
    requires
        a.players == b.players,
        a.frame == b.frame,
        xs.len() == ys.len(),
        forall|k: int| 0 <= k < xs.len() ==> same_inputs(#[trigger] xs[k], ys[k]),
        forall|k: int, i: int|
            0 <= k < xs.len() && 0 <= i < a.players.len() ==> (#[trigger] a.players[i]).player.handle
                < (#[trigger] xs[k]).len(),
    ensures
        a.replayed(xs) == b.replayed(ys),
    decreases xs.len(),
{
    if xs.len() > 0 {
        lemma_replay_is_deterministic(a, b, xs.drop_last(), ys.drop_last());
        let before = a.replayed(xs.drop_last());
        lemma_replay_keeps_seats(a, xs.drop_last());
        assert(same_inputs(xs[xs.len() - 1], ys[xs.len() - 1]));
        assert forall|i: int| 0 <= i < before.players.len() implies (
        #[trigger] before.players[i]).player.handle < xs.last().len() by {
            assert(a.players[i].player.handle < xs[xs.len() - 1].len());
        }
        lemma_step_is_pure(before, b.replayed(ys.drop_last()), xs.last(), ys.last());
    } else {
        assert(a == b);
    }
}

/// After a tick no body is faster sideways than the horizontal speed limit.
pub proof fn lemma_step_clamps_speed(body: PlayerBody, frame: u64, input: Set<Input>)
    requires
        body.steppable(),
    ensures
        -MAX_HORIZONTAL_SPEED <= body.stepped(frame, input).velocity.0.x <= MAX_HORIZONTAL_SPEED,
{
}

/// After a tick a body no taller than the grid lies between the ceiling
/// and the ground.
pub proof fn lemma_step_contains_vertically(body: PlayerBody, frame: u64, input: Set<Input>)
    requires
        body.steppable(),
        body.bounds.0.size.height <= RENDER_HEIGHT,
    ensures
        0 <= body.stepped(frame, input).bounds.0.origin.y <= RENDER_HEIGHT
            - body.bounds.0.size.height,
        body.stepped(frame, input).bounds.0.size == body.bounds.0.size,
{
}

/// The column that the body has once its speed was added, before wrapping.
pub open spec fn column_before_wrap(body: PlayerBody, input: Set<Input>) -> int {
    body.bounds.0.origin.x + clamp_speed(body.velocity.0.x + steering(input))
}

/// A tick brings a body back within one width of the grid's sides, from
/// wherever one lap of the grid reaches: where the body, once its speed was
/// added, is no more than the grid's width and its own beyond that range.
pub proof fn lemma_step_wraps_column(body: PlayerBody, frame: u64, input: Set<Input>)
    requires
        body.steppable(),
        -body.bounds.0.size.width - (RENDER_WIDTH + body.bounds.0.size.width) <= column_before_wrap(
            body,
            input,
        ) <= RENDER_WIDTH + (RENDER_WIDTH + body.bounds.0.size.width),
    ensures
        -body.bounds.0.size.width <= body.stepped(frame, input).bounds.0.origin.x <= RENDER_WIDTH,
{
}

/// A settled body can be stepped, and a tick leaves it settled.
pub proof fn lemma_step_keeps_settled(body: PlayerBody, frame: u64, input: Set<Input>)
    requires
        body.settled(),
    ensures
        body.steppable(),
        body.stepped(frame, input).settled(),
        body.stepped(frame, input).player.handle == body.player.handle,
{
}

/// A settled world can be stepped while its frame counter has room, and a
/// tick leaves it settled.
pub proof fn lemma_world_step_keeps_settled(w: WorldView, inputs: Seq<InputSet>)
    requires
        w.settled(inputs.len() as int),
    ensures
        w.frame < u64::MAX ==> w.steppable(inputs.len() as int),
        w.stepped(inputs).settled(inputs.len() as int),
{
    assert forall|i: int| 0 <= i < w.players.len() implies (#[trigger] w.players[i]).steppable()
        && w.players[i].player.handle < inputs.len() by {
        lemma_step_keeps_settled(w.players[i], w.frame, Set::empty());
    }
    assert forall|i: int| 0 <= i < w.stepped(inputs).players.len() implies (#[trigger] w.stepped(
        inputs,
    ).players[i]).settled() && w.stepped(inputs).players[i].player.handle < inputs.len() by {
        lemma_step_keeps_settled(
            w.players[i],
            w.frame,
            inputs[w.players[i].player.handle as int]@,
        );
    }
}

impl WorldState {
    /// A world of the given bodies at frame `frame`.
    pub fn new(players: Vec<PlayerBody>, frame: u64) -> (w: Self)
        ensures
            w@ == (WorldView { players: players@, frame: frame }),
    {
        WorldState { players, frame_counter: FrameCounter(frame) }
    }

    /// A copy of the world.
    pub fn snapshot(&self) -> (w: Self)
        ensures
            w@ == self@,
    {
        let mut players: Vec<PlayerBody> = Vec::new();
        let mut n: usize = 0;
        while n < self.players.len()
            invariant
                n <= self.players@.len(),
                players@ == self.players@.subrange(0, n as int),
            decreases self.players@.len() - n,
        {
            players.push(self.players[n]);
            assert(players@ =~= self.players@.subrange(0, n + 1));
            n = n + 1;
        }
        assert(players@ =~= self.players@);
        WorldState { players, frame_counter: FrameCounter(self.frame_counter.0) }
    }

    /// One tick: every player takes the inputs of its seat, every body
    /// moves, and the frame counter counts one frame.
    pub fn step(&mut self, inputs: &Vec<InputSet>)
        requires
            old(self)@.steppable(inputs@.len() as int),
        ensures
            final(self)@ == old(self)@.stepped(inputs@),
    {
        move_players(&self.frame_counter, inputs, &mut self.players);
        physics(&self.frame_counter, &mut self.players);
        self.frame_counter.update();
        assert(self@.players =~= old(self)@.stepped(inputs@).players);
    }
}

impl FrameCounter {
    /// Counts one frame.
    pub fn update(&mut self)
        requires
            old(self).0 < u64::MAX,
        ensures
            final(self).0 == old(self).0 + 1,
    {
        self.0 = self.0 + 1;
    }
}

/// Applies the inputs of one frame to every player: each takes the inputs
/// of its seat.
pub fn move_players(frame_counter: &FrameCounter, inputs: &Vec<InputSet>, bodies: &mut Vec<PlayerBody>)
    requires
        forall|i: int|
            0 <= i < old(bodies)@.len() ==> (#[trigger] old(bodies)@[i]).steppable() && old(bodies)@[i].player.handle < inputs@.len(),
    ensures
        final(bodies)@.len() == old(bodies)@.len(),
        forall|i: int|
            0 <= i < old(bodies)@.len() ==> #[trigger] final(bodies)@[i] == old(bodies)@[i].steered(
                frame_counter.0,
                inputs@[old(bodies)@[i].player.handle as int]@,
            ),
        forall|i: int| 0 <= i < final(bodies)@.len() ==> (#[trigger] final(bodies)@[i]).movable(),
{
    let mut n: usize = 0;
    while n < bodies.len()
        invariant
            n <= bodies@.len(),
            bodies@.len() == old(bodies)@.len(),
            forall|i: int|
                0 <= i < old(bodies)@.len() ==> (#[trigger] old(bodies)@[i]).steppable() && old(bodies)@[i].player.handle < inputs@.len(),
            forall|i: int|
                0 <= i < n ==> #[trigger] bodies@[i] == old(bodies)@[i].steered(
                    frame_counter.0,
                    inputs@[old(bodies)@[i].player.handle as int]@,
                ),
            forall|i: int| n <= i < bodies@.len() ==> #[trigger] bodies@[i] == old(bodies)@[i],
            forall|i: int| 0 <= i < n ==> (#[trigger] bodies@[i]).movable(),
        decreases bodies@.len() - n,
    {
        let mut body = bodies[n];
        assert(old(bodies)@[n as int].steppable());
        let input = inputs[body.player.handle as usize];
        move_player(frame_counter, input, &mut body.player, &mut body.velocity);
        bodies[n] = body;
        n = n + 1;
    }
}

impl PlayerBody {
    /// Whether the body is settled.
    pub fn is_settled(&self) -> (b: bool)
        ensures
            b == self.settled(),
    {
        let size = self.bounds.0.size;
        let origin = self.bounds.0.origin;
        let v = self.velocity.0;
        0 <= size.height && size.height <= RENDER_HEIGHT && 0 <= size.width && size.width
            <= COORD_LIMIT && -size.width <= origin.x && origin.x <= RENDER_WIDTH && 0 <= origin.y
            && origin.y <= RENDER_HEIGHT - size.height && -MAX_HORIZONTAL_SPEED <= v.x && v.x
            <= MAX_HORIZONTAL_SPEED && -RENDER_HEIGHT <= v.y && v.y <= RENDER_HEIGHT
    }
}

impl WorldState {
    /// Whether every body is settled and every player has a seat among
    /// `seats`.
    pub fn is_settled(&self, seats: usize) -> (b: bool)
        ensures
            b == self@.settled(seats as int),
    {
        let mut n: usize = 0;
        while n < self.players.len()
            invariant
                n <= self.players@.len(),
                forall|i: int|
                    0 <= i < n ==> (#[trigger] self.players@[i]).settled()
                        && self.players@[i].player.handle < seats,
            decreases self.players@.len() - n,
        {
            let body = self.players[n];
            if !body.is_settled() || body.player.handle as usize >= seats {
                return false;
            }
            n = n + 1;
        }
        true
    }
}

/// The colour that stands for `handle`: one of the pallet but the
/// background, picked by the hash of the handle.
pub open spec fn handle_color(handle: u32) -> Color {
    pallet(fnv1a(le_bytes(handle as u64)) % ((PALLET_SIZE - 1) as u64) + 1)
}

pub fn arbitrary_color(handle: u32) -> (c: Color)
    ensures
        c == handle_color(handle),
{
    let index = hash_u64(handle as u64);
    pallet_color((index % (PALLET_SIZE as u64 - 1)) as usize + 1)
}

impl Sprite for Player {
    open spec fn drawable(&self, bounds: Bounds, assets: &Assets) -> bool {
        bounds.0.fits()
    }

    fn can_draw(&self, bounds: &Bounds, _assets: &Assets) -> (b: bool) {
        let far_x = bounds.0.origin.x as i64 + bounds.0.size.width as i64;
        let far_y = bounds.0.origin.y as i64 + bounds.0.size.height as i64;
        i32::MIN as i64 <= far_x && far_x <= i32::MAX as i64 && i32::MIN as i64 <= far_y && far_y
            <= i32::MAX as i64
    }

    open spec fn ink(&self, bounds: Bounds, assets: &Assets, q: Point2D<Pixels>) -> bool {
        rect_ink(bounds.0, q)
    }

    open spec fn ink_color(&self) -> Color {
        handle_color(self.handle)
    }

    /// Fills the part of the bounds that lies on the grid with the colour
    /// of the player's handle.
    fn draw(&self, bounds: &Bounds, _assets: &Assets, renderer: &mut CanvasRenderer) {
        let color = arbitrary_color(self.handle);
        fill_rect(&bounds.0, color, renderer);
        assert(painted(
            old(renderer)@,
            renderer@,
            |q: Point2D<Pixels>| self.ink(*bounds, _assets, q),
            self.ink_color(),
        ));
    }
}

/// The text box that shows the status line, by its place among the text
/// boxes.
#[derive(Clone, Copy, Debug)]
pub struct GameStatusTextBox {
    pub entity: usize,
}

/// The text box that shows the frame rate, by its place among the text
/// boxes.
#[derive(Clone, Copy, Debug)]
pub struct FpsCounterTextBox {
    pub entity: usize,
}

/// Whether `entity` is a text box of the game screen at `x`, `y` with the
/// text `text`: a hundred by ten pixels, in the highlight colour, owned by
/// the game.
pub open spec fn is_game_text(entity: Entity<TextBox>, x: int, y: int, text: Seq<char>) -> bool {
    &&& entity.bounds.0.origin == Point2D::<Pixels>::at(x, y)
    &&& entity.bounds.0.size == Size2D::<Pixels>::of(100, 10)
    &&& entity.sprite.text@ == text
    &&& entity.sprite.color == pallet(2)
    &&& entity.owner == Owner::OnGame
}

fn spawn_game_text(
    text_boxes: &mut Vec<Entity<TextBox>>,
    text: &str,
    pos: Point2D<Pixels>,
    color: Color,
) -> (entity: usize)
    ensures
        entity == old(text_boxes)@.len(),
        final(text_boxes)@.len() == old(text_boxes)@.len() + 1,
        final(text_boxes)@.subrange(0, old(text_boxes)@.len() as int) == old(text_boxes)@,
        final(text_boxes)@[entity as int].bounds.0.origin == pos,
        final(text_boxes)@[entity as int].bounds.0.size == Size2D::<Pixels>::of(100, 10),
        final(text_boxes)@[entity as int].sprite.text@ == text@,
        final(text_boxes)@[entity as int].sprite.color == color,
        final(text_boxes)@[entity as int].owner == Owner::OnGame,
{
    let entity = text_boxes.len();
    let (text_box, bounds) = TextBox::spawn(text.to_owned(), pos, color);
    text_boxes.push(Entity { bounds, sprite: text_box, owner: Owner::OnGame });
    assert(text_boxes@.subrange(0, old(text_boxes)@.len() as int) =~= old(text_boxes)@);
    entity
}

impl FpsCounterTextBox {
    /// Puts up the text box of the frame rate.
    pub fn spawn(text_boxes: &mut Vec<Entity<TextBox>>, pos: Point2D<Pixels>, color: Color) -> (r:
        Self)
        ensures
            r.entity == old(text_boxes)@.len(),
            final(text_boxes)@.len() == old(text_boxes)@.len() + 1,
            final(text_boxes)@.subrange(0, old(text_boxes)@.len() as int) == old(text_boxes)@,
            final(text_boxes)@[r.entity as int].bounds.0.origin == pos,
            final(text_boxes)@[r.entity as int].bounds.0.size == Size2D::<Pixels>::of(100, 10),
            final(text_boxes)@[r.entity as int].sprite.text@ == "fps"@,
            final(text_boxes)@[r.entity as int].sprite.color == color,
            final(text_boxes)@[r.entity as int].owner == Owner::OnGame,
    {
        FpsCounterTextBox { entity: spawn_game_text(text_boxes, "fps", pos, color) }
    }
}

impl GameStatusTextBox {
    /// Puts up the text box of the status line, empty.
    pub fn spawn(text_boxes: &mut Vec<Entity<TextBox>>, pos: Point2D<Pixels>, color: Color) -> (r:
        Self)
        ensures
            r.entity == old(text_boxes)@.len(),
            final(text_boxes)@.len() == old(text_boxes)@.len() + 1,
            final(text_boxes)@.subrange(0, old(text_boxes)@.len() as int) == old(text_boxes)@,
            final(text_boxes)@[r.entity as int].bounds.0.origin == pos,
            final(text_boxes)@[r.entity as int].bounds.0.size == Size2D::<Pixels>::of(100, 10),
            final(text_boxes)@[r.entity as int].sprite.text@ == ""@,
            final(text_boxes)@[r.entity as int].sprite.color == color,
            final(text_boxes)@[r.entity as int].owner == Owner::OnGame,
    {
        GameStatusTextBox { entity: spawn_game_text(text_boxes, "", pos, color) }
    }

    /// Shows the status line in the text box.
    pub fn update(&self, status: &GameStatus, text_boxes: &mut Vec<Entity<TextBox>>)
        requires
            self.entity < old(text_boxes)@.len(),
        ensures
            final(text_boxes)@.len() == old(text_boxes)@.len(),
            forall|i: int|
                0 <= i < old(text_boxes)@.len() && i != self.entity ==> final(text_boxes)@[i]
                    == old(text_boxes)@[i],
            final(text_boxes)@[self.entity as int].sprite.text@ == status.0@,
            final(text_boxes)@[self.entity as int].sprite.color == old(text_boxes)@[self.entity as int].sprite.color,
            final(text_boxes)@[self.entity as int].bounds == old(text_boxes)@[self.entity as int].bounds,
            final(text_boxes)@[self.entity as int].owner == old(text_boxes)@[self.entity as int].owner,
    {
        text_boxes[self.entity].sprite.text = status.0.clone();
    }
}

/// Puts up the text boxes of the game screen: a greeting, the status line
/// and the frame rate.
pub fn spawn_sprites(text_boxes: &mut Vec<Entity<TextBox>>) -> (r: (
    GameStatusTextBox,
    FpsCounterTextBox,
))
    ensures
        final(text_boxes)@.len() == old(text_boxes)@.len() + 3,
        final(text_boxes)@.subrange(0, old(text_boxes)@.len() as int) == old(text_boxes)@,
        is_game_text(final(text_boxes)@[old(text_boxes)@.len() as int], 10, 40, "hello world"@),
        r.0.entity == old(text_boxes)@.len() + 1,
        is_game_text(final(text_boxes)@[old(text_boxes)@.len() as int + 1], 10, 150, ""@),
        r.1.entity == old(text_boxes)@.len() + 2,
        is_game_text(final(text_boxes)@[old(text_boxes)@.len() as int + 2], 10, 100, "fps"@),
{
    let ghost start = text_boxes@;
    let _ = spawn_game_text(text_boxes, "hello world", Point2D::new(10, 40), pallet_color(2));
    let ghost one = text_boxes@;
    let status = GameStatusTextBox::spawn(text_boxes, Point2D::new(10, 150), pallet_color(2));
    let ghost two = text_boxes@;
    let fps = FpsCounterTextBox::spawn(text_boxes, Point2D::new(10, 100), pallet_color(2));
    proof {
        let n = start.len() as int;
        assert(text_boxes@.subrange(0, n + 2) == two);
        assert(two.subrange(0, n + 1) == one);
        assert(one.subrange(0, n) == start);
        assert forall|i: int| 0 <= i < n + 2 implies text_boxes@[i] == two[i] by {
            assert(text_boxes@.subrange(0, n + 2)[i] == text_boxes@[i]);
        }
        assert forall|i: int| 0 <= i < n + 1 implies two[i] == one[i] by {
            assert(two.subrange(0, n + 1)[i] == two[i]);
        }
        assert forall|i: int| 0 <= i < n implies one[i] == start[i] by {
            assert(one.subrange(0, n)[i] == one[i]);
        }
        assert(text_boxes@.subrange(0, n) =~= start);
    }
    (status, fps)
}

} // verus!
