//! The rollback session: it runs the simulation ahead of the network on
//! predicted inputs, records the inputs that arrive, and replays from the
//! frame of a wrong prediction.

use vstd::prelude::*;
use crate::game::{
    lemma_step_keeps_seats,
    lemma_world_step_keeps_settled,
    WorldState,
    WorldView,
};
use crate::input::{InputSet, INPUT_BITS_END};

verus! {

/// Frame numbers travel as 32 bits: no input is recorded for this frame or
/// a later one.
pub const FRAME_LIMIT: u64 = 0xffff_ffff;

/// The greatest prediction window and input delay that a session takes.
pub const WINDOW_LIMIT: u64 = 1024;

/// The greatest number of seats that a session takes.
pub const SEAT_LIMIT: usize = 1024;

/// The greatest frame counter that the world may show when a session starts.
pub const START_FRAME_LIMIT: u64 = 0xffff_ffff_0000_0000;

/// The inputs that are known for certain: the byte of a seat on a frame,
/// keyed by frame and seat.
pub type InputLog = Map<(nat, nat), u8>;

/// The input that the simulation uses for `seat` on `frame`: the one that
/// is known, else the one used on the frame before, else no input at all.
pub open spec fn effective(log: InputLog, frame: nat, seat: nat) -> u8
    decreases frame,
{
    if log.contains_key((frame, seat)) {
        log[(frame, seat)]
    } else if frame == 0 {
        0
    } else {
        effective(log, (frame - 1) as nat, seat)
    }
}

/// The inputs that the simulation uses on `frame`, one for each seat.
pub open spec fn inputs_of(log: InputLog, seats: nat, frame: nat) -> Seq<InputSet> {
    Seq::new(seats, |p: int| InputSet::of_byte(effective(log, frame, p as nat)))
}

/// The world at the start of `frame`, from `start` at frame zero, with the
/// inputs that `log` gives or lets predict.
pub open spec fn simulated(start: WorldView, log: InputLog, seats: nat, frame: nat) -> WorldView
    decreases frame,
{
    if frame == 0 {
        start
    } else {
        simulated(start, log, seats, (frame - 1) as nat).stepped(
            inputs_of(log, seats, (frame - 1) as nat),
        )
    }
}

/// Whether every seat's input is known for `frame`.
pub open spec fn frame_confirmed(log: InputLog, seats: nat, frame: nat) -> bool {
    forall|p: nat| p < seats ==> log.contains_key((frame, p))
}

/// Whether every seat's input is known for every frame before `frame`.
pub open spec fn confirmed_below(log: InputLog, seats: nat, frame: nat) -> bool {
    forall|g: nat, p: nat| g < frame && p < seats ==> log.contains_key((g, p))
}

/// The first frame up to `limit` that is not known in full, or `limit`
/// where every frame before it is.
pub open spec fn confirmed_upto(log: InputLog, seats: nat, limit: nat) -> nat
    decreases limit,
{
    if limit == 0 {
        0
    } else {
        let before = confirmed_upto(log, seats, (limit - 1) as nat);
        if before == limit - 1 && frame_confirmed(log, seats, before) {
            limit
        } else {
            before
        }
    }
}

/// The inputs of all seats as sets, for the frames before `frames`, as the
/// log has them.
pub open spec fn logged_inputs(log: InputLog, seats: nat, frames: nat) -> Seq<Seq<InputSet>> {
    Seq::new(frames, |g: int| inputs_of(log, seats, g as nat))
}

/// Every byte in the log encodes a set of inputs, for a seat of the session.
pub open spec fn log_well_formed(log: InputLog, seats: nat) -> bool {
    forall|g: nat, p: nat| #[trigger]
        log.contains_key((g, p)) ==> p < seats && log[(g, p)] < INPUT_BITS_END
}

/// The input that the simulation uses encodes a set of inputs.
pub proof fn lemma_effective_is_input(log: InputLog, seats: nat, frame: nat, seat: nat)
    requires
        log_well_formed(log, seats),
    ensures
        effective(log, frame, seat) < INPUT_BITS_END,
    decreases frame,
{
    if !log.contains_key((frame, seat)) && frame > 0 {
        lemma_effective_is_input(log, seats, (frame - 1) as nat, seat);
    }
}

/// Two logs that agree on a seat up to a frame give that seat the same
/// input on that frame.
pub proof fn lemma_effective_agrees(a: InputLog, b: InputLog, frame: nat, seat: nat)
    requires
        forall|g: nat|
            #![trigger a.contains_key((g, seat))]
            g <= frame ==> a.contains_key((g, seat)) == b.contains_key((g, seat)) && (
            a.contains_key((g, seat)) ==> a[(g, seat)] == b[(g, seat)]),
    ensures
        effective(a, frame, seat) == effective(b, frame, seat),
    decreases frame,
{
    assert(a.contains_key((frame, seat)) == b.contains_key((frame, seat)));
    if !a.contains_key((frame, seat)) && frame > 0 {
        assert forall|g: nat|
            #![trigger a.contains_key((g, seat))]
            g <= (frame - 1) as nat implies a.contains_key((g, seat)) == b.contains_key((g, seat))
            && (a.contains_key((g, seat)) ==> a[(g, seat)] == b[(g, seat)]) by {
            assert(g <= frame);
        }
        lemma_effective_agrees(a, b, (frame - 1) as nat, seat);
    }
}

/// An input that arrives for a frame changes nothing that the simulation
/// uses on earlier frames, nor anything of other seats.
pub proof fn lemma_insert_leaves_earlier(
    log: InputLog,
    frame: nat,
    seat: nat,
    byte: u8,
    g: nat,
    p: nat,
)
    requires
        g < frame || p != seat,
    ensures
        effective(log.insert((frame, seat), byte), g, p) == effective(log, g, p),
{
    lemma_effective_agrees(log.insert((frame, seat), byte), log, g, p);
}

/// An input that arrives as it was predicted changes nothing that the
/// simulation uses.
pub proof fn lemma_insert_as_predicted(
    log: InputLog,
    frame: nat,
    seat: nat,
    byte: u8,
    g: nat,
    p: nat,
)
    requires
        !log.contains_key((frame, seat)),
        byte == effective(log, frame, seat),
    ensures
        effective(log.insert((frame, seat), byte), g, p) == effective(log, g, p),
    decreases g,
{
    let after = log.insert((frame, seat), byte);
    if p != seat || g < frame {
        lemma_insert_leaves_earlier(log, frame, seat, byte, g, p);
    } else if g == frame {
    } else {
        if !log.contains_key((g, p)) {
            lemma_insert_as_predicted(log, frame, seat, byte, (g - 1) as nat, p);
        }
    }
}

/// The world at the start of a frame depends on the log only through the
/// inputs that the simulation uses on earlier frames.
pub proof fn lemma_simulated_agrees(
    start: WorldView,
    a: InputLog,
    b: InputLog,
    seats: nat,
    frame: nat,
)
    requires
        forall|g: nat, p: nat| g < frame && p < seats ==> effective(a, g, p) == effective(b, g, p),
    ensures
        simulated(start, a, seats, frame) == simulated(start, b, seats, frame),
    decreases frame,
{
    if frame > 0 {
        let g = (frame - 1) as nat;
        lemma_simulated_agrees(start, a, b, seats, g);
        assert forall|p: int| 0 <= p < seats implies inputs_of(a, seats, g)[p] == inputs_of(
            b,
            seats,
            g,
        )[p] by {
            assert(effective(a, g, p as nat) == effective(b, g, p as nat));
        }
        assert(inputs_of(a, seats, g) =~= inputs_of(b, seats, g));
    }
}

/// Simulating keeps a settled world settled, keeps its players, and counts
/// the frames.
pub proof fn lemma_simulated_settled(start: WorldView, log: InputLog, seats: nat, frame: nat)
    requires
        start.settled(seats as int),
        start.frame + frame <= u64::MAX,
    ensures
        simulated(start, log, seats, frame).settled(seats as int),
        simulated(start, log, seats, frame).frame == start.frame + frame,
        simulated(start, log, seats, frame).players.len() == start.players.len(),
    decreases frame,
{
    if frame > 0 {
        let g = (frame - 1) as nat;
        lemma_simulated_settled(start, log, seats, g);
        lemma_world_step_keeps_settled(simulated(start, log, seats, g), inputs_of(log, seats, g));
        lemma_step_keeps_seats(simulated(start, log, seats, g), inputs_of(log, seats, g));
    }
}

/// Simulating is replaying the inputs that the log gives.
pub proof fn lemma_simulated_is_replay(start: WorldView, log: InputLog, seats: nat, frame: nat)
    ensures
        simulated(start, log, seats, frame) == start.replayed(logged_inputs(log, seats, frame)),
    decreases frame,
{
    if frame > 0 {
        let g = (frame - 1) as nat;
        lemma_simulated_is_replay(start, log, seats, g);
        assert(logged_inputs(log, seats, frame).drop_last() =~= logged_inputs(log, seats, g));
        assert(logged_inputs(log, seats, frame).last() == inputs_of(log, seats, g));
    } else {
        assert(logged_inputs(log, seats, frame).len() == 0);
    }
}

/// The first frame not known in full is no later than the limit, every
/// frame before it is known in full, and either it is the limit or it is
/// itself not known in full.
pub proof fn lemma_confirmed_upto(log: InputLog, seats: nat, limit: nat)
    ensures
        confirmed_upto(log, seats, limit) <= limit,
        confirmed_below(log, seats, confirmed_upto(log, seats, limit)),
        confirmed_upto(log, seats, limit) == limit || !frame_confirmed(
            log,
            seats,
            confirmed_upto(log, seats, limit),
        ),
    decreases limit,
{
    if limit > 0 {
        lemma_confirmed_upto(log, seats, (limit - 1) as nat);
        let before = confirmed_upto(log, seats, (limit - 1) as nat);
        if before == limit - 1 && frame_confirmed(log, seats, before) {
            assert forall|g: nat, p: nat| g < limit && p < seats implies log.contains_key(
                (g, p),
            ) by {
                if g == before {
                    assert(frame_confirmed(log, seats, before));
                }
            }
        }
    }
}

/// A frame with those three properties is the first frame not known in full.
pub proof fn lemma_confirmed_upto_is(log: InputLog, seats: nat, limit: nat, frame: nat)
    requires
        frame <= limit,
        confirmed_below(log, seats, frame),
        frame == limit || !frame_confirmed(log, seats, frame),
    ensures
        confirmed_upto(log, seats, limit) == frame,
    decreases limit,
{
    if limit > 0 {
        if frame == limit {
            lemma_confirmed_upto_is(log, seats, (limit - 1) as nat, (limit - 1) as nat);
            assert(frame_confirmed(log, seats, (limit - 1) as nat));
        } else {
            lemma_confirmed_upto_is(log, seats, (limit - 1) as nat, frame);
        }
    }
}

/// The more is known and the further the simulation has run, the later the
/// first frame not known in full.
pub proof fn lemma_confirmed_upto_grows(
    a: InputLog,
    b: InputLog,
    seats: nat,
    limit_a: nat,
    limit_b: nat,
)
    requires
        limit_a <= limit_b,
        forall|g: nat, p: nat| a.contains_key((g, p)) ==> b.contains_key((g, p)),
    ensures
        confirmed_upto(a, seats, limit_a) <= confirmed_upto(b, seats, limit_b),
{
    lemma_confirmed_upto(a, seats, limit_a);
    lemma_confirmed_upto(b, seats, limit_b);
    let ca = confirmed_upto(a, seats, limit_a);
    let cb = confirmed_upto(b, seats, limit_b);
    if cb < ca {
        assert(!frame_confirmed(b, seats, cb));
        assert(confirmed_below(a, seats, ca));
        assert forall|p: nat| p < seats implies b.contains_key((cb, p)) by {
            assert(a.contains_key((cb, p)));
        }
        assert(false);
    }
}

/// What the log knows of `seat` on `frame`.
pub open spec fn known(log: InputLog, frame: nat, seat: nat) -> Option<u8> {
    if log.contains_key((frame, seat)) {
        Some(log[(frame, seat)])
    } else {
        None
    }
}

/// Where nothing is known of a seat from after `low` up to `high`, the
/// simulation uses on `high` what it uses on `low`.
pub proof fn lemma_effective_carries(log: InputLog, low: nat, high: nat, seat: nat)
    requires
        low <= high,
        forall|g: nat| low < g <= high ==> (#[trigger] known(log, g, seat)) is None,
    ensures
        effective(log, high, seat) == effective(log, low, seat),
    decreases high,
{
    if low < high {
        assert(known(log, high, seat) is None);
        lemma_effective_carries(log, low, (high - 1) as nat, seat);
    }
}

/// Where nothing is known of a seat up to `high`, the simulation uses no
/// input for it on `high`.
pub proof fn lemma_effective_neutral(log: InputLog, high: nat, seat: nat)
    requires
        forall|g: nat| g <= high ==> (#[trigger] known(log, g, seat)) is None,
    ensures
        effective(log, high, seat) == 0,
    decreases high,
{
    assert(known(log, high, seat) is None);
    if 0 < high {
        lemma_effective_neutral(log, (high - 1) as nat, seat);
    }
}

/// Where a session stands in its life.
#[derive(Clone, Copy, Debug, PartialEq, Eq, Structural, Hash)]
pub enum SessionState {
    Idle,
    Syncing,
    Running,
    Disconnected,
}

/// What became of an input that arrived from a remote seat.
#[derive(Clone, Copy, Debug, PartialEq, Eq, Structural, Hash)]
pub enum Arrival {
    /// Recorded; the simulation had predicted it, or has not come to it.
    Recorded,
    /// Recorded; the prediction was wrong and the frames since were replayed.
    RolledBack,
    /// Dropped: an input is already known for that seat and frame.
    Duplicate,
    /// Dropped: the frame lies before the last confirmed frame.
    Stale,
    /// Dropped: the frame lies further ahead than the session keeps room for.
    OutOfWindow,
    /// Dropped: no remote seat of that number, or a byte that encodes no inputs.
    Malformed,
    /// Dropped: the session is not running.
    NotRunning,
}

/// What a tick of the session did.
#[derive(Clone, Copy, Debug, PartialEq, Eq, Structural, Hash)]
pub enum Advance {
    /// One frame was simulated. The local input was recorded for `frame`
    /// and is to be sent to every remote seat as `frame` and `input`.
    Advanced { frame: u32, input: u8 },
    /// The prediction window is used up, or the frame numbers are: nothing
    /// changed.
    Stalled,
    /// The session is not running: nothing changed.
    NotRunning,
}

/// An input as it comes from the transport: the seat of the peer that sent
/// it, the frame it is for, and the byte of the input.
#[derive(Clone, Copy, Debug, PartialEq, Eq, Structural, Hash)]
pub struct RemoteInput {
    pub seat: usize,
    pub frame: u32,
    pub input: u8,
}

/// A session as a mathematical value: its parameters, the world it started
/// from, the inputs it knows, and the frame it has come to.
pub struct SessionView {
    pub phase: SessionState,
    pub seats: nat,
    pub local: nat,
    pub max_prediction: nat,
    pub frame_delay: nat,
    pub start: WorldView,
    pub log: InputLog,
    pub current: nat,
}

/// The log of a session that has recorded nothing: every seat holds no
/// input on the frames before the input delay.
pub open spec fn initial_log(seats: nat, frame_delay: nat) -> InputLog {
    Map::new(|k: (nat, nat)| k.0 < frame_delay && k.1 < seats, |k: (nat, nat)| 0u8)
}

impl SessionView {
    /// The world at the start of the current frame.
    pub open spec fn state(self) -> WorldView {
        simulated(self.start, self.log, self.seats, self.current)
    }

    /// The number of frames, from frame zero on, that are known in full:
    /// the first frame for which some seat's input is not known.
    pub open spec fn confirmed_frames(self) -> nat {
        confirmed_upto(self.log, self.seats, self.current + self.frame_delay)
    }

    /// The last confirmed frame: the highest frame such that the input of
    /// every seat is known for it and for every frame before it, or `None`
    /// while not even frame zero is known in full.
    pub open spec fn last_confirmed_frame(self) -> Option<nat> {
        if self.confirmed_frames() == 0 {
            None
        } else {
            Some((self.confirmed_frames() - 1) as nat)
        }
    }

    /// How far the current frame lies ahead of the last confirmed frame;
    /// while no frame is confirmed, how far it lies ahead of the frame
    /// before frame zero.
    pub open spec fn ahead(self) -> int {
        self.current - self.confirmed_frames() + 1
    }

    /// The first frame that the session keeps records of: the first frame
    /// that is not known in full, or the current frame where that one is
    /// later.
    pub open spec fn window_start(self) -> nat {
        confirmed_upto(self.log, self.seats, self.current)
    }

    /// The frames that the session keeps room for, from the start of its
    /// records on.
    pub open spec fn capacity(self) -> nat {
        2 * (self.max_prediction + self.frame_delay + 1)
    }

    /// Whether a tick would not advance: the current frame is more frames
    /// ahead of the last confirmed frame than the session may predict, or
    /// the frame numbers are used up.
    pub open spec fn stalled(self) -> bool {
        ||| self.ahead() > self.max_prediction
        ||| self.current + self.frame_delay >= FRAME_LIMIT
    }

    /// What becomes of the input `byte` that arrives for `seat` and `frame`.
    pub open spec fn arrival(self, seat: nat, frame: nat, byte: u8) -> Arrival {
        if self.phase != SessionState::Running {
            Arrival::NotRunning
        } else if seat >= self.seats || seat == self.local || byte >= INPUT_BITS_END {
            Arrival::Malformed
        } else if frame + 1 < self.confirmed_frames() {
            Arrival::Stale
        } else if frame >= self.window_start() + self.capacity() {
            Arrival::OutOfWindow
        } else if self.log.contains_key((frame, seat)) {
            Arrival::Duplicate
        } else if frame < self.current && effective(self.log, frame, seat) != byte {
            Arrival::RolledBack
        } else {
            Arrival::Recorded
        }
    }

    /// The session once it knows `byte` for `seat` on `frame`.
    pub open spec fn with_input(self, seat: nat, frame: nat, byte: u8) -> SessionView {
        SessionView { log: self.log.insert((frame, seat), byte), ..self }
    }

    /// The session once the input `message` has arrived: it knows the
    /// input where it records it, and is as before where it drops it.
    pub open spec fn received(self, message: RemoteInput) -> SessionView {
        let arrival = self.arrival(message.seat as nat, message.frame as nat, message.input);
        if arrival == Arrival::Recorded || arrival == Arrival::RolledBack {
            self.with_input(message.seat as nat, message.frame as nat, message.input)
        } else {
            self
        }
    }

    /// The session once the inputs `messages` have arrived, in order.
    pub open spec fn received_all(self, messages: Seq<RemoteInput>) -> SessionView
        decreases messages.len(),
    {
        if messages.len() == 0 {
            self
        } else {
            self.received_all(messages.drop_last()).received(messages.last())
        }
    }

    /// The session after the tick of one frame: the inputs `messages` have
    /// arrived, and then, unless it is stalled or not running, it has
    /// advanced with the local input `byte`.
    pub open spec fn ticked(self, messages: Seq<RemoteInput>, byte: u8) -> SessionView {
        let polled = self.received_all(messages);
        if polled.phase == SessionState::Running && !polled.stalled() {
            polled.advanced(byte)
        } else {
            polled
        }
    }

    /// The session one tick later, with the local input `byte`.
    pub open spec fn advanced(self, byte: u8) -> SessionView {
        SessionView {
            log: self.log.insert((self.current + self.frame_delay, self.local), byte),
            current: self.current + 1,
            ..self
        }
    }
}

/// The session of one peer.
pub struct Session {
    phase: SessionState,
    seats: usize,
    local: usize,
    max_prediction: u64,
    frame_delay: u64,
    current: u64,
    confirmed: u64,
    /// Row `i` holds what is known of frame `confirmed + i`, seat by seat.
    window: Vec<Vec<Option<u8>>>,
    /// What each seat used on the frame before `confirmed`.
    carried: Vec<u8>,
    /// Snapshot `i` is the world at the start of frame `confirmed + i`.
    snapshots: Vec<WorldState>,
    state: WorldState,
    start: Ghost<WorldView>,
    log: Ghost<InputLog>,
}

impl View for Session {
    type V = SessionView;

    closed spec fn view(&self) -> SessionView {
        SessionView {
            phase: self.phase,
            seats: self.seats as nat,
            local: self.local as nat,
            max_prediction: self.max_prediction as nat,
            frame_delay: self.frame_delay as nat,
            start: self.start@,
            log: self.log@,
            current: self.current as nat,
        }
    }
}

impl Session {
    spec fn params_ok(&self) -> bool {
        &&& 1 <= self.seats <= SEAT_LIMIT
        &&& self.local < self.seats
        &&& self.max_prediction <= WINDOW_LIMIT
        &&& self.frame_delay <= WINDOW_LIMIT
        &&& self.window@.len() == 2 * (self.max_prediction + self.frame_delay + 1)
        &&& self.confirmed <= self.current <= self.confirmed + self.max_prediction + 1
        &&& self.current + self.frame_delay <= FRAME_LIMIT
        &&& self.start@.settled(self.seats as int)
        &&& self.start@.frame <= START_FRAME_LIMIT
        &&& (self.phase == SessionState::Idle || self.phase == SessionState::Syncing ==> self.log@
            == initial_log(self.seats as nat, self.frame_delay as nat) && self.current == 0)
    }

    spec fn log_ok(&self) -> bool {
        &&& log_well_formed(self.log@, self.seats as nat)
        &&& confirmed_below(self.log@, self.seats as nat, self.confirmed as nat)
        &&& forall|g: nat, p: nat| #[trigger]
            self.log@.contains_key((g, p)) ==> g < self.confirmed + self.window@.len()
        &&& forall|g: nat|
            (#[trigger] self.log@.contains_key((g, self.local as nat))) <==> g < self.current
                + self.frame_delay
    }

    spec fn rows_ok(&self) -> bool {
        &&& forall|i: int|
            0 <= i < self.window@.len() ==> (#[trigger] self.window@[i])@.len() == self.seats
        &&& forall|i: int, p: int|
            0 <= i < self.window@.len() && 0 <= p < self.seats ==> #[trigger] self.window@[i]@[p]
                == known(self.log@, (self.confirmed + i) as nat, p as nat)
    }

    spec fn carried_ok(&self) -> bool {
        &&& self.carried@.len() == self.seats
        &&& forall|p: int|
            0 <= p < self.seats ==> #[trigger] self.carried@[p] == (if self.confirmed == 0 {
                0u8
            } else {
                effective(self.log@, (self.confirmed - 1) as nat, p as nat)
            })
    }

    /// The snapshots up to index `upto` are the worlds that the log gives.
    spec fn snapshots_ok(&self, upto: int) -> bool {
        forall|i: int|
            0 <= i < upto ==> (#[trigger] self.snapshots@[i])@ == simulated(
                self.start@,
                self.log@,
                self.seats as nat,
                (self.confirmed + i) as nat,
            )
    }

    spec fn worlds_ok(&self) -> bool {
        &&& self.snapshots@.len() == self.current - self.confirmed
        &&& self.snapshots_ok(self.snapshots@.len() as int)
        &&& self.state@ == simulated(
            self.start@,
            self.log@,
            self.seats as nat,
            self.current as nat,
        )
    }

    spec fn confirmed_is_last(&self) -> bool {
        self.confirmed == self.current || !frame_confirmed(
            self.log@,
            self.seats as nat,
            self.confirmed as nat,
        )
    }

    /// The session's records agree with each other: the window, the worlds
    /// it keeps and the frame it counts are those that its log gives.
    pub closed spec fn wf(&self) -> bool {
        &&& self.records_ok()
        &&& self.current <= self.confirmed + self.max_prediction
    }

    spec fn records_ok(&self) -> bool {
        &&& self.params_ok()
        &&& self.log_ok()
        &&& self.rows_ok()
        &&& self.carried_ok()
        &&& self.worlds_ok()
        &&& self.confirmed_is_last()
    }
}

/// A row that holds `value` for each of `seats` seats.
fn filled_row(seats: usize, value: Option<u8>) -> (row: Vec<Option<u8>>)
    ensures
        row@.len() == seats,
        forall|p: int| 0 <= p < seats ==> row@[p] == value,
{
    let mut row: Vec<Option<u8>> = Vec::new();
    let mut p: usize = 0;
    while p < seats
        invariant
            p <= seats,
            row@.len() == p,
            forall|q: int| 0 <= q < p ==> row@[q] == value,
        decreases seats - p,
    {
        row.push(value);
        p = p + 1;
    }
    row
}

/// Whether the row holds an input for every seat.
fn row_complete(row: &Vec<Option<u8>>) -> (b: bool)
    ensures
        b == forall|p: int| 0 <= p < row@.len() ==> (#[trigger] row@[p]) is Some,
{
    let mut p: usize = 0;
    while p < row.len()
        invariant
            p <= row@.len(),
            forall|q: int| 0 <= q < p ==> (#[trigger] row@[q]) is Some,
        decreases row@.len() - p,
    {
        if row[p].is_none() {
            return false;
        }
        p = p + 1;
    }
    true
}

impl Session {
    /// A session that waits to be started, for a world that is settled.
    /// `None` where there is no seat or more than `SEAT_LIMIT`, where the
    /// prediction window or the input delay is over `WINDOW_LIMIT`, where
    /// the world is not settled for the seats, or where its frame counter
    /// is beyond `START_FRAME_LIMIT`.
    pub fn new(world: WorldState, seats: usize, max_prediction: u32, frame_delay: u32) -> (r:
        Option<Session>)
        ensures
            r is Some <==> (1 <= seats <= SEAT_LIMIT && max_prediction <= WINDOW_LIMIT
                && frame_delay <= WINDOW_LIMIT && world@.settled(seats as int) && world@.frame
                <= START_FRAME_LIMIT),
            r matches Some(s) ==> s.wf() && s@ == (SessionView {
                phase: SessionState::Idle,
                seats: seats as nat,
                local: 0,
                max_prediction: max_prediction as nat,
                frame_delay: frame_delay as nat,
                start: world@,
                log: initial_log(seats as nat, frame_delay as nat),
                current: 0,
            }),
    {
        if seats < 1 || seats > SEAT_LIMIT || max_prediction as u64 > WINDOW_LIMIT
            || frame_delay as u64 > WINDOW_LIMIT || world.frame_counter.0 > START_FRAME_LIMIT
            || !world.is_settled(seats) {
            return None;
        }
        let capacity: u64 = 2 * (max_prediction as u64 + frame_delay as u64 + 1);
        let ghost log = initial_log(seats as nat, frame_delay as nat);
        let mut window: Vec<Vec<Option<u8>>> = Vec::new();
        let mut i: u64 = 0;
        while i < capacity
            invariant
                i <= capacity,
                window@.len() == i,
                forall|k: int| 0 <= k < i ==> (#[trigger] window@[k])@.len() == seats,
                forall|k: int, p: int|
                    0 <= k < i && 0 <= p < seats ==> #[trigger] window@[k]@[p] == known(
                        log,
                        k as nat,
                        p as nat,
                    ),
                log == initial_log(seats as nat, frame_delay as nat),
            decreases capacity - i,
        {
            let row = if i < frame_delay as u64 {
                filled_row(seats, Some(0))
            } else {
                filled_row(seats, None)
            };
            window.push(row);
            i = i + 1;
        }
        let mut carried: Vec<u8> = Vec::new();
        let mut p: usize = 0;
        while p < seats
            invariant
                p <= seats,
                carried@.len() == p,
                forall|q: int| 0 <= q < p ==> carried@[q] == 0,
            decreases seats - p,
        {
            carried.push(0);
            p = p + 1;
        }
        let ghost start = world@;
        let s = Session {
            phase: SessionState::Idle,
            seats,
            local: 0,
            max_prediction: max_prediction as u64,
            frame_delay: frame_delay as u64,
            current: 0,
            confirmed: 0,
            window,
            carried,
            snapshots: Vec::new(),
            state: world,
            start: Ghost(start),
            log: Ghost(log),
        };
        assert(s.wf());
        Some(s)
    }

    /// Where the session stands in its life.
    pub fn phase(&self) -> (r: SessionState)
        ensures
            r == self@.phase,
    {
        self.phase
    }

    /// The number of seats.
    pub fn seats(&self) -> (r: usize)
        ensures
            r == self@.seats,
    {
        self.seats
    }

    /// The frames that the simulation may run ahead of the last confirmed
    /// frame.
    pub fn max_prediction(&self) -> (r: u64)
        ensures
            r == self@.max_prediction,
    {
        self.max_prediction
    }

    /// The frames between reading a local input and applying it.
    pub fn frame_delay(&self) -> (r: u64)
        ensures
            r == self@.frame_delay,
    {
        self.frame_delay
    }

    /// The frame that the next tick simulates.
    pub fn current_frame(&self) -> (r: u32)
        requires
            self.wf(),
        ensures
            r == self@.current,
    {
        self.current as u32
    }

    /// The number of frames, from frame zero on, that are known in full.
    fn known_frames(&self) -> (r: u64)
        requires
            self.params_ok(),
            self.log_ok(),
            self.rows_ok(),
            self.confirmed_is_last(),
        ensures
            r == self@.confirmed_frames(),
            self.confirmed <= r <= self.current + self.frame_delay,
            self.confirmed < self.current ==> r == self.confirmed,
    {
        proof {
            self.lemma_confirmed();
        }
        if self.confirmed < self.current {
            return self.confirmed;
        }
        let mut i: usize = 0;
        loop
            invariant
                i <= self.window@.len(),
                self.params_ok(),
                self.log_ok(),
                self.rows_ok(),
                self.confirmed == self.current,
                forall|g: nat, p: nat|
                    self.confirmed <= g < self.confirmed + i && p < self.seats
                        ==> self.log@.contains_key((g, p)),
            ensures
                i <= self.window@.len(),
                forall|g: nat, p: nat|
                    self.confirmed <= g < self.confirmed + i && p < self.seats
                        ==> self.log@.contains_key((g, p)),
                !frame_confirmed(self.log@, self.seats as nat, (self.confirmed + i) as nat),
            decreases self.window@.len() - i,
        {
            if i >= self.window.len() {
                proof {
                    let g = (self.confirmed + i) as nat;
                    if self.log@.contains_key((g, 0nat)) {
                        assert(g < self.confirmed + self.window@.len());
                    }
                }
                break ;
            }
            assert(self.window@[i as int]@.len() == self.seats);
            if !row_complete(&self.window[i]) {
                proof {
                    let p = choose|p: int|
                        0 <= p < self.window@[i as int]@.len() && !((
                        #[trigger] self.window@[i as int]@[p]) is Some);
                    assert(self.window@[i as int]@[p] == known(
                        self.log@,
                        (self.confirmed + i) as nat,
                        p as nat,
                    ));
                    assert(!self.log@.contains_key(((self.confirmed + i) as nat, p as nat)));
                }
                break ;
            }
            proof {
                assert forall|g: nat, p: nat|
                    self.confirmed <= g < self.confirmed + i + 1 && p
                        < self.seats implies self.log@.contains_key((g, p)) by {
                    if g == self.confirmed + i {
                        assert(self.window@[i as int]@[p as int] is Some);
                        assert(self.window@[i as int]@[p as int] == known(
                            self.log@,
                            (self.confirmed + i) as nat,
                            p,
                        ));
                    }
                }
            }
            i = i + 1;
        }
        let r: u64 = self.confirmed + i as u64;
        proof {
            assert(confirmed_below(self.log@, self.seats as nat, self.confirmed as nat));
            assert(confirmed_below(self.log@, self.seats as nat, r as nat));
            if r > self.current + self.frame_delay {
                assert(self.log@.contains_key(
                    ((self.current + self.frame_delay) as nat, self.local as nat),
                ));
                assert(false);
            }
            lemma_confirmed_upto_is(
                self.log@,
                self.seats as nat,
                (self.current + self.frame_delay) as nat,
                r as nat,
            );
        }
        r
    }

    /// The last confirmed frame: the highest frame such that the input of
    /// every seat is known for it and for every frame before it, if there
    /// is one.
    pub fn last_confirmed_frame(&self) -> (r: Option<u32>)
        requires
            self.wf(),
        ensures
            match r {
                Some(frame) => self@.last_confirmed_frame() == Some(frame as nat),
                None => self@.last_confirmed_frame() is None,
            },
    {
        let in_full = self.known_frames();
        if in_full == 0 {
            None
        } else {
            Some((in_full - 1) as u32)
        }
    }

    /// Whether a tick would not advance.
    pub fn is_stalled(&self) -> (r: bool)
        requires
            self.wf(),
        ensures
            r == self@.stalled(),
    {
        let in_full = self.known_frames();
        (self.current >= in_full && self.current - in_full + 1 > self.max_prediction) || self.current
            + self.frame_delay >= FRAME_LIMIT
    }

    /// The world at the start of the current frame.
    pub fn state(&self) -> (w: &WorldState)
        requires
            self.wf(),
        ensures
            w@ == self@.state(),
    {
        &self.state
    }

    proof fn lemma_confirmed(&self)
        requires
            self.params_ok(),
            self.log_ok(),
            self.confirmed_is_last(),
        ensures
            self.confirmed == self@.window_start(),
            self.confirmed <= self@.confirmed_frames() <= self.current + self.frame_delay,
            self.confirmed < self.current ==> self.confirmed == self@.confirmed_frames(),
    {
        lemma_confirmed_upto_is(
            self.log@,
            self.seats as nat,
            self.current as nat,
            self.confirmed as nat,
        );
        let limit = (self.current + self.frame_delay) as nat;
        lemma_confirmed_upto(self.log@, self.seats as nat, limit);
        let k = confirmed_upto(self.log@, self.seats as nat, limit);
        if self.confirmed < self.current {
            lemma_confirmed_upto_is(self.log@, self.seats as nat, limit, self.confirmed as nat);
        } else if k < self.current {
            assert(confirmed_below(self.log@, self.seats as nat, self.confirmed as nat));
            assert forall|p: nat| p < self.seats implies self.log@.contains_key((k, p)) by {}
            assert(false);
        }
    }

    /// The session starts to wait for its peers: from `Idle` to `Syncing`.
    pub fn begin_sync(&mut self)
        requires
            old(self).wf(),
        ensures
            final(self).wf(),
            final(self)@ == (SessionView {
                phase: if old(self)@.phase == SessionState::Idle {
                    SessionState::Syncing
                } else {
                    old(self)@.phase
                },
                ..old(self)@
            }),
    {
        if self.phase == SessionState::Idle {
            self.phase = SessionState::Syncing;
        }
    }

    /// A peer is gone: a running session is disconnected, for good.
    pub fn peer_dropped(&mut self)
        requires
            old(self).wf(),
        ensures
            final(self).wf(),
            final(self)@ == (SessionView {
                phase: if old(self)@.phase == SessionState::Running {
                    SessionState::Disconnected
                } else {
                    old(self)@.phase
                },
                ..old(self)@
            }),
    {
        if self.phase == SessionState::Running {
            self.phase = SessionState::Disconnected;
        }
    }

    /// All seats are taken and the local one is `local`: a session that is
    /// syncing starts to run. Returns whether it did.
    pub fn start(&mut self, local: usize) -> (started: bool)
        requires
            old(self).wf(),
        ensures
            final(self).wf(),
            started == (old(self)@.phase == SessionState::Syncing && local < old(self)@.seats),
            started ==> final(self)@ == (SessionView {
                phase: SessionState::Running,
                local: local as nat,
                ..old(self)@
            }),
            !started ==> final(self)@ == old(self)@,
    {
        if self.phase == SessionState::Syncing && local < self.seats {
            self.phase = SessionState::Running;
            self.local = local;
            true
        } else {
            false
        }
    }
}

impl Session {
    /// The input that the simulation uses for seat `p` on the frame of row `i`.
    fn effective_input(&self, i: usize, p: usize) -> (b: u8)
        requires
            self.rows_ok(),
            self.carried_ok(),
            log_well_formed(self.log@, self.seats as nat),
            i < self.window@.len(),
            p < self.seats,
        ensures
            b == effective(self.log@, (self.confirmed + i) as nat, p as nat),
            b < INPUT_BITS_END,
    {
        proof {
            lemma_effective_is_input(
                self.log@,
                self.seats as nat,
                (self.confirmed + i) as nat,
                p as nat,
            );
        }
        let mut k: usize = i;
        loop
            invariant
                k <= i,
                i < self.window@.len(),
                p < self.seats,
                self.rows_ok(),
                effective(self.log@, (self.confirmed + i) as nat, p as nat) < INPUT_BITS_END,
                forall|g: nat|
                    self.confirmed + k < g <= self.confirmed + i ==> (#[trigger] known(
                        self.log@,
                        g,
                        p as nat,
                    )) is None,
            ensures
                forall|g: nat|
                    self.confirmed <= g <= self.confirmed + i ==> (#[trigger] known(
                        self.log@,
                        g,
                        p as nat,
                    )) is None,
            decreases k,
        {
            proof {
                assert(self.window@[k as int]@[p as int] == known(
                    self.log@,
                    (self.confirmed + k) as nat,
                    p as nat,
                ));
            }
            match self.window[k][p] {
                Some(b) => {
                    proof {
                        lemma_effective_carries(
                            self.log@,
                            (self.confirmed + k) as nat,
                            (self.confirmed + i) as nat,
                            p as nat,
                        );
                    }
                    return b;
                },
                None => {},
            }
            if k == 0 {
                break ;
            }
            k = k - 1;
        }
        proof {
            if self.confirmed == 0 {
                lemma_effective_neutral(self.log@, i as nat, p as nat);
            } else {
                lemma_effective_carries(
                    self.log@,
                    (self.confirmed - 1) as nat,
                    (self.confirmed + i) as nat,
                    p as nat,
                );
            }
        }
        self.carried[p]
    }

    /// The inputs that the simulation uses on the frame of row `i`.
    fn frame_inputs(&self, i: usize) -> (inputs: Vec<InputSet>)
        requires
            self.rows_ok(),
            self.carried_ok(),
            log_well_formed(self.log@, self.seats as nat),
            i < self.window@.len(),
        ensures
            inputs@ == inputs_of(self.log@, self.seats as nat, (self.confirmed + i) as nat),
    {
        let mut inputs: Vec<InputSet> = Vec::new();
        let mut p: usize = 0;
        while p < self.seats
            invariant
                p <= self.seats,
                inputs@.len() == p,
                i < self.window@.len(),
                self.rows_ok(),
                self.carried_ok(),
                log_well_formed(self.log@, self.seats as nat),
                forall|q: int|
                    0 <= q < p ==> inputs@[q] == InputSet::of_byte(
                        effective(self.log@, (self.confirmed + i) as nat, q as nat),
                    ),
            decreases self.seats - p,
        {
            let b = self.effective_input(i, p);
            inputs.push(InputSet::from_u8(b));
            p = p + 1;
        }
        assert(inputs@ =~= inputs_of(self.log@, self.seats as nat, (self.confirmed + i) as nat));
        inputs
    }

    /// Replays the frames from that of snapshot `i` up to the current one.
    fn resimulate(&mut self, i: usize)
        requires
            old(self).params_ok(),
            old(self).log_ok(),
            old(self).rows_ok(),
            old(self).carried_ok(),
            old(self).snapshots@.len() == old(self).current - old(self).confirmed,
            i < old(self).snapshots@.len(),
            old(self).snapshots_ok(i + 1),
        ensures
            final(self).params_ok(),
            final(self).log_ok(),
            final(self).rows_ok(),
            final(self).carried_ok(),
            final(self).worlds_ok(),
            final(self)@ == old(self)@,
            final(self).confirmed == old(self).confirmed,
    {
        let mut world = self.snapshots[i].snapshot();
        self.snapshots.truncate(i);
        let frames: usize = (self.current - self.confirmed) as usize;
        let mut h: usize = i;
        while h < frames
            invariant
                i <= h <= frames,
                frames == self.current - self.confirmed,
                self.params_ok(),
                self.log_ok(),
                self.rows_ok(),
                self.carried_ok(),
                self@ == old(self)@,
                self.confirmed == old(self).confirmed,
                self.snapshots@.len() == h,
                self.snapshots_ok(h as int),
                world@ == simulated(
                    self.start@,
                    self.log@,
                    self.seats as nat,
                    (self.confirmed + h) as nat,
                ),
            decreases frames - h,
        {
            let inputs = self.frame_inputs(h);
            proof {
                lemma_simulated_settled(
                    self.start@,
                    self.log@,
                    self.seats as nat,
                    (self.confirmed + h) as nat,
                );
                lemma_world_step_keeps_settled(world@, inputs@);
            }
            self.snapshots.push(world.snapshot());
            world.step(&inputs);
            h = h + 1;
        }
        self.state = world;
    }

    /// Moves the last confirmed frame on, over the frames that are known in
    /// full and simulated, and lets go of what was kept for them.
    fn settle_confirmed(&mut self)
        requires
            old(self).params_ok(),
            old(self).log_ok(),
            old(self).rows_ok(),
            old(self).carried_ok(),
            old(self).worlds_ok(),
        ensures
            final(self).records_ok(),
            final(self)@ == old(self)@,
            final(self).confirmed >= old(self).confirmed,
    {
        while self.confirmed < self.current
            invariant
                self.params_ok(),
                self.log_ok(),
                self.rows_ok(),
                self.carried_ok(),
                self.worlds_ok(),
                self@ == old(self)@,
                self.confirmed >= old(self).confirmed,
            ensures
                self.records_ok(),
                self@ == old(self)@,
                self.confirmed >= old(self).confirmed,
            decreases self.current - self.confirmed,
        {
            assert(self.window@[0]@.len() == self.seats);
            if !row_complete(&self.window[0]) {
                proof {
                    let p = choose|p: int|
                        0 <= p < self.window@[0]@.len() && !((#[trigger] self.window@[0]@[p]) is Some);
                    assert(self.window@[0]@[p] == known(
                        self.log@,
                        (self.confirmed + 0) as nat,
                        p as nat,
                    ));
                    assert(!self.log@.contains_key((self.confirmed as nat, p as nat)));
                }
                break ;
            }
            let ghost before = *self;
            proof {
                assert forall|p: nat| p < self.seats implies self.log@.contains_key(
                    (self.confirmed as nat, p),
                ) by {
                    assert(self.window@[0]@[p as int] is Some);
                    assert(self.window@[0]@[p as int] == known(
                        self.log@,
                        (self.confirmed + 0) as nat,
                        p,
                    ));
                }
            }
            let row = self.window.remove(0);
            let mut p: usize = 0;
            while p < self.seats
                invariant
                    p <= self.seats,
                    self.seats == before.seats,
                    self.carried@.len() == self.seats,
                    row@ == before.window@[0]@,
                    row@.len() == self.seats,
                    forall|q: int| 0 <= q < row@.len() ==> (#[trigger] row@[q]) is Some,
                    forall|q: int| 0 <= q < p ==> Some(#[trigger] self.carried@[q]) == row@[q],
                    self.phase == before.phase,
                    self.local == before.local,
                    self.max_prediction == before.max_prediction,
                    self.frame_delay == before.frame_delay,
                    self.current == before.current,
                    self.confirmed == before.confirmed,
                    self.window@ == before.window@.remove(0),
                    self.snapshots == before.snapshots,
                    self.state == before.state,
                    self.start == before.start,
                    self.log == before.log,
                decreases self.seats - p,
            {
                match row[p] {
                    Some(b) => {
                        self.carried[p] = b;
                    },
                    None => {},
                }
                p = p + 1;
            }
            self.window.push(filled_row(self.seats, None));
            let _ = self.snapshots.remove(0);
            self.confirmed = self.confirmed + 1;
            proof {
                assert(self@ == before@);
                assert(self.params_ok());
                assert(self.log_ok()) by {
                    assert forall|g: nat, q: nat|
                        g < self.confirmed && q < self.seats implies self.log@.contains_key(
                        (g, q),
                    ) by {
                        if g == before.confirmed {
                        } else {
                            assert(confirmed_below(
                                before.log@,
                                before.seats as nat,
                                before.confirmed as nat,
                            ));
                        }
                    }
                }
                assert(self.rows_ok()) by {
                    assert forall|i: int| 0 <= i < self.window@.len() implies (
                    #[trigger] self.window@[i])@.len() == self.seats by {
                        if i < self.window@.len() - 1 {
                            assert(self.window@[i] == before.window@[i + 1]);
                        }
                    }
                    assert forall|i: int, q: int|
                        0 <= i < self.window@.len() && 0 <= q < self.seats implies
                        #[trigger] self.window@[i]@[q] == known(
                        self.log@,
                        (self.confirmed + i) as nat,
                        q as nat,
                    ) by {
                        if i < self.window@.len() - 1 {
                            assert(self.window@[i] == before.window@[i + 1]);
                            assert(before.window@[i + 1]@[q] == known(
                                before.log@,
                                (before.confirmed + (i + 1)) as nat,
                                q as nat,
                            ));
                        } else {
                            let g = (self.confirmed + i) as nat;
                            if self.log@.contains_key((g, q as nat)) {
                                assert(g < before.confirmed + before.window@.len());
                            }
                        }
                    }
                }
                assert(self.carried_ok()) by {
                    assert forall|q: int| 0 <= q < self.seats implies #[trigger] self.carried@[q]
                        == effective(self.log@, (self.confirmed - 1) as nat, q as nat) by {
                        assert(Some(self.carried@[q]) == row@[q]);
                        assert(before.window@[0]@[q] == known(
                            before.log@,
                            (before.confirmed + 0) as nat,
                            q as nat,
                        ));
                    }
                }
                assert(self.worlds_ok()) by {
                    assert forall|i: int| 0 <= i < self.snapshots@.len() implies (
                    #[trigger] self.snapshots@[i])@ == simulated(
                        self.start@,
                        self.log@,
                        self.seats as nat,
                        (self.confirmed + i) as nat,
                    ) by {
                        assert(self.snapshots@[i] == before.snapshots@[i + 1]);
                    }
                }
            }
        }
    }
}

impl Session {
    /// Takes the input `byte` that a peer sent for `seat` and `frame`. An
    /// input that is new is recorded; where the simulation has passed its
    /// frame on another prediction, the frames since are replayed.
    pub fn add_remote_input(&mut self, seat: usize, frame: u32, byte: u8) -> (r: Arrival)
        requires
            old(self).wf(),
        ensures
            final(self).wf(),
            r == old(self)@.arrival(seat as nat, frame as nat, byte),
            r == Arrival::Recorded || r == Arrival::RolledBack ==> final(self)@ == old(self)@.with_input(seat as nat, frame as nat, byte),
            r != Arrival::Recorded && r != Arrival::RolledBack ==> final(self)@ == old(self)@,
            final(self)@.confirmed_frames() >= old(self)@.confirmed_frames(),
    {
        proof {
            self.lemma_confirmed();
        }
        if self.phase != SessionState::Running {
            return Arrival::NotRunning;
        }
        if seat >= self.seats || seat == self.local || byte >= INPUT_BITS_END {
            return Arrival::Malformed;
        }
        let g: u64 = frame as u64;
        let in_full = self.known_frames();
        if g + 1 < in_full {
            return Arrival::Stale;
        }
        if g < self.confirmed {
            proof {
                assert(confirmed_below(self.log@, self.seats as nat, self.confirmed as nat));
                assert(self.log@.contains_key((g as nat, seat as nat)));
            }
            return Arrival::Duplicate;
        }
        let offset: u64 = g - self.confirmed;
        if offset >= self.window.len() as u64 {
            return Arrival::OutOfWindow;
        }
        let i: usize = offset as usize;
        assert(self.window@[i as int]@[seat as int] == known(
            self.log@,
            (self.confirmed + i) as nat,
            seat as nat,
        ));
        assert(self.window@[i as int]@.len() == self.seats);
        if self.window[i][seat].is_some() {
            return Arrival::Duplicate;
        }
        let predicted = self.effective_input(i, seat);
        let ghost before = *self;
        let ghost log_after = self.log@.insert((g as nat, seat as nat), byte);
        let mut row = filled_row(0, None);
        core::mem::swap(&mut row, &mut self.window[i]);
        row[seat] = Some(byte);
        core::mem::swap(&mut row, &mut self.window[i]);
        self.log = Ghost(log_after);
        proof {
            assert(self@ == before@.with_input(seat as nat, frame as nat, byte));
            assert(self.window@[i as int]@ == before.window@[i as int]@.update(
                seat as int,
                Some(byte),
            ));
            assert(self.params_ok());
            assert(self.log_ok()) by {
                assert(confirmed_below(before.log@, before.seats as nat, before.confirmed as nat));
                assert forall|h: nat| (#[trigger] self.log@.contains_key((h, self.local as nat)))
                    <==> h < self.current + self.frame_delay by {
                    assert(before.log@.contains_key((h, before.local as nat)) <==> h
                        < before.current + before.frame_delay);
                }
            }
            assert(self.rows_ok()) by {
                assert forall|k: int| 0 <= k < self.window@.len() implies (
                #[trigger] self.window@[k])@.len() == self.seats by {
                    if k != i {
                        assert(self.window@[k] == before.window@[k]);
                    }
                }
                assert forall|k: int, q: int|
                    0 <= k < self.window@.len() && 0 <= q < self.seats implies
                    #[trigger] self.window@[k]@[q] == known(
                    self.log@,
                    (self.confirmed + k) as nat,
                    q as nat,
                ) by {
                    assert(before.window@[k]@[q] == known(
                        before.log@,
                        (before.confirmed + k) as nat,
                        q as nat,
                    ));
                    if k != i {
                        assert(self.window@[k] == before.window@[k]);
                    }
                }
            }
            assert(self.carried_ok()) by {
                assert forall|q: int| 0 <= q < self.seats implies #[trigger] self.carried@[q] == (
                if self.confirmed == 0 {
                    0u8
                } else {
                    effective(self.log@, (self.confirmed - 1) as nat, q as nat)
                }) by {
                    if self.confirmed > 0 {
                        lemma_insert_leaves_earlier(
                            before.log@,
                            g as nat,
                            seat as nat,
                            byte,
                            (self.confirmed - 1) as nat,
                            q as nat,
                        );
                    }
                }
            }
            lemma_confirmed_upto_grows(
                before.log@,
                self.log@,
                self.seats as nat,
                (self.current + self.frame_delay) as nat,
                (self.current + self.frame_delay) as nat,
            );
        }
        let r = if g < self.current && predicted != byte {
            proof {
                // The worlds up to the frame of the input stand as they were.
                assert(self.snapshots_ok(i + 1)) by {
                    assert forall|k: int| 0 <= k < i + 1 implies (#[trigger] self.snapshots@[k])@
                        == simulated(
                        self.start@,
                        self.log@,
                        self.seats as nat,
                        (self.confirmed + k) as nat,
                    ) by {
                        assert(before.snapshots@[k]@ == simulated(
                            before.start@,
                            before.log@,
                            before.seats as nat,
                            (before.confirmed + k) as nat,
                        ));
                        assert forall|h: nat, q: nat|
                            h < (self.confirmed + k) as nat && q < self.seats implies effective(
                            self.log@,
                            h,
                            q,
                        ) == effective(before.log@, h, q) by {
                            lemma_insert_leaves_earlier(
                                before.log@,
                                g as nat,
                                seat as nat,
                                byte,
                                h,
                                q,
                            );
                        }
                        lemma_simulated_agrees(
                            self.start@,
                            self.log@,
                            before.log@,
                            self.seats as nat,
                            (self.confirmed + k) as nat,
                        );
                    }
                }
            }
            self.resimulate(i);
            Arrival::RolledBack
        } else {
            proof {
                // Nothing that the simulation has used so far has changed.
                assert forall|h: nat, q: nat|
                    h < self.current && q < self.seats implies effective(self.log@, h, q)
                    == effective(before.log@, h, q) by {
                    if g < self.current {
                        lemma_insert_as_predicted(
                            before.log@,
                            g as nat,
                            seat as nat,
                            byte,
                            h,
                            q,
                        );
                    } else {
                        lemma_insert_leaves_earlier(
                            before.log@,
                            g as nat,
                            seat as nat,
                            byte,
                            h,
                            q,
                        );
                    }
                }
                assert(self.worlds_ok()) by {
                    assert forall|h: nat| h <= self.current implies #[trigger] simulated(
                        self.start@,
                        self.log@,
                        self.seats as nat,
                        h,
                    ) == simulated(self.start@, before.log@, self.seats as nat, h) by {
                        lemma_simulated_agrees(
                            self.start@,
                            self.log@,
                            before.log@,
                            self.seats as nat,
                            h,
                        );
                    }
                    assert forall|k: int| 0 <= k < self.snapshots@.len() implies (
                    #[trigger] self.snapshots@[k])@ == simulated(
                        self.start@,
                        self.log@,
                        self.seats as nat,
                        (self.confirmed + k) as nat,
                    ) by {
                        assert(before.snapshots@[k]@ == simulated(
                            before.start@,
                            before.log@,
                            before.seats as nat,
                            (before.confirmed + k) as nat,
                        ));
                    }
                }
            }
            Arrival::Recorded
        };
        self.settle_confirmed();
        proof {
            self.lemma_confirmed();
        }
        r
    }

    /// One tick. A running session that is not stalled records the local
    /// input for the frame that lies the input delay ahead, simulates the
    /// current frame with what it knows and predicts, and goes on to the
    /// next frame.
    pub fn advance(&mut self, local_input: InputSet) -> (r: Advance)
        requires
            old(self).wf(),
        ensures
            final(self).wf(),
            old(self)@.phase != SessionState::Running ==> r == Advance::NotRunning,
            old(self)@.phase == SessionState::Running && old(self)@.stalled() ==> r
                == Advance::Stalled,
            old(self)@.phase == SessionState::Running && !old(self)@.stalled() ==> r == (
            Advance::Advanced {
                frame: (old(self)@.current + old(self)@.frame_delay) as u32,
                input: local_input.byte(),
            }),
            r is Advanced ==> final(self)@ == old(self)@.advanced(local_input.byte()),
            !(r is Advanced) ==> final(self)@ == old(self)@,
            final(self)@.confirmed_frames() >= old(self)@.confirmed_frames(),
    {
        proof {
            self.lemma_confirmed();
        }
        if self.phase != SessionState::Running {
            return Advance::NotRunning;
        }
        let in_full = self.known_frames();
        if (self.current >= in_full && self.current - in_full + 1 > self.max_prediction)
            || self.current + self.frame_delay >= FRAME_LIMIT {
            return Advance::Stalled;
        }
        let byte = local_input.as_u8();
        let target: u64 = self.current + self.frame_delay;
        let i: usize = (target - self.confirmed) as usize;
        let ghost before = *self;
        let ghost log_after = self.log@.insert((target as nat, self.local as nat), byte);
        assert(self.window@[i as int]@.len() == self.seats);
        let mut row = filled_row(0, None);
        core::mem::swap(&mut row, &mut self.window[i]);
        row[self.local] = Some(byte);
        core::mem::swap(&mut row, &mut self.window[i]);
        self.log = Ghost(log_after);
        proof {
            assert(self.window@[i as int]@ == before.window@[i as int]@.update(
                self.local as int,
                Some(byte),
            ));
            assert(self.params_ok());
            assert(log_well_formed(self.log@, self.seats as nat));
            assert(confirmed_below(self.log@, self.seats as nat, self.confirmed as nat)) by {
                assert(confirmed_below(before.log@, before.seats as nat, before.confirmed as nat));
            }
            assert(self.rows_ok()) by {
                assert forall|k: int| 0 <= k < self.window@.len() implies (
                #[trigger] self.window@[k])@.len() == self.seats by {
                    if k != i {
                        assert(self.window@[k] == before.window@[k]);
                    }
                }
                assert forall|k: int, q: int|
                    0 <= k < self.window@.len() && 0 <= q < self.seats implies
                    #[trigger] self.window@[k]@[q] == known(
                    self.log@,
                    (self.confirmed + k) as nat,
                    q as nat,
                ) by {
                    assert(before.window@[k]@[q] == known(
                        before.log@,
                        (before.confirmed + k) as nat,
                        q as nat,
                    ));
                    if k != i {
                        assert(self.window@[k] == before.window@[k]);
                    }
                }
            }
            assert(self.carried_ok()) by {
                assert forall|q: int| 0 <= q < self.seats implies #[trigger] self.carried@[q] == (
                if self.confirmed == 0 {
                    0u8
                } else {
                    effective(self.log@, (self.confirmed - 1) as nat, q as nat)
                }) by {
                    if self.confirmed > 0 {
                        lemma_insert_leaves_earlier(
                            before.log@,
                            target as nat,
                            self.local as nat,
                            byte,
                            (self.confirmed - 1) as nat,
                            q as nat,
                        );
                    }
                }
            }
            // The local input lies at or after the current frame: the worlds
            // that are kept stand as they were.
            assert forall|h: nat, q: nat|
                h < self.current && q < self.seats implies effective(self.log@, h, q) == effective(
                before.log@,
                h,
                q,
            ) by {
                lemma_insert_leaves_earlier(
                    before.log@,
                    target as nat,
                    self.local as nat,
                    byte,
                    h,
                    q,
                );
            }
            assert forall|h: nat| h <= self.current implies #[trigger] simulated(
                self.start@,
                self.log@,
                self.seats as nat,
                h,
            ) == simulated(self.start@, before.log@, self.seats as nat, h) by {
                lemma_simulated_agrees(self.start@, self.log@, before.log@, self.seats as nat, h);
            }
            assert(self.snapshots_ok(self.snapshots@.len() as int)) by {
                assert forall|k: int| 0 <= k < self.snapshots@.len() implies (
                #[trigger] self.snapshots@[k])@ == simulated(
                    self.start@,
                    self.log@,
                    self.seats as nat,
                    (self.confirmed + k) as nat,
                ) by {
                    assert(before.snapshots@[k]@ == simulated(
                        before.start@,
                        before.log@,
                        before.seats as nat,
                        (before.confirmed + k) as nat,
                    ));
                }
            }
            lemma_simulated_settled(
                self.start@,
                self.log@,
                self.seats as nat,
                self.current as nat,
            );
        }
        let inputs = self.frame_inputs((self.current - self.confirmed) as usize);
        proof {
            lemma_world_step_keeps_settled(self.state@, inputs@);
        }
        self.snapshots.push(self.state.snapshot());
        self.state.step(&inputs);
        self.current = self.current + 1;
        proof {
            assert(self@ == before@.advanced(byte));
            assert(self.log_ok()) by {
                assert forall|h: nat| (#[trigger] self.log@.contains_key((h, self.local as nat)))
                    <==> h < self.current + self.frame_delay by {
                    assert(before.log@.contains_key((h, before.local as nat)) <==> h
                        < before.current + before.frame_delay);
                }
                assert forall|h: nat, q: nat| #[trigger]
                    self.log@.contains_key((h, q)) implies h < self.confirmed
                    + self.window@.len() by {
                    if h == target && q == self.local {
                    } else {
                        assert(before.log@.contains_key((h, q)));
                    }
                }
            }
            assert(self.worlds_ok()) by {
                assert forall|k: int| 0 <= k < self.snapshots@.len() implies (
                #[trigger] self.snapshots@[k])@ == simulated(
                    self.start@,
                    self.log@,
                    self.seats as nat,
                    (self.confirmed + k) as nat,
                ) by {
                    if k < before.snapshots@.len() {
                        assert(self.snapshots@[k] == before.snapshots@[k]);
                        assert(before.snapshots_ok(before.snapshots@.len() as int));
                    }
                }
            }
            lemma_confirmed_upto_grows(
                before.log@,
                self.log@,
                self.seats as nat,
                (before.current + before.frame_delay) as nat,
                (self.current + self.frame_delay) as nat,
            );
        }
        self.settle_confirmed();
        proof {
            self.lemma_confirmed();
            // Where the current frame is not confirmed, the confirmed
            // frames have not become fewer and the tick was not stalled.
            assert(self.current <= self.confirmed + self.max_prediction);
        }
        Advance::Advanced { frame: target as u32, input: byte }
    }
}

impl Session {
    /// The tick of one frame. The inputs that the transport has delivered
    /// are taken in, in order; a wrong prediction is rolled back and the
    /// frames since are replayed. Then, unless the session is stalled or
    /// not running, the current frame is simulated with what is known and
    /// predicted, and the local input is recorded for the frame that lies
    /// the input delay ahead, to be sent to every remote seat.
    pub fn tick(&mut self, messages: &Vec<RemoteInput>, local_input: InputSet) -> (r: (
        Vec<Arrival>,
        Advance,
    ))
        requires
            old(self).wf(),
        ensures
            final(self).wf(),
            final(self)@ == old(self)@.ticked(messages@, local_input.byte()),
            r.0@.len() == messages@.len(),
            forall|i: int|
                0 <= i < messages@.len() ==> #[trigger] r.0@[i] == old(self)@.received_all(
                    messages@.subrange(0, i),
                ).arrival(
                    messages@[i].seat as nat,
                    messages@[i].frame as nat,
                    messages@[i].input,
                ),
            old(self)@.received_all(messages@).phase != SessionState::Running ==> r.1
                == Advance::NotRunning,
            old(self)@.received_all(messages@).phase == SessionState::Running && old(
                self,
            )@.received_all(messages@).stalled() ==> r.1 == Advance::Stalled,
            old(self)@.received_all(messages@).phase == SessionState::Running && !old(
                self,
            )@.received_all(messages@).stalled() ==> r.1 == (Advance::Advanced {
                frame: (old(self)@.received_all(messages@).current + old(self)@.frame_delay) as u32,
                input: local_input.byte(),
            }),
            final(self)@.confirmed_frames() >= old(self)@.confirmed_frames(),
    {
        let mut arrivals: Vec<Arrival> = Vec::new();
        let mut n: usize = 0;
        while n < messages.len()
            invariant
                n <= messages@.len(),
                self.wf(),
                self@ == old(self)@.received_all(messages@.subrange(0, n as int)),
                self@.confirmed_frames() >= old(self)@.confirmed_frames(),
                self@.frame_delay == old(self)@.frame_delay,
                arrivals@.len() == n,
                forall|i: int|
                    0 <= i < n ==> #[trigger] arrivals@[i] == old(self)@.received_all(
                        messages@.subrange(0, i),
                    ).arrival(
                        messages@[i].seat as nat,
                        messages@[i].frame as nat,
                        messages@[i].input,
                    ),
            decreases messages@.len() - n,
        {
            let message = messages[n];
            proof {
                assert(messages@.subrange(0, n + 1).drop_last() =~= messages@.subrange(0, n as int));
                assert(messages@.subrange(0, n + 1).last() == message);
            }
            let arrival = self.add_remote_input(message.seat, message.frame, message.input);
            arrivals.push(arrival);
            n = n + 1;
        }
        proof {
            assert(messages@.subrange(0, n as int) =~= messages@);
        }
        let advance = self.advance(local_input);
        (arrivals, advance)
    }
}

/// The inputs `bytes`, frame by frame and seat by seat, as sets.
pub open spec fn decoded_inputs(bytes: Seq<Seq<u8>>) -> Seq<Seq<InputSet>> {
    Seq::new(
        bytes.len(),
        |g: int| Seq::new(bytes[g].len(), |p: int| InputSet::of_byte(bytes[g][p])),
    )
}

/// Rolling back loses nothing. Once the session knows the input of every seat for
/// every frame before the current one, the world it has is the world that
/// running the ticks with those inputs gives, whatever it had predicted and
/// in whatever order the inputs came.
pub proof fn lemma_rollback_equivalence(s: SessionView, inputs: Seq<Seq<u8>>)
    requires
        inputs.len() == s.current,
        forall|g: int| 0 <= g < inputs.len() ==> (#[trigger] inputs[g]).len() == s.seats,
        forall|g: nat, p: nat|
            g < s.current && p < s.seats ==> #[trigger] known(s.log, g, p) == Some(
                inputs[g as int][p as int],
            ),
    ensures
        s.state() == s.start.replayed(decoded_inputs(inputs)),
{
    lemma_simulated_is_replay(s.start, s.log, s.seats, s.current);
    let a = logged_inputs(s.log, s.seats, s.current);
    let b = decoded_inputs(inputs);
    assert forall|g: int| 0 <= g < a.len() implies a[g] == b[g] by {
        assert forall|p: int| 0 <= p < s.seats implies a[g][p] == b[g][p] by {
            assert(known(s.log, g as nat, p as nat) == Some(inputs[g][p]));
        }
        assert(a[g] =~= b[g]);
    }
    assert(a =~= b);
}

/// What the confirmed frames lead to is final: the world at the start of
/// the first frame that is not known in full is the same, whatever inputs
/// the session comes to know later.
pub proof fn lemma_confirmed_world_is_final(s: SessionView, later: InputLog)
    requires
        forall|g: nat, p: nat| #[trigger]
            s.log.contains_key((g, p)) ==> later.contains_key((g, p)) && later[(g, p)] == s.log[(
                g,
                p,
            )],
    ensures
        simulated(s.start, later, s.seats, s.confirmed_frames()) == simulated(
            s.start,
            s.log,
            s.seats,
            s.confirmed_frames(),
        ),
{
    lemma_confirmed_upto(s.log, s.seats, s.current + s.frame_delay);
    let l = s.confirmed_frames();
    assert forall|g: nat, p: nat| g < l && p < s.seats implies effective(later, g, p) == effective(
        s.log,
        g,
        p,
    ) by {
        assert(s.log.contains_key((g, p)));
    }
    lemma_simulated_agrees(s.start, later, s.log, s.seats, l);
}

/// Whether every frame before a frame that is known in full is known in
/// full too.
pub open spec fn no_gaps(log: InputLog, seats: nat) -> bool {
    forall|g: nat| #[trigger] frame_confirmed(log, seats, g) ==> confirmed_below(log, seats, g)
}

/// The last confirmed frame is what its name says. Every seat's input is
/// known for it and for every frame before it, and not for the frame after
/// it. Where the frames known in full have no gap between them, it is the
/// highest frame known in full.
pub proof fn lemma_last_confirmed_frame(s: SessionView, frame: nat)
    requires
        forall|g: nat| #[trigger] s.log.contains_key((g, s.local)) ==> g < s.current + s.frame_delay,
        s.local < s.seats,
    ensures
        confirmed_below(s.log, s.seats, s.confirmed_frames()),
        !frame_confirmed(s.log, s.seats, s.confirmed_frames()),
        s.last_confirmed_frame() == (if s.confirmed_frames() == 0 {
            None
        } else {
            Some((s.confirmed_frames() - 1) as nat)
        }),
        no_gaps(s.log, s.seats) && frame_confirmed(s.log, s.seats, frame) ==> frame
            < s.confirmed_frames(),
{
    let limit = s.current + s.frame_delay;
    lemma_confirmed_upto(s.log, s.seats, limit);
    let k = s.confirmed_frames();
    if k == limit {
        assert(!s.log.contains_key((k, s.local)));
    }
    if no_gaps(s.log, s.seats) && frame_confirmed(s.log, s.seats, frame) {
        if frame >= k {
            assert(confirmed_below(s.log, s.seats, frame));
            if frame > k {
                assert forall|p: nat| p < s.seats implies s.log.contains_key((k, p)) by {}
            }
            assert(false);
        }
    }
}

impl Session {
    /// The simulation stays within its prediction window. The current
    /// frame is never more than one frame further ahead of the last
    /// confirmed frame than the session may predict, and where it is that
    /// one frame further the session is stalled. No frame is confirmed
    /// that has no local input yet.
    pub proof fn lemma_prediction_window(&self)
        requires
            self.wf(),
        ensures
            self@.ahead() <= self@.max_prediction + 1,
            self@.ahead() <= self@.max_prediction || self@.stalled(),
            self@.confirmed_frames() <= self@.current + self@.frame_delay,
            self@.window_start() <= self@.current,
            self@.window_start() <= self@.confirmed_frames(),
            self@.current + self@.frame_delay <= FRAME_LIMIT,
            1 <= self@.seats <= SEAT_LIMIT,
            self@.local < self@.seats,
            forall|g: nat| #[trigger]
                self@.log.contains_key((g, self@.local)) <==> g < self@.current
                    + self@.frame_delay,
    {
        self.lemma_confirmed();
    }

    /// The world of a session is settled, and its frame counter has counted
    /// the session's frames.
    pub proof fn lemma_state_settled(&self)
        requires
            self.wf(),
        ensures
            self@.state().settled(self@.seats as int),
            self@.state().frame == self@.start.frame + self@.current,
            self@.state().players.len() == self@.start.players.len(),
    {
        lemma_simulated_settled(self@.start, self@.log, self@.seats, self@.current);
    }
}

} // verus!
