//! The game for two peers: the messages that carry inputs, the waiting for
//! players, and the tick that the session replays.

use vstd::prelude::*;
use crate::game::{
    move_players,
    physics,
    FrameCounter,
    GameStatus,
    Player,
    PlayerBody,
    WorldState,
};
use crate::input::{collect_inputs, decode, encode, InputSet, InputStream, INPUT_BITS_END};
use crate::session::{initial_log, Session, SessionState, SessionView, START_FRAME_LIMIT};

verus! {

/// The seats of a game.
pub const NUM_PLAYERS: u32 = 2;

/// The frames that the simulation may run ahead of the last confirmed frame.
pub const MAX_PREDICTION: u32 = 12;

/// The frames between reading a local input and applying it.
pub const FRAME_DELAY: u32 = 2;

/// The length of a message that carries one input.
pub const INPUT_MESSAGE_LEN: usize = 5;

/// Who sits in a seat, as seen from this peer.
#[derive(Clone, Copy, Debug, PartialEq, Eq, Structural, Hash)]
pub enum PlayerType {
    Local,
    Remote,
    Spectator,
}

/// The message that carries `input` for `frame`: the frame number as four
/// bytes, the lowest first, then the byte of the input.
pub open spec fn input_message(frame: u32, input: u8) -> Seq<u8> {
    seq![
        (frame % 256) as u8,
        (frame / 256 % 256) as u8,
        (frame / 65536 % 256) as u8,
        (frame / 16777216) as u8,
        input,
    ]
}

/// The frame and the input that a message carries, where it has the length
/// of one.
pub open spec fn parsed_message(bytes: Seq<u8>) -> Option<(u32, u8)> {
    if bytes.len() == INPUT_MESSAGE_LEN {
        Some(
            (
                (bytes[0] + bytes[1] * 256 + bytes[2] * 65536 + bytes[3] * 16777216) as u32,
                bytes[4],
            ),
        )
    } else {
        None
    }
}

proof fn lemma_frame_digits(frame: u32)
    ensures
        frame == (frame % 256) + (frame / 256 % 256) * 256 + (frame / 65536 % 256) * 65536 + (frame
            / 16777216) * 16777216,
        frame / 16777216 < 256,
{
    assert(frame == (frame % 256) + (frame / 256 % 256) * 256 + (frame / 65536 % 256) * 65536 + (
    frame / 16777216) * 16777216) by (bit_vector);
    assert(frame / 16777216 < 256) by (bit_vector);
}

proof fn lemma_digits_frame(a: u32, b: u32, c: u32, d: u32)
    requires
        a < 256,
        b < 256,
        c < 256,
        d < 256,
    ensures
        a + b * 256 + c * 65536 + d * 16777216 <= u32::MAX,
        (a + b * 256 + c * 65536 + d * 16777216) as u32 % 256 == a,
        (a + b * 256 + c * 65536 + d * 16777216) as u32 / 256 % 256 == b,
        (a + b * 256 + c * 65536 + d * 16777216) as u32 / 65536 % 256 == c,
        (a + b * 256 + c * 65536 + d * 16777216) as u32 / 16777216 == d,
{
    let f: u32 = (a + b * 256 + c * 65536 + d * 16777216) as u32;
    assert(a < 256 && b < 256 && c < 256 && d < 256 && f == a + b * 256 + c * 65536 + d * 16777216
        ==> f % 256 == a && f / 256 % 256 == b && f / 65536 % 256 == c && f / 16777216 == d)
        by (bit_vector);
}

/// A message parses to the frame and the input it was made of, and a
/// sequence of the right length is the message of what it parses to.
pub proof fn lemma_message_round_trip(frame: u32, input: u8, bytes: Seq<u8>)
    ensures
        input_message(frame, input).len() == INPUT_MESSAGE_LEN,
        parsed_message(input_message(frame, input)) == Some((frame, input)),
        parsed_message(bytes) matches Some(m) ==> input_message(m.0, m.1) == bytes,
{
    lemma_frame_digits(frame);
    if bytes.len() == INPUT_MESSAGE_LEN {
        let m = parsed_message(bytes)->0;
        lemma_digits_frame(bytes[0] as u32, bytes[1] as u32, bytes[2] as u32, bytes[3] as u32);
        assert(input_message(m.0, m.1) =~= bytes);
    }
}

/// Writes the message that carries `input` for `frame`.
pub fn encode_input_message(frame: u32, input: u8) -> (bytes: Vec<u8>)
    ensures
        bytes@ == input_message(frame, input),
{
    let mut bytes: Vec<u8> = Vec::new();
    bytes.push((frame % 256) as u8);
    bytes.push((frame / 256 % 256) as u8);
    bytes.push((frame / 65536 % 256) as u8);
    bytes.push((frame / 16777216) as u8);
    bytes.push(input);
    assert(bytes@ =~= input_message(frame, input));
    bytes
}

/// Reads a message: the frame and the input it carries, or `None` where it
/// has not the length of one.
pub fn decode_input_message(bytes: &Vec<u8>) -> (r: Option<(u32, u8)>)
    ensures
        r == parsed_message(bytes@),
{
    if bytes.len() != INPUT_MESSAGE_LEN {
        return None;
    }
    let frame: u32 = bytes[0] as u32 + bytes[1] as u32 * 256 + bytes[2] as u32 * 65536 + bytes[3] as u32
        * 16777216;
    Some((frame, bytes[4]))
}

/// The local input of a frame, as it is handed to the session and sent:
/// one byte that encodes everything that waits in the stream, which is
/// emptied.
pub fn input(input_stream: &mut InputStream) -> (bytes: Vec<u8>)
    ensures
        bytes@ == seq![encode(old(input_stream)@.to_set())],
        final(input_stream)@.len() == 0,
{
    let set = collect_inputs(input_stream);
    let mut bytes: Vec<u8> = Vec::new();
    bytes.push(set.as_u8());
    assert(bytes@ =~= seq![encode(old(input_stream)@.to_set())]);
    bytes
}

/// The tick that the session replays: every player takes the inputs that
/// the byte of its seat encodes, and the physics moves the bodies.
pub fn move_sprites(inputs: &Vec<u8>, frame_counter: &FrameCounter, bodies: &mut Vec<PlayerBody>)
    requires
        forall|i: int|
            0 <= i < old(bodies)@.len() ==> (#[trigger] old(bodies)@[i]).steppable() && old(
                bodies,
            )@[i].player.handle < inputs@.len() && inputs@[old(bodies)@[i].player.handle as int]
                < INPUT_BITS_END,
    ensures
        final(bodies)@.len() == old(bodies)@.len(),
        forall|i: int|
            0 <= i < old(bodies)@.len() ==> #[trigger] final(bodies)@[i] == old(bodies)@[i].stepped(
                frame_counter.0,
                decode(inputs@[old(bodies)@[i].player.handle as int]),
            ),
{
    let mut sets: Vec<InputSet> = Vec::new();
    let mut p: usize = 0;
    while p < inputs.len()
        invariant
            p <= inputs@.len(),
            sets@.len() == p,
            forall|q: int|
                0 <= q < p && inputs@[q] < INPUT_BITS_END ==> (#[trigger] sets@[q])@ == decode(
                    inputs@[q],
                ),
        decreases inputs@.len() - p,
    {
        // The byte of a seat that no player sits in is never read.
        let set = match InputSet::try_from_u8(inputs[p]) {
            Some(set) => {
                proof {
                    InputSet::lemma_of_byte(inputs@[p as int]);
                }
                set
            },
            None => InputSet::new(),
        };
        sets.push(set);
        p = p + 1;
    }
    proof {
        assert forall|i: int| 0 <= i < bodies@.len() implies (#[trigger] bodies@[i]).steppable()
            && bodies@[i].player.handle < sets@.len() by {}
    }
    move_players(frame_counter, &sets, bodies);
    physics(frame_counter, bodies);
    proof {
        assert forall|i: int| 0 <= i < old(bodies)@.len() implies #[trigger] bodies@[i] == old(
            bodies,
        )@[i].stepped(frame_counter.0, decode(inputs@[old(bodies)@[i].player.handle as int])) by {
            let h = old(bodies)@[i].player.handle as int;
            assert(sets@[h]@ == decode(inputs@[h]));
        }
    }
}

/// The players of a game for two, one for each seat.
pub fn spawn_players() -> (bodies: Vec<PlayerBody>)
    ensures
        bodies@ == seq![Player::spawned(0), Player::spawned(1)],
        forall|i: int| 0 <= i < NUM_PLAYERS ==> (#[trigger] bodies@[i]).settled(),
{
    let mut bodies: Vec<PlayerBody> = Vec::new();
    let mut handle: u32 = 0;
    while handle < NUM_PLAYERS
        invariant
            handle <= NUM_PLAYERS,
            bodies@.len() == handle,
            forall|i: int| 0 <= i < handle ==> #[trigger] bodies@[i] == Player::spawned(i as u32),
        decreases NUM_PLAYERS - handle,
    {
        bodies.push(Player::spawn(handle));
        handle = handle + 1;
    }
    assert(bodies@ =~= seq![Player::spawned(0), Player::spawned(1)]);
    bodies
}

/// The seat of the first local player in `players`, if there is one.
pub open spec fn local_seat(players: Seq<PlayerType>) -> Option<nat>
    decreases players.len(),
{
    if players.len() == 0 {
        None
    } else if local_seat(players.drop_last()) is Some {
        local_seat(players.drop_last())
    } else if players.last() == PlayerType::Local {
        Some((players.len() - 1) as nat)
    } else {
        None
    }
}

fn find_local_seat(players: &Vec<PlayerType>) -> (r: Option<usize>)
    ensures
        match r {
            Some(seat) => local_seat(players@) == Some(seat as nat),
            None => local_seat(players@) is None,
        },
{
    let mut n: usize = 0;
    while n < players.len()
        invariant
            n <= players@.len(),
            local_seat(players@.subrange(0, n as int)) is None,
        decreases players@.len() - n,
    {
        if players[n] == PlayerType::Local {
            proof {
                lemma_local_seat_found(players@, n as int);
            }
            return Some(n);
        }
        proof {
            assert(players@.subrange(0, n + 1).drop_last() =~= players@.subrange(0, n as int));
        }
        n = n + 1;
    }
    proof {
        assert(players@.subrange(0, n as int) =~= players@);
    }
    None
}

proof fn lemma_local_seat_found(players: Seq<PlayerType>, n: int)
    requires
        0 <= n < players.len(),
        players[n] == PlayerType::Local,
        local_seat(players.subrange(0, n)) is None,
    ensures
        local_seat(players) == Some(n as nat),
    decreases players.len(),
{
    if players.len() - 1 == n {
        assert(players.drop_last() =~= players.subrange(0, n));
    } else {
        assert(players.drop_last().subrange(0, n) =~= players.subrange(0, n));
        lemma_local_seat_found(players.drop_last(), n);
    }
}

/// What a look at the lobby found.
#[derive(Clone, Copy, Debug, PartialEq, Eq, Structural, Hash)]
pub enum Lobby {
    /// The game has started before: there is nothing to wait for.
    AlreadyStarted,
    /// Fewer players than seats have joined.
    Waiting,
    /// All seats are taken: the session runs, and the connection is its own.
    Started,
    /// All seats are taken, but the session was not waiting for players,
    /// is not one of a game for two, or has no seat for the local player.
    Unseated,
}

/// Whether the session has the parameters of a game for two: two seats, a
/// prediction window of twelve frames and an input delay of two.
pub open spec fn is_p2p(session: SessionView) -> bool {
    &&& session.seats == NUM_PLAYERS
    &&& session.max_prediction == MAX_PREDICTION
    &&& session.frame_delay == FRAME_DELAY
}

/// The session of a game for two, for the world `world`: two seats, one
/// byte of input for each, a prediction window of twelve frames and an
/// input delay of two. It waits to be started. `None` where the world is
/// not settled for two seats or its frame counter is beyond
/// `START_FRAME_LIMIT`.
pub fn p2p_session(world: WorldState) -> (r: Option<Session>)
    ensures
        r is Some <==> world@.settled(NUM_PLAYERS as int) && world@.frame <= START_FRAME_LIMIT,
        r matches Some(s) ==> s.wf() && is_p2p(s@) && s@ == (SessionView {
            phase: SessionState::Idle,
            seats: NUM_PLAYERS as nat,
            local: 0,
            max_prediction: MAX_PREDICTION as nat,
            frame_delay: FRAME_DELAY as nat,
            start: world@,
            log: initial_log(NUM_PLAYERS as nat, FRAME_DELAY as nat),
            current: 0,
        }),
{
    Session::new(world, NUM_PLAYERS as usize, MAX_PREDICTION, FRAME_DELAY)
}

/// What a look at the lobby finds: `players` is the list of those who have
/// joined, in the order of their seats, or `None` once the connection was
/// handed to the session.
pub open spec fn lobby(session: SessionView, players: Option<Seq<PlayerType>>) -> Lobby {
    match players {
        None => Lobby::AlreadyStarted,
        Some(joined) => {
            if joined.len() < NUM_PLAYERS {
                Lobby::Waiting
            } else if session.phase == SessionState::Syncing && is_p2p(session) && local_seat(
                joined,
            ) is Some && local_seat(joined)->0 < session.seats {
                Lobby::Started
            } else {
                Lobby::Unseated
            }
        },
    }
}

/// The status line that goes with what the lobby found, where it changes.
pub open spec fn lobby_message(found: Lobby) -> Option<Seq<char>> {
    match found {
        Lobby::AlreadyStarted => Some("game started"@),
        Lobby::Waiting => Some("waiting for players"@),
        _ => None,
    }
}

/// The connection is being made: the status says so, and a session that
/// was idle starts to sync.
pub fn start_matchbox_socket(game_status: &mut GameStatus, session: &mut Session)
    requires
        old(session).wf(),
    ensures
        final(session).wf(),
        final(game_status).0@ == "connecting"@,
        final(session)@ == (SessionView {
            phase: if old(session)@.phase == SessionState::Idle {
                SessionState::Syncing
            } else {
                old(session)@.phase
            },
            ..old(session)@
        }),
{
    game_status.set_message("connecting".to_owned());
    session.begin_sync();
}

/// Looks at the lobby. While players are missing the status says so. Once
/// all seats are taken, the session starts to run with the seat of the
/// first local player as its own.
pub fn wait_for_players(
    game_status: &mut GameStatus,
    session: &mut Session,
    players: Option<&Vec<PlayerType>>,
) -> (found: Lobby)
    requires
        old(session).wf(),
    ensures
        final(session).wf(),
        found == lobby(
            old(session)@,
            match players {
                Some(joined) => Some(joined@),
                None => None,
            },
        ),
        match lobby_message(found) {
            Some(text) => final(game_status).0@ == text,
            None => final(game_status).0 == old(game_status).0,
        },
        found == Lobby::Started ==> final(session)@ == (SessionView {
            phase: SessionState::Running,
            local: local_seat(players->0@)->0,
            ..old(session)@
        }),
        found != Lobby::Started ==> final(session)@ == old(session)@,
        found == Lobby::Started ==> is_p2p(final(session)@),
{
    // If there is no socket we've already started the game
    let joined = match players {
        None => {
            game_status.set_message("game started".to_owned());
            return Lobby::AlreadyStarted;
        },
        Some(joined) => joined,
    };
    if joined.len() < NUM_PLAYERS as usize {
        game_status.set_message("waiting for players".to_owned());
        return Lobby::Waiting;  // wait for more players
    }
    if session.seats() != NUM_PLAYERS as usize || session.max_prediction() != MAX_PREDICTION as u64
        || session.frame_delay() != FRAME_DELAY as u64 {
        return Lobby::Unseated;
    }
    match find_local_seat(joined) {
        Some(seat) => {
            if session.start(seat) {
                Lobby::Started
            } else {
                Lobby::Unseated
            }
        },
        None => Lobby::Unseated,
    }
}

/// Whether the names `a` and `b` are alike before place `k` and `a` is the
/// lesser one at it: `a` has the smaller byte there, or ends there while
/// `b` goes on.
pub open spec fn less_at(a: Seq<u8>, b: Seq<u8>, k: int) -> bool {
    &&& 0 <= k <= a.len()
    &&& k <= b.len()
    &&& a.subrange(0, k) == b.subrange(0, k)
    &&& if k == a.len() {
        k < b.len()
    } else {
        k < b.len() && a[k] < b[k]
    }
}

/// Whether the peer name `a` comes before the peer name `b`, byte by
/// byte: at the first place where they differ `a` is the lesser one.
pub open spec fn comes_before(a: Seq<u8>, b: Seq<u8>) -> bool {
    exists|k: int| less_at(a, b, k)
}

/// How many of the first `n` names of `names` come before `name`.
pub open spec fn names_before(names: Seq<Vec<u8>>, name: Seq<u8>, n: nat) -> nat
    decreases n,
{
    if n == 0 {
        0
    } else {
        names_before(names, name, (n - 1) as nat) + (if comes_before(names[n - 1]@, name) {
            1nat
        } else {
            0nat
        })
    }
}

/// The seat of the peer called `name` among the peers called `names`: as
/// many seats come before it as names come before its name.
pub open spec fn seat_of_name(names: Seq<Vec<u8>>, name: Seq<u8>) -> nat {
    names_before(names, name, names.len())
}

/// The players of a lobby in the order of their seats, seen from the peer
/// called `own` with the other peers called `peers`: the local player at
/// the seat of its name, remote players at the other seats.
pub open spec fn seated(own: Seq<u8>, peers: Seq<Vec<u8>>) -> Seq<PlayerType> {
    Seq::new(
        peers.len() + 1,
        |i: int|
            if i == seat_of_name(peers, own) {
                PlayerType::Local
            } else {
                PlayerType::Remote
            },
    )
}

/// Whether the name `a` comes before the name `b`.
pub fn name_comes_before(a: &Vec<u8>, b: &Vec<u8>) -> (r: bool)
    ensures
        r == comes_before(a@, b@),
{
    let mut i: usize = 0;
    while i < a.len() && i < b.len()
        invariant
            i <= a@.len(),
            i <= b@.len(),
            forall|j: int| 0 <= j < i ==> a@[j] == b@[j],
        decreases a@.len() - i,
    {
        if a[i] != b[i] {
            proof {
                lemma_first_difference(a@, b@, i as int);
            }
            return a[i] < b[i];
        }
        i = i + 1;
    }
    proof {
        lemma_first_difference(a@, b@, i as int);
    }
    i < b.len()
}

proof fn lemma_first_difference(a: Seq<u8>, b: Seq<u8>, i: int)
    requires
        0 <= i <= a.len(),
        i <= b.len(),
        forall|j: int| 0 <= j < i ==> a[j] == b[j],
        i == a.len() || i == b.len() || a[i] != b[i],
    ensures
        comes_before(a, b) == less_at(a, b, i),
        less_at(a, b, i) == (if i == a.len() {
            i < b.len()
        } else {
            i < b.len() && a[i] < b[i]
        }),
{
    assert(a.subrange(0, i) =~= b.subrange(0, i));
    if comes_before(a, b) {
        let k = choose|k: int| less_at(a, b, k);
        if k < i {
            assert(a[k] == b[k]);
        } else if k > i {
            assert(a.subrange(0, k)[i] == b.subrange(0, k)[i]);
        }
    }
}

/// The seat of the peer called `name` among the peers called `names`.
pub fn seat_of(names: &Vec<Vec<u8>>, name: &Vec<u8>) -> (seat: usize)
    ensures
        seat == seat_of_name(names@, name@),
        seat <= names@.len(),
{
    let mut seat: usize = 0;
    let mut n: usize = 0;
    while n < names.len()
        invariant
            n <= names@.len(),
            seat == names_before(names@, name@, n as nat),
            seat <= n,
        decreases names@.len() - n,
    {
        if name_comes_before(&names[n], name) {
            seat = seat + 1;
        }
        n = n + 1;
    }
    seat
}

/// The players of a lobby in the order of their seats, seen from the peer
/// called `own` with the other peers called `peers`.
pub fn players(own: &Vec<u8>, peers: &Vec<Vec<u8>>) -> (list: Vec<PlayerType>)
    ensures
        list@ == seated(own@, peers@),
{
    let local = seat_of(peers, own);
    let mut list: Vec<PlayerType> = Vec::new();
    let mut i: usize = 0;
    while i < peers.len()
        invariant
            i <= peers@.len(),
            local == seat_of_name(peers@, own@),
            list@.len() == i,
            forall|j: int| 0 <= j < i ==> list@[j] == seated(own@, peers@)[j],
        decreases peers@.len() - i,
    {
        if i == local {
            list.push(PlayerType::Local);
        } else {
            list.push(PlayerType::Remote);
        }
        i = i + 1;
    }
    if i == local {
        list.push(PlayerType::Local);
    } else {
        list.push(PlayerType::Remote);
    }
    assert(list@ =~= seated(own@, peers@));
    list
}

} // verus!
