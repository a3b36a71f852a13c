//! Player input: the five semantic inputs, the set of them seen in a frame,
//! its one-byte encoding, and the mapping from keys and pad controls.

use vstd::prelude::*;
use std::collections::VecDeque;

verus! {

broadcast use vstd::std_specs::vecdeque::group_vec_dequeue_axioms;

#[derive(Clone, Copy, Debug, PartialEq, Eq, Structural, Hash)]
pub enum Input {
    Up,
    Down,
    Left,
    Right,
    Primary,
}

impl Input {
    /// The bit that stands for this input in an encoded set.
    pub open spec fn bit(self) -> u8 {
        match self {
            Input::Up => 1,
            Input::Down => 2,
            Input::Left => 4,
            Input::Right => 8,
            Input::Primary => 16,
        }
    }

    pub fn mask(self) -> (m: u8)
        ensures
            m == self.bit(),
    {
        match self {
            Input::Up => 1,
            Input::Down => 2,
            Input::Left => 4,
            Input::Right => 8,
            Input::Primary => 16,
        }
    }
}

/// The byte that encodes a set of inputs: the sum of the bits of its members.
pub open spec fn encode(s: Set<Input>) -> u8 {
    ((if s.contains(Input::Up) {
        1int
    } else {
        0int
    }) + (if s.contains(Input::Down) {
        2int
    } else {
        0int
    }) + (if s.contains(Input::Left) {
        4int
    } else {
        0int
    }) + (if s.contains(Input::Right) {
        8int
    } else {
        0int
    }) + (if s.contains(Input::Primary) {
        16int
    } else {
        0int
    })) as u8
}

/// The set that a byte encodes: the inputs whose bit is set in it.
pub open spec fn decode(bits: u8) -> Set<Input> {
    Set::new(|i: Input| bits & i.bit() != 0)
}

/// Bytes below this bound have no bit set that stands for no input.
pub const INPUT_BITS_END: u8 = 32;

proof fn lemma_single_bits(b: u8)
    ensures
        b < 32 ==> b == (b & 1) + (b & 2) + (b & 4) + (b & 8) + (b & 16),
        b & 1 == 0 || b & 1 == 1,
        b & 2 == 0 || b & 2 == 2,
        b & 4 == 0 || b & 4 == 4,
        b & 8 == 0 || b & 8 == 8,
        b & 16 == 0 || b & 16 == 16,
{
    assert(b < 32 ==> b == (b & 1) + (b & 2) + (b & 4) + (b & 8) + (b & 16)) by (bit_vector);
    assert(b & 1 == 0 || b & 1 == 1) by (bit_vector);
    assert(b & 2 == 0 || b & 2 == 2) by (bit_vector);
    assert(b & 4 == 0 || b & 4 == 4) by (bit_vector);
    assert(b & 8 == 0 || b & 8 == 8) by (bit_vector);
    assert(b & 16 == 0 || b & 16 == 16) by (bit_vector);
}

proof fn lemma_bits_of_sum(u: bool, d: bool, l: bool, r: bool, p: bool) -> (b: u8)
    ensures
        b == (if u { 1int } else { 0int }) + (if d { 2int } else { 0int }) + (if l { 4int } else { 0int }) + (if r { 8int } else { 0int }) + (if p { 16int } else { 0int }),
        b < 32,
        (b & 1 != 0) == u,
        (b & 2 != 0) == d,
        (b & 4 != 0) == l,
        (b & 8 != 0) == r,
        (b & 16 != 0) == p,
{
    let bu: u8 = if u { 1 } else { 0 };
    let bd: u8 = if d { 2 } else { 0 };
    let bl: u8 = if l { 4 } else { 0 };
    let br: u8 = if r { 8 } else { 0 };
    let bp: u8 = if p { 16 } else { 0 };
    let b: u8 = (bu + bd + bl + br + bp) as u8;
    assert((bu == 0 || bu == 1) && (bd == 0 || bd == 2) && (bl == 0 || bl == 4) && (br == 0 || br
        == 8) && (bp == 0 || bp == 16) && b == bu + bd + bl + br + bp ==> ((b & 1 != 0) == (bu
        != 0)) && ((b & 2 != 0) == (bd != 0)) && ((b & 4 != 0) == (bl != 0)) && ((b & 8 != 0) == (br
        != 0)) && ((b & 16 != 0) == (bp != 0))) by (bit_vector);
    b
}

/// Decoding the byte of a set gives the set back.
pub proof fn lemma_decode_encode(s: Set<Input>)
    ensures
        decode(encode(s)) == s,
        encode(s) < INPUT_BITS_END,
{
    let b = lemma_bits_of_sum(
        s.contains(Input::Up),
        s.contains(Input::Down),
        s.contains(Input::Left),
        s.contains(Input::Right),
        s.contains(Input::Primary),
    );
    assert(b == encode(s));
    assert forall|i: Input| decode(b).contains(i) == s.contains(i) by {
        match i {
            Input::Up => {},
            Input::Down => {},
            Input::Left => {},
            Input::Right => {},
            Input::Primary => {},
        }
    }
    assert(decode(b) =~= s);
}

/// Encoding the set of a byte with no stray bit gives the byte back.
pub proof fn lemma_encode_decode(bits: u8)
    requires
        bits < INPUT_BITS_END,
    ensures
        encode(decode(bits)) == bits,
{
    lemma_single_bits(bits);
    let s = decode(bits);
    assert(s.contains(Input::Up) == (bits & Input::Up.bit() != 0));
    assert(s.contains(Input::Down) == (bits & Input::Down.bit() != 0));
    assert(s.contains(Input::Left) == (bits & Input::Left.bit() != 0));
    assert(s.contains(Input::Right) == (bits & Input::Right.bit() != 0));
    assert(s.contains(Input::Primary) == (bits & Input::Primary.bit() != 0));
}

/// The inputs seen during one frame.
#[derive(Clone, Copy, Debug, PartialEq, Eq, Hash)]
pub struct InputSet {
    bits: u8,
}

impl View for InputSet {
    type V = Set<Input>;

    closed spec fn view(&self) -> Set<Input> {
        decode(self.bits)
    }
}

impl InputSet {
    #[verifier::type_invariant]
    closed spec fn no_stray_bit(self) -> bool {
        self.bits < INPUT_BITS_END
    }

    /// The set that the byte `bits` encodes.
    pub closed spec fn of_byte(bits: u8) -> InputSet {
        InputSet { bits }
    }

    /// The byte that encodes this set.
    pub closed spec fn byte(self) -> u8 {
        self.bits
    }

    /// The byte of a set gives the set back: the set of the byte is the set
    /// itself, its members are those that the byte decodes to, and the
    /// byte is the one that encodes its members.
    pub proof fn lemma_round_trip(self)
        requires
            self.byte() < INPUT_BITS_END,
        ensures
            Self::of_byte(self.byte()) == self,
            self@ == decode(self.byte()),
            self.byte() == encode(self@),
            decode(encode(self@)) == self@,
    {
        lemma_decode_encode(self@);
        lemma_encode_decode(self.bits);
    }

    /// The set of a byte has the byte's members, and keeps the byte.
    pub proof fn lemma_of_byte(bits: u8)
        ensures
            Self::of_byte(bits)@ == decode(bits),
            Self::of_byte(bits).byte() == bits,
    {
    }

    /// The empty set.
    pub fn new() -> (s: Self)
        ensures
            s@ == Set::<Input>::empty(),
            s.byte() == 0,
    {
        assert(forall|m: u8| 0u8 & m == 0) by (bit_vector);
        assert(decode(0) =~= Set::<Input>::empty());
        InputSet { bits: 0 }
    }

    /// Adds `input` to the set.
    pub fn insert(&mut self, input: Input)
        ensures
            final(self)@ == old(self)@.insert(input),
    {
        proof {
            use_type_invariant(&*self);
        }
        let ghost before = self.bits;
        let m = input.mask();
        let after = self.bits | m;
        proof {
            assert(forall|b: u8, m: u8, n: u8|
                (m == 1 || m == 2 || m == 4 || m == 8 || m == 16) && (n == 1 || n == 2 || n == 4
                    || n == 8 || n == 16) ==> (((b | m) & n != 0) == ((b & n != 0) || m == n)))
                by (bit_vector);
            assert(forall|b: u8, m: u8|
                b < 32 && (m == 1 || m == 2 || m == 4 || m == 8 || m == 16) ==> (b | m) < 32)
                by (bit_vector);
            assert forall|i: Input| decode(after).contains(i) == decode(before).insert(
                input,
            ).contains(i) by {
                assert(i.bit() == input.bit() <==> i == input);
            }
            assert(decode(after) =~= decode(before).insert(input));
        }
        self.bits = after;
    }

    /// Whether `input` is in the set.
    pub fn contains(&self, input: Input) -> (b: bool)
        ensures
            b == self@.contains(input),
    {
        self.bits & input.mask() != 0
    }

    /// Whether the set has no member.
    pub fn is_empty(&self) -> (b: bool)
        ensures
            b == (self@ == Set::<Input>::empty()),
    {
        proof {
            use_type_invariant(self);
            lemma_single_bits(self.bits);
            if self.bits == 0 {
                assert(forall|m: u8| 0u8 & m == 0) by (bit_vector);
                assert(self@ =~= Set::<Input>::empty());
            } else {
                assert(self@.contains(Input::Up) || self@.contains(Input::Down) || self@.contains(
                    Input::Left,
                ) || self@.contains(Input::Right) || self@.contains(Input::Primary));
            }
        }
        self.bits == 0
    }

    /// The byte that goes on the wire for this set.
    pub fn as_u8(&self) -> (bits: u8)
        ensures
            bits == encode(self@),
            bits == self.byte(),
            bits < INPUT_BITS_END,
    {
        proof {
            use_type_invariant(self);
            lemma_encode_decode(self.bits);
        }
        self.bits
    }

    /// The set that `bits` encodes.
    pub fn from_u8(bits: u8) -> (s: Self)
        requires
            bits < INPUT_BITS_END,
        ensures
            s@ == decode(bits),
            s == Self::of_byte(bits),
    {
        InputSet { bits }
    }

    /// The set that `bits` encodes, or `None` where a bit is set that stands
    /// for no input.
    pub fn try_from_u8(bits: u8) -> (r: Option<Self>)
        ensures
            bits < INPUT_BITS_END ==> r == Some(Self::of_byte(bits)),
            bits >= INPUT_BITS_END ==> r is None,
    {
        if bits < INPUT_BITS_END {
            Some(InputSet { bits })
        } else {
            None
        }
    }
}

/// The set of everything that is waiting in `stream`, which is left empty.
pub fn collect_inputs(stream: &mut InputStream) -> (s: InputSet)
    ensures
        s@ == old(stream)@.to_set(),
        final(stream)@.len() == 0,
{
    let mut set = InputSet::new();
    let ghost all = stream@;
    let ghost mut taken: int = 0;
    loop
        invariant
            0 <= taken <= all.len(),
            stream@ == all.subrange(taken, all.len() as int),
            set@ == all.subrange(0, taken).to_set(),
        ensures
            stream@.len() == 0,
            set@ == all.to_set(),
        decreases stream@.len(),
    {
        match stream.get() {
            Some(i) => {
                set.insert(i);
                proof {
                    assert(all.subrange(0, taken + 1) =~= all.subrange(0, taken).push(i));
                    assert(all.subrange(0, taken).push(i).to_set() =~= all.subrange(
                        0,
                        taken,
                    ).to_set().insert(i)) by {
                        let a = all.subrange(0, taken);
                        assert forall|x: Input| a.push(i).to_set().contains(x) == a.to_set().insert(
                            i,
                        ).contains(x) by {
                            if a.push(i).contains(x) {
                                let k = choose|k: int| 0 <= k < a.push(i).len() && a.push(i)[k] == x;
                                if k < a.len() {
                                    assert(a[k] == x);
                                }
                            }
                            if a.contains(x) {
                                let k = choose|k: int| 0 <= k < a.len() && a[k] == x;
                                assert(a.push(i)[k] == x);
                            }
                            if x == i {
                                assert(a.push(i)[a.len() as int] == x);
                            }
                        }
                    }
                    assert(stream@ =~= all.subrange(taken + 1, all.len() as int));
                    taken = taken + 1;
                }
            },
            None => {
                proof {
                    assert(all.subrange(0, taken) =~= all);
                }
                break ;
            },
        }
    }
    set
}

/// A queue of inputs: the host puts them in as it sees them, the game takes
/// them out in the same order.
pub struct InputStream {
    queue: VecDeque<Input>,
}

impl View for InputStream {
    type V = Seq<Input>;

    closed spec fn view(&self) -> Seq<Input> {
        self.queue@
    }
}

impl InputStream {
    /// An empty queue.
    pub fn new() -> (s: Self)
        ensures
            s@ == Seq::<Input>::empty(),
    {
        InputStream { queue: VecDeque::new() }
    }

    /// Takes out the input that has waited longest, if any waits.
    pub fn get(&mut self) -> (r: Option<Input>)
        ensures
            old(self)@.len() == 0 ==> r is None && final(self)@ == old(self)@,
            old(self)@.len() > 0 ==> r == Some(old(self)@[0]) && final(self)@ == old(self)@.subrange(1, old(self)@.len() as int),
    {
        self.queue.pop_front()
    }

    /// Puts `input` at the end of the queue.
    pub fn put(&mut self, input: Input)
        ensures
            final(self)@ == old(self)@.push(input),
    {
        self.queue.push_back(input);
    }
}

impl Default for InputStream {
    fn default() -> (s: Self)
        ensures
            s@ == Seq::<Input>::empty(),
    {
        Self::new()
    }
}

/// The input that a key stands for, by the key's code; other keys stand for
/// none.
pub open spec fn key_input(code: Seq<char>) -> Option<Input> {
    if code == "ArrowUp"@ {
        Some(Input::Up)
    } else if code == "ArrowDown"@ {
        Some(Input::Down)
    } else if code == "ArrowLeft"@ {
        Some(Input::Left)
    } else if code == "ArrowRight"@ {
        Some(Input::Right)
    } else if code == "Enter"@ {
        Some(Input::Primary)
    } else {
        None
    }
}

fn same_text(a: &str, b: &str) -> (r: bool)
    ensures
        r == (a@ == b@),
{
    a.to_owned() == b.to_owned()
}

/// The input of a keyboard event, given the code of its key.
pub fn input_from_keyboard_event(code: &str) -> (r: Option<Input>)
    ensures
        r == key_input(code@),
{
    if same_text(code, "ArrowUp") {
        Some(Input::Up)
    } else if same_text(code, "ArrowDown") {
        Some(Input::Down)
    } else if same_text(code, "ArrowLeft") {
        Some(Input::Left)
    } else if same_text(code, "ArrowRight") {
        Some(Input::Right)
    } else if same_text(code, "Enter") {
        Some(Input::Primary)
    } else {
        None
    }
}

/// The buttons of a game pad.
#[derive(Clone, Copy, Debug, PartialEq, Eq, Structural, Hash)]
pub enum Button {
    South,
    East,
    North,
    West,
    C,
    Z,
    LeftTrigger,
    LeftTrigger2,
    RightTrigger,
    RightTrigger2,
    Select,
    Start,
    Mode,
    LeftThumb,
    RightThumb,
    DPadUp,
    DPadDown,
    DPadLeft,
    DPadRight,
    Unknown,
}

/// The axes of a game pad that the game reads, and the rest.
#[derive(Clone, Copy, Debug, PartialEq, Eq, Structural, Hash)]
pub enum Axis {
    LeftStickX,
    LeftStickY,
    Other,
}

/// Which side of its rest position an axis has moved to.
#[derive(Clone, Copy, Debug, PartialEq, Eq, Structural, Hash)]
pub enum Deflection {
    Negative,
    Centered,
    Positive,
}

/// What a game pad reports.
#[derive(Clone, Copy, Debug, PartialEq, Eq, Structural, Hash)]
pub enum ControllerEvent {
    ButtonPressed(Button),
    AxisChanged(Axis, Deflection),
    Other,
}

/// The input that a pad button stands for: the east face button is the
/// primary input, the directional pad gives the directions.
pub open spec fn button_input(button: Button) -> Option<Input> {
    match button {
        Button::East => Some(Input::Primary),
        Button::DPadUp => Some(Input::Up),
        Button::DPadDown => Some(Input::Down),
        Button::DPadLeft => Some(Input::Left),
        Button::DPadRight => Some(Input::Right),
        _ => None,
    }
}

pub fn input_from_controller_button(button: Button) -> (r: Option<Input>)
    ensures
        r == button_input(button),
{
    match button {
        Button::East => Some(Input::Primary),
        Button::DPadUp => Some(Input::Up),
        Button::DPadDown => Some(Input::Down),
        Button::DPadLeft => Some(Input::Left),
        Button::DPadRight => Some(Input::Right),
        _ => None,
    }
}

/// The input that a pad event stands for. A pressed button gives its input.
/// The left stick gives right and left on its horizontal axis, up and down
/// on its vertical one, and nothing at rest.
pub open spec fn controller_input(event: ControllerEvent) -> Option<Input> {
    match event {
        ControllerEvent::ButtonPressed(button) => button_input(button),
        ControllerEvent::AxisChanged(Axis::LeftStickX, Deflection::Positive) => Some(Input::Right),
        ControllerEvent::AxisChanged(Axis::LeftStickX, Deflection::Negative) => Some(Input::Left),
        ControllerEvent::AxisChanged(Axis::LeftStickY, Deflection::Positive) => Some(Input::Up),
        ControllerEvent::AxisChanged(Axis::LeftStickY, Deflection::Negative) => Some(Input::Down),
        _ => None,
    }
}

/// The events of `events` that stand for an input, as inputs, in order.
pub open spec fn controller_inputs(events: Seq<ControllerEvent>) -> Seq<Input>
    decreases events.len(),
{
    if events.len() == 0 {
        Seq::empty()
    } else {
        let rest = controller_inputs(events.drop_last());
        match controller_input(events.last()) {
            Some(i) => rest.push(i),
            None => rest,
        }
    }
}

/// Puts the input of each pad event of `events` into `input_stream`.
pub fn drive_controller(input_stream: &mut InputStream, events: &Vec<ControllerEvent>)
    ensures
        final(input_stream)@ == old(input_stream)@ + controller_inputs(events@),
{
    let mut n: usize = 0;
    while n < events.len()
        invariant
            n <= events.len(),
            input_stream@ == old(input_stream)@ + controller_inputs(events@.subrange(0, n as int)),
        decreases events.len() - n,
    {
        let event = events[n];
        let found = match event {
            ControllerEvent::ButtonPressed(button) => input_from_controller_button(button),
            ControllerEvent::AxisChanged(Axis::LeftStickX, Deflection::Positive) => Some(
                Input::Right,
            ),
            ControllerEvent::AxisChanged(Axis::LeftStickX, Deflection::Negative) => Some(
                Input::Left,
            ),
            ControllerEvent::AxisChanged(Axis::LeftStickY, Deflection::Positive) => Some(Input::Up),
            ControllerEvent::AxisChanged(Axis::LeftStickY, Deflection::Negative) => Some(
                Input::Down,
            ),
            _ => None,
        };
        proof {
            let upto = events@.subrange(0, n + 1);
            assert(upto.drop_last() =~= events@.subrange(0, n as int));
            assert(upto.last() == event);
            assert(found == controller_input(event));
        }
        match found {
            Some(i) => {
                input_stream.put(i);
                assert(input_stream@ =~= old(input_stream)@ + controller_inputs(
                    events@.subrange(0, n + 1),
                ));
            },
            None => {},
        }
        n = n + 1;
    }
    assert(events@.subrange(0, n as int) =~= events@);
}

} // verus!
