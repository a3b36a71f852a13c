use frog_quest_battle::input::{
    collect_inputs, drive_controller, input_from_controller_button, input_from_keyboard_event,
    Axis, Button, ControllerEvent, Deflection, Input, InputSet, InputStream,
};
use frog_quest_battle::net;

const ALL: [Input; 5] = [Input::Up, Input::Down, Input::Left, Input::Right, Input::Primary];

#[test]
fn each_input_has_its_bit() {
    assert_eq!(Input::Up.mask(), 1);
    assert_eq!(Input::Down.mask(), 2);
    assert_eq!(Input::Left.mask(), 4);
    assert_eq!(Input::Right.mask(), 8);
    assert_eq!(Input::Primary.mask(), 16);
}

#[test]
fn input_byte_round_trip() {
    for bits in 0u8..32 {
        let s = InputSet::from_u8(bits);
        assert_eq!(s.as_u8(), bits);
        for (k, i) in ALL.iter().enumerate() {
            assert_eq!(s.contains(*i), bits & (1 << k) != 0);
        }
        let mut built = InputSet::new();
        for i in ALL.iter() {
            if s.contains(*i) {
                built.insert(*i);
            }
        }
        assert_eq!(built, s);
        assert_eq!(InputSet::from_u8(built.as_u8()), built);
    }
}

#[test]
fn bytes_with_stray_bits_are_no_input_set() {
    assert_eq!(InputSet::try_from_u8(31), Some(InputSet::from_u8(31)));
    assert_eq!(InputSet::try_from_u8(0), Some(InputSet::new()));
    for bits in 32u8..=255 {
        assert_eq!(InputSet::try_from_u8(bits), None);
    }
}

#[test]
fn a_bit_is_set_iff_the_input_was_seen() {
    let mut s = InputSet::new();
    assert!(s.is_empty());
    assert_eq!(s.as_u8(), 0);
    s.insert(Input::Left);
    s.insert(Input::Left);
    assert!(!s.is_empty());
    assert_eq!(s.as_u8(), 4);
    s.insert(Input::Primary);
    assert_eq!(s.as_u8(), 20);
    assert!(s.contains(Input::Left));
    assert!(s.contains(Input::Primary));
    assert!(!s.contains(Input::Up));
    assert!(!s.contains(Input::Down));
    assert!(!s.contains(Input::Right));
}

#[test]
fn keys_map_to_inputs() {
    assert_eq!(input_from_keyboard_event("ArrowUp"), Some(Input::Up));
    assert_eq!(input_from_keyboard_event("ArrowDown"), Some(Input::Down));
    assert_eq!(input_from_keyboard_event("ArrowLeft"), Some(Input::Left));
    assert_eq!(input_from_keyboard_event("ArrowRight"), Some(Input::Right));
    assert_eq!(input_from_keyboard_event("Enter"), Some(Input::Primary));
    assert_eq!(input_from_keyboard_event("Space"), None);
    assert_eq!(input_from_keyboard_event("arrowup"), None);
    assert_eq!(input_from_keyboard_event(""), None);
    assert_eq!(input_from_keyboard_event("KeyA"), None);
}

#[test]
fn pad_buttons_map_to_inputs() {
    assert_eq!(input_from_controller_button(Button::East), Some(Input::Primary));
    assert_eq!(input_from_controller_button(Button::DPadUp), Some(Input::Up));
    assert_eq!(input_from_controller_button(Button::DPadDown), Some(Input::Down));
    assert_eq!(input_from_controller_button(Button::DPadLeft), Some(Input::Left));
    assert_eq!(input_from_controller_button(Button::DPadRight), Some(Input::Right));
    for b in [
        Button::South,
        Button::North,
        Button::West,
        Button::C,
        Button::Z,
        Button::LeftTrigger,
        Button::LeftTrigger2,
        Button::RightTrigger,
        Button::RightTrigger2,
        Button::Select,
        Button::Start,
        Button::Mode,
        Button::LeftThumb,
        Button::RightThumb,
        Button::Unknown,
    ] {
        assert_eq!(input_from_controller_button(b), None);
    }
}

#[test]
fn the_stream_is_first_in_first_out() {
    let mut s = InputStream::new();
    assert_eq!(s.get(), None);
    s.put(Input::Up);
    s.put(Input::Primary);
    s.put(Input::Up);
    assert_eq!(s.get(), Some(Input::Up));
    assert_eq!(s.get(), Some(Input::Primary));
    s.put(Input::Left);
    assert_eq!(s.get(), Some(Input::Up));
    assert_eq!(s.get(), Some(Input::Left));
    assert_eq!(s.get(), None);
    assert_eq!(InputStream::default().get(), None);
}

#[test]
fn pad_events_are_put_into_the_stream_in_order() {
    let mut s = InputStream::new();
    s.put(Input::Down);
    let events = vec![
        ControllerEvent::ButtonPressed(Button::East),
        ControllerEvent::ButtonPressed(Button::South),
        ControllerEvent::AxisChanged(Axis::LeftStickX, Deflection::Positive),
        ControllerEvent::AxisChanged(Axis::LeftStickX, Deflection::Negative),
        ControllerEvent::AxisChanged(Axis::LeftStickX, Deflection::Centered),
        ControllerEvent::AxisChanged(Axis::LeftStickY, Deflection::Positive),
        ControllerEvent::AxisChanged(Axis::LeftStickY, Deflection::Negative),
        ControllerEvent::AxisChanged(Axis::LeftStickY, Deflection::Centered),
        ControllerEvent::AxisChanged(Axis::Other, Deflection::Positive),
        ControllerEvent::Other,
        ControllerEvent::ButtonPressed(Button::DPadLeft),
    ];
    drive_controller(&mut s, &events);
    let mut seen = vec![];
    while let Some(i) = s.get() {
        seen.push(i);
    }
    assert_eq!(
        seen,
        vec![
            Input::Down,
            Input::Primary,
            Input::Right,
            Input::Left,
            Input::Up,
            Input::Down,
            Input::Left,
        ]
    );
}

#[test]
fn collecting_empties_the_stream() {
    let mut s = InputStream::new();
    s.put(Input::Right);
    s.put(Input::Up);
    s.put(Input::Right);
    let set = collect_inputs(&mut s);
    assert_eq!(set.as_u8(), 9);
    assert_eq!(s.get(), None);
    assert_eq!(collect_inputs(&mut s), InputSet::new());
}

#[test]
fn the_local_input_of_a_frame_is_one_byte() {
    let mut s = InputStream::new();
    s.put(Input::Primary);
    s.put(Input::Left);
    assert_eq!(net::input(&mut s), vec![20]);
    assert_eq!(net::input(&mut s), vec![0]);
}
