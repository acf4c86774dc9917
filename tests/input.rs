use dvr::input::{denormalise, mouse_button, MouseButton};

#[test]
fn modifiers_name_both_keys() {
    assert_eq!(denormalise("Shift"), vec!["ShiftLeft", "ShiftRight"]);
    assert_eq!(denormalise("Control"), vec!["ControlLeft", "ControlRight"]);
    assert_eq!(denormalise("Alt"), vec!["AltLeft", "AltRight"]);
}

#[test]
fn single_characters_name_their_key() {
    assert_eq!(denormalise("7"), vec!["Digit7"]);
    assert_eq!(denormalise("A"), vec!["KeyA"]);
    assert_eq!(denormalise("é"), vec!["é"]);
}

#[test]
fn other_names_are_key_codes() {
    assert_eq!(denormalise("Enter"), vec!["Enter"]);
    assert_eq!(denormalise("ShiftLeft"), vec!["ShiftLeft"]);
    assert_eq!(denormalise(""), vec![""]);
}

#[test]
fn button_codes() {
    assert_eq!(mouse_button(0), MouseButton::Left);
    assert_eq!(mouse_button(1), MouseButton::Middle);
    assert_eq!(mouse_button(2), MouseButton::Right);
    assert_eq!(mouse_button(3), MouseButton::Back);
    assert_eq!(mouse_button(4), MouseButton::Forward);
    assert_eq!(mouse_button(9), MouseButton::Left);
    assert_eq!(mouse_button(-1), MouseButton::Left);
}

use dvr::input::{Event, Input, KeyCodeEvent, MouseEvent};

fn key_event(code: &str) -> KeyCodeEvent {
    KeyCodeEvent { key_code: code.to_string(), ctrl_down: false, shift_down: true, alt_down: false }
}

fn drain(input: &mut Input) -> Vec<Event> {
    let mut out = Vec::new();
    while let Some(e) = input.next() {
        out.push(e);
    }
    out
}

#[test]
fn fresh_input_is_empty() {
    let mut input = Input::new(None);
    assert!(!input.key_down_raw("KeyA"));
    assert!(!input.key_down("A"));
    assert_eq!(input.get_mouse_pos(), None);
    assert_eq!(input.next(), None);
}

#[test]
fn key_press_records_state_and_text() {
    let mut input = Input::new(None);
    input.handle_key_down("KeyA".to_string(), "A", false, false, true, false);
    assert!(input.key_down_raw("KeyA"));
    assert!(input.key_down("A"));
    assert!(!input.key_down_raw("KeyB"));
    assert_eq!(drain(&mut input), vec![Event::KeyDown(key_event("KeyA")), Event::Char("A".to_string())]);
    input.handle_key_up("KeyA".to_string(), false, true, false);
    assert!(!input.key_down("A"));
    assert_eq!(drain(&mut input), vec![Event::KeyUp(key_event("KeyA"))]);
}

#[test]
fn enter_types_a_line_feed_and_composing_types_nothing() {
    let mut input = Input::new(None);
    input.handle_key_down("Enter".to_string(), "Enter", false, false, true, false);
    input.handle_key_down("KeyK".to_string(), "k", true, false, true, false);
    input.handle_key_down("ArrowUp".to_string(), "ArrowUp", false, false, true, false);
    assert_eq!(
        drain(&mut input),
        vec![
            Event::KeyDown(key_event("Enter")),
            Event::Char("\n".to_string()),
            Event::KeyDown(key_event("KeyK")),
            Event::KeyDown(key_event("ArrowUp")),
        ]
    );
    input.handle_composition_end(Some("日本".to_string()));
    input.handle_composition_end(None);
    assert_eq!(drain(&mut input), vec![Event::Char("日本".to_string())]);
}

#[test]
fn modifier_name_matches_either_side() {
    let mut input = Input::new(None);
    input.handle_key_down("ShiftRight".to_string(), "Shift", false, false, true, false);
    assert!(input.key_down("Shift"));
    assert!(!input.key_down_raw("ShiftLeft"));
    input.handle_key_down("Digit4".to_string(), "$", false, false, true, false);
    assert!(input.key_down("4"));
    input.handle_key_up("ShiftRight".to_string(), false, false, false);
    assert!(!input.key_down("Shift"));
    assert!(input.key_down("4"));
}

#[test]
fn bounded_queue_drops_oldest() {
    let mut input = Input::new(Some(2));
    let m = |x| MouseEvent { x, y: 0, button: MouseButton::Left, ctrl_down: false, shift_down: false };
    input.handle_mouse_down(m(1));
    input.handle_mouse_up(m(2));
    input.handle_mouse_down(m(3));
    assert_eq!(drain(&mut input), vec![Event::MouseUp(m(2)), Event::MouseDown(m(3))]);
    let mut none = Input::new(Some(0));
    none.handle_mouse_down(m(1));
    assert_eq!(none.next(), None);
}

#[test]
fn clearing_events_keeps_key_state() {
    let mut input = Input::new(None);
    input.handle_key_down("KeyQ".to_string(), "q", false, false, false, false);
    input.clear_events();
    assert_eq!(input.next(), None);
    assert!(input.key_down("Q"));
}

#[test]
fn mouse_position_follows_moves() {
    let mut input = Input::new(None);
    input.handle_mouse_move(12, -3);
    assert_eq!(input.get_mouse_pos(), Some((12, -3)));
    assert_eq!(input.get_mouse_x(), Some(12));
    assert_eq!(input.get_mouse_y(), Some(-3));
    input.handle_mouse_leave();
    assert_eq!(input.get_mouse_pos(), None);
    assert_eq!(input.get_mouse_x(), None);
    assert_eq!(input.get_mouse_y(), None);
}
