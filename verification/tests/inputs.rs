use zooids::inputs::{
    send_after_timer_step, ButtonState, ControlAction, ControlEvent, ControlPosition, InputAction, InputEvent,
    InputState, KeyKind, MouseButtonKind, MoveTimerStep, RawInput, RaycastTarget,
};

fn button(pressed: bool, just_pressed: bool, just_released: bool) -> ButtonState {
    ButtonState { pressed, just_pressed, just_released }
}

#[test]
fn bindings() {
    assert_eq!(InputAction::mouse_buttons(), vec![MouseButtonKind::Left, MouseButtonKind::Right, MouseButtonKind::Middle]);
    assert_eq!(InputAction::key_codes(), vec![KeyKind::Return, KeyKind::Z, KeyKind::Minus, KeyKind::Equals]);
    assert_eq!(RawInput::from_action(InputAction::SpawnRed), RawInput::KeyCode(KeyKind::Minus));
    assert_eq!(RawInput::from_action(InputAction::CameraPan), RawInput::MouseButton(MouseButtonKind::Middle));
    assert_eq!(InputAction::actions().len(), 7);
}

#[test]
fn button_states() {
    let pressed = InputEvent::process_input(InputAction::Primary, button(true, true, false)).unwrap();
    assert_eq!(pressed.state, InputState::Pressed);
    assert_eq!(InputEvent::process_input(InputAction::Primary, button(true, false, false)).unwrap().state, InputState::Held);
    assert_eq!(InputEvent::process_input(InputAction::Primary, button(false, false, true)).unwrap().state, InputState::Released);
    assert!(InputEvent::process_input(InputAction::Primary, button(false, false, false)).is_none());
}

#[test]
fn controls_from_inputs() {
    let primary = InputEvent { action: InputAction::Primary, state: InputState::Pressed };
    let secondary = InputEvent { action: InputAction::Secondary, state: InputState::Held };
    let spawn = InputEvent { action: InputAction::SpawnBlue, state: InputState::Pressed };
    assert_eq!(
        ControlEvent::get_control(&primary, RaycastTarget::WorldGrid),
        Some((ControlEvent { action: ControlAction::Select, state: InputState::Pressed }, ControlPosition::World))
    );
    assert_eq!(
        ControlEvent::get_control(&secondary, RaycastTarget::WorldGrid),
        Some((ControlEvent { action: ControlAction::Move, state: InputState::Held }, ControlPosition::World))
    );
    assert_eq!(
        ControlEvent::get_control(&primary, RaycastTarget::Minimap),
        Some((ControlEvent { action: ControlAction::PanCamera, state: InputState::Pressed }, ControlPosition::MinimapLocal))
    );
    assert_eq!(ControlEvent::get_control(&secondary, RaycastTarget::Minimap), None);
    assert_eq!(ControlEvent::get_control(&spawn, RaycastTarget::Nothing), None);
    assert_eq!(
        ControlEvent::get_control(&spawn, RaycastTarget::Minimap).unwrap().0.action,
        ControlAction::SpawnBlue
    );
}

#[test]
fn control_queries_and_move_throttle() {
    let held_move = ControlEvent { action: ControlAction::Move, state: InputState::Held };
    assert!(held_move.is_held(ControlAction::Move));
    assert!(!held_move.is_pressed(ControlAction::Move));
    assert!(!held_move.is_released(ControlAction::Select));
    assert_eq!(held_move.move_timer_step(), Some(MoveTimerStep::TickThenCheck));
    assert!(!send_after_timer_step(held_move.move_timer_step(), false));
    assert!(send_after_timer_step(held_move.move_timer_step(), true));
    let press = ControlEvent { action: ControlAction::Move, state: InputState::Pressed };
    assert_eq!(press.move_timer_step(), Some(MoveTimerStep::ResetAndTick));
    let select = ControlEvent { action: ControlAction::Select, state: InputState::Held };
    assert_eq!(select.move_timer_step(), None);
    assert!(send_after_timer_step(select.move_timer_step(), false));
}
