use vstd::prelude::*;

verus! {

/// State of an input during one frame.
#[derive(Clone, Copy, Debug, PartialEq, Eq, Structural, Hash)]
pub enum InputState {
    /// Not touched this frame.
    Idle,
    Pressed,
    Held,
    Released,
}

/// An action the user inputs.
#[derive(Clone, Copy, Debug, PartialEq, Eq, Structural, Hash)]
pub enum InputAction {
    /// No action (has no raw input).
    Idle,
    Primary,
    Secondary,
    CameraPan,
    SpawnHead,
    SpawnZooid,
    SpawnRed,
    SpawnBlue,
}

/// Mouse buttons the game reads.
#[derive(Clone, Copy, Debug, PartialEq, Eq, Structural, Hash)]
pub enum MouseButtonKind {
    Left,
    Right,
    Middle,
}

/// Keyboard keys the game reads.
#[derive(Clone, Copy, Debug, PartialEq, Eq, Structural, Hash)]
pub enum KeyKind {
    Return,
    Minus,
    Equals,
    Z,
}

/// The device input bound to an action.
#[derive(Clone, Copy, Debug, PartialEq, Eq, Structural)]
pub enum RawInput {
    MouseButton(MouseButtonKind),
    KeyCode(KeyKind),
}

/// Number of bindable actions.
pub const NUM_ACTIONS: usize = 7;

/// The bindable actions in polling order (every action but `Idle`).
pub open spec fn spec_actions() -> Seq<InputAction> {
    seq![
        InputAction::Primary,
        InputAction::Secondary,
        InputAction::CameraPan,
        InputAction::SpawnHead,
        InputAction::SpawnZooid,
        InputAction::SpawnRed,
        InputAction::SpawnBlue,
    ]
}

/// The binding of an action (`RawInput::from`).
pub open spec fn spec_raw_input(action: InputAction) -> RawInput {
    match action {
        InputAction::Idle => RawInput::MouseButton(MouseButtonKind::Left),
        InputAction::Primary => RawInput::MouseButton(MouseButtonKind::Left),
        InputAction::Secondary => RawInput::MouseButton(MouseButtonKind::Right),
        InputAction::CameraPan => RawInput::MouseButton(MouseButtonKind::Middle),
        InputAction::SpawnHead => RawInput::KeyCode(KeyKind::Return),
        InputAction::SpawnRed => RawInput::KeyCode(KeyKind::Minus),
        InputAction::SpawnBlue => RawInput::KeyCode(KeyKind::Equals),
        InputAction::SpawnZooid => RawInput::KeyCode(KeyKind::Z),
    }
}

impl InputAction {
    /// The bindable actions in polling order.
    pub fn actions() -> (actions: Vec<InputAction>)
        ensures
            actions@ == spec_actions(),
    {
        let actions = vec![
            InputAction::Primary,
            InputAction::Secondary,
            InputAction::CameraPan,
            InputAction::SpawnHead,
            InputAction::SpawnZooid,
            InputAction::SpawnRed,
            InputAction::SpawnBlue,
        ];
        assert(actions@ =~= spec_actions());
        actions
    }

    /// Mouse buttons bound to actions, in polling order.
    pub fn mouse_buttons() -> (buttons: Vec<MouseButtonKind>)
        ensures
            buttons@ == seq![MouseButtonKind::Left, MouseButtonKind::Right, MouseButtonKind::Middle],
    {
        let mut result: Vec<MouseButtonKind> = Vec::new();
        let actions = InputAction::actions();
        let mut k: usize = 0;
        while k < actions.len()
            invariant
                actions@ == spec_actions(),
                0 <= k <= 7,
                k <= 3 ==> result@ == seq![MouseButtonKind::Left, MouseButtonKind::Right, MouseButtonKind::Middle].take(k as int),
                k > 3 ==> result@ == seq![MouseButtonKind::Left, MouseButtonKind::Right, MouseButtonKind::Middle],
            decreases 7 - k,
        {
            if let RawInput::MouseButton(mouse_button) = RawInput::from_action(actions[k]) {
                result.push(mouse_button);
            }
            proof {
                if k < 3 {
                    assert(seq![MouseButtonKind::Left, MouseButtonKind::Right, MouseButtonKind::Middle].take(k as int + 1)
                        =~= seq![MouseButtonKind::Left, MouseButtonKind::Right, MouseButtonKind::Middle].take(k as int).push(
                        seq![MouseButtonKind::Left, MouseButtonKind::Right, MouseButtonKind::Middle][k as int]));
                }
                if k == 2 {
                    assert(seq![MouseButtonKind::Left, MouseButtonKind::Right, MouseButtonKind::Middle].take(3)
                        =~= seq![MouseButtonKind::Left, MouseButtonKind::Right, MouseButtonKind::Middle]);
                }
            }
            k = k + 1;
        }
        result
    }

    /// Keys bound to actions, in polling order.
    pub fn key_codes() -> (keys: Vec<KeyKind>)
        ensures
            keys@ == seq![KeyKind::Return, KeyKind::Z, KeyKind::Minus, KeyKind::Equals],
    {
        let mut result: Vec<KeyKind> = Vec::new();
        let actions = InputAction::actions();
        let mut k: usize = 0;
        while k < actions.len()
            invariant
                actions@ == spec_actions(),
                0 <= k <= 7,
                k <= 3 ==> result@ == Seq::<KeyKind>::empty(),
                k >= 3 ==> result@ == seq![KeyKind::Return, KeyKind::Z, KeyKind::Minus, KeyKind::Equals].take(k - 3),
            decreases 7 - k,
        {
            if let RawInput::KeyCode(key_code) = RawInput::from_action(actions[k]) {
                result.push(key_code);
            }
            proof {
                if k >= 3 {
                    assert(seq![KeyKind::Return, KeyKind::Z, KeyKind::Minus, KeyKind::Equals].take(k - 2)
                        =~= seq![KeyKind::Return, KeyKind::Z, KeyKind::Minus, KeyKind::Equals].take(k - 3).push(
                        seq![KeyKind::Return, KeyKind::Z, KeyKind::Minus, KeyKind::Equals][k - 3]));
                }
            }
            k = k + 1;
        }
        assert(seq![KeyKind::Return, KeyKind::Z, KeyKind::Minus, KeyKind::Equals].take(4)
            =~= seq![KeyKind::Return, KeyKind::Z, KeyKind::Minus, KeyKind::Equals]);
        result
    }
}

impl RawInput {
    /// The device input bound to an action; `Idle` has none.
    pub fn from_action(action: InputAction) -> (raw: RawInput)
        requires
            action != InputAction::Idle,
        ensures
            raw == spec_raw_input(action),
    {
        match action {
            InputAction::Idle => RawInput::MouseButton(MouseButtonKind::Left),
            InputAction::Primary => RawInput::MouseButton(MouseButtonKind::Left),
            InputAction::Secondary => RawInput::MouseButton(MouseButtonKind::Right),
            InputAction::CameraPan => RawInput::MouseButton(MouseButtonKind::Middle),
            InputAction::SpawnHead => RawInput::KeyCode(KeyKind::Return),
            InputAction::SpawnRed => RawInput::KeyCode(KeyKind::Minus),
            InputAction::SpawnBlue => RawInput::KeyCode(KeyKind::Equals),
            InputAction::SpawnZooid => RawInput::KeyCode(KeyKind::Z),
        }
    }
}

/// What the input system reports about one button in a frame.
#[derive(Clone, Copy, Debug, PartialEq, Eq)]
pub struct ButtonState {
    /// The button is down.
    pub pressed: bool,
    /// The button went down this frame.
    pub just_pressed: bool,
    /// The button went up this frame.
    pub just_released: bool,
}

/// The input state a button's report stands for.
pub open spec fn spec_input_state(button: ButtonState) -> InputState {
    if button.pressed {
        if button.just_pressed { InputState::Pressed } else { InputState::Held }
    } else if button.just_released {
        InputState::Released
    } else {
        InputState::Idle
    }
}

/// An input action with its state in this frame. (The picking ray that goes
/// with it is kept by the caller.)
#[derive(Clone, Copy, Debug, PartialEq, Eq, Structural)]
pub struct InputEvent {
    pub action: InputAction,
    pub state: InputState,
}

impl InputEvent {
    /// Turns the report of the button bound to `action` into an event: down
    /// and new is `Pressed`, down and old is `Held`, just up is `Released`;
    /// an untouched button gives no event.
    pub fn process_input(action: InputAction, button: ButtonState) -> (event: Option<InputEvent>)
        ensures
            event == if spec_input_state(button) == InputState::Idle {
                None
            } else {
                Some(InputEvent { action, state: spec_input_state(button) })
            },
    {
        let state = if button.pressed {
            if button.just_pressed {
                InputState::Pressed
            } else {
                InputState::Held
            }
        } else if button.just_released {
            InputState::Released
        } else {
            InputState::Idle
        };
        if state != InputState::Idle {
            Some(InputEvent { action, state })
        } else {
            None
        }
    }
}

/// What an input means in the game.
#[derive(Clone, Copy, Debug, PartialEq, Eq, Structural, Hash)]
pub enum ControlAction {
    Idle,
    Select,
    Move,
    PanCamera,
    SpawnHead,
    SpawnZooid,
    SpawnRed,
    SpawnBlue,
}

/// What the picking ray hit.
#[derive(Clone, Copy, Debug, PartialEq, Eq, Structural)]
pub enum RaycastTarget {
    Nothing,
    WorldGrid,
    Minimap,
}

/// Where the world position of a control comes from: the ray's hit in the
/// world, or the hit on the minimap mapped to the world.
#[derive(Clone, Copy, Debug, PartialEq, Eq, Structural)]
pub enum ControlPosition {
    World,
    MinimapLocal,
}

/// A control action with its state. (The world position is kept by the caller.)
#[derive(Clone, Copy, Debug, PartialEq, Eq, Structural)]
pub struct ControlEvent {
    pub action: ControlAction,
    pub state: InputState,
}

/// The control an input means, given what its ray hit.
pub open spec fn spec_control(target: RaycastTarget, action: InputAction) -> Option<(ControlAction, ControlPosition)> {
    match (target, action) {
        (RaycastTarget::Nothing, _) => None,
        (RaycastTarget::WorldGrid, InputAction::Primary) => Some((ControlAction::Select, ControlPosition::World)),
        (RaycastTarget::WorldGrid, InputAction::Secondary) => Some((ControlAction::Move, ControlPosition::World)),
        (RaycastTarget::Minimap, InputAction::Primary) => Some((ControlAction::PanCamera, ControlPosition::MinimapLocal)),
        (_, InputAction::SpawnHead) => Some((ControlAction::SpawnHead, ControlPosition::World)),
        (_, InputAction::SpawnZooid) => Some((ControlAction::SpawnZooid, ControlPosition::World)),
        (_, InputAction::SpawnRed) => Some((ControlAction::SpawnRed, ControlPosition::World)),
        (_, InputAction::SpawnBlue) => Some((ControlAction::SpawnBlue, ControlPosition::World)),
        _ => None,
    }
}

/// How the move-throttling timer is driven by a `Move` control.
#[derive(Clone, Copy, Debug, PartialEq, Eq, Structural)]
pub enum MoveTimerStep {
    /// Leave the timer alone and send the event.
    Keep,
    /// Reset the timer, advance it by the frame time, and send the event.
    ResetAndTick,
    /// Advance the timer by the frame time; send the event only if it finished.
    TickThenCheck,
    /// Reset the timer and send the event.
    Reset,
}

impl ControlEvent {
    /// The event is `action` being pressed this frame.
    pub fn is_pressed(&self, action: ControlAction) -> (b: bool)
        ensures
            b == (self.action == action && self.state == InputState::Pressed),
    {
        self.action == action && self.state == InputState::Pressed
    }

    /// The event is `action` being held this frame.
    pub fn is_held(&self, action: ControlAction) -> (b: bool)
        ensures
            b == (self.action == action && self.state == InputState::Held),
    {
        self.action == action && self.state == InputState::Held
    }

    /// The event is `action` being released this frame.
    pub fn is_released(&self, action: ControlAction) -> (b: bool)
        ensures
            b == (self.action == action && self.state == InputState::Released),
    {
        self.action == action && self.state == InputState::Released
    }

    /// The control an input event means, given what its ray hit, and where
    /// its position comes from. The control keeps the input's state.
    pub fn get_control(event: &InputEvent, target: RaycastTarget) -> (control: Option<(ControlEvent, ControlPosition)>)
        ensures
            control == match spec_control(target, event.action) {
                Some((action, position)) => Some((ControlEvent { action, state: event.state }, position)),
                None => None,
            },
    {
        let state = event.state;
        match (target, event.action) {
            (RaycastTarget::Nothing, _) => None,
            (RaycastTarget::WorldGrid, InputAction::Primary) => Some(
                (ControlEvent { action: ControlAction::Select, state }, ControlPosition::World),
            ),
            (RaycastTarget::WorldGrid, InputAction::Secondary) => Some(
                (ControlEvent { action: ControlAction::Move, state }, ControlPosition::World),
            ),
            (RaycastTarget::Minimap, InputAction::Primary) => Some(
                (ControlEvent { action: ControlAction::PanCamera, state }, ControlPosition::MinimapLocal),
            ),
            (_, InputAction::SpawnHead) => Some(
                (ControlEvent { action: ControlAction::SpawnHead, state }, ControlPosition::World),
            ),
            (_, InputAction::SpawnZooid) => Some(
                (ControlEvent { action: ControlAction::SpawnZooid, state }, ControlPosition::World),
            ),
            (_, InputAction::SpawnRed) => Some(
                (ControlEvent { action: ControlAction::SpawnRed, state }, ControlPosition::World),
            ),
            (_, InputAction::SpawnBlue) => Some(
                (ControlEvent { action: ControlAction::SpawnBlue, state }, ControlPosition::World),
            ),
            _ => None,
        }
    }

    /// How a control drives the move-throttling timer. Only `Move` controls
    /// are throttled (others give `None` and are always sent): a press
    /// restarts the timer, a hold waits for it, a release resets it.
    pub fn move_timer_step(&self) -> (step: Option<MoveTimerStep>)
        ensures
            self.action != ControlAction::Move ==> step.is_none(),
            self.action == ControlAction::Move ==> step == Some(match self.state {
                InputState::Idle => MoveTimerStep::Keep,
                InputState::Pressed => MoveTimerStep::ResetAndTick,
                InputState::Held => MoveTimerStep::TickThenCheck,
                InputState::Released => MoveTimerStep::Reset,
            }),
    {
        if self.action == ControlAction::Move {
            Some(match self.state {
                InputState::Idle => MoveTimerStep::Keep,
                InputState::Pressed => MoveTimerStep::ResetAndTick,
                InputState::Held => MoveTimerStep::TickThenCheck,
                InputState::Released => MoveTimerStep::Reset,
            })
        } else {
            None
        }
    }
}

/// Whether a control is sent after its timer step (`None` for unthrottled
/// controls), given whether the timer has finished after the step: only a
/// held move waits for the timer.
pub fn send_after_timer_step(step: Option<MoveTimerStep>, timer_finished: bool) -> (send: bool)
    ensures
        send == match step {
            Some(MoveTimerStep::TickThenCheck) => timer_finished,
            _ => true,
        },
{
    match step {
        Some(MoveTimerStep::TickThenCheck) => timer_finished,
        _ => true,
    }
}


/// Spawn inputs keep their kind: wherever the ray hit something, the spawn
/// input for heads, zooids, red or blue zooids means the spawn control of the
/// same kind, placed at the world position of the hit.
pub proof fn lemma_spawn_inputs_keep_their_kind(target: RaycastTarget)
    requires
        target != RaycastTarget::Nothing,
    ensures
        spec_control(target, InputAction::SpawnHead) == Some((ControlAction::SpawnHead, ControlPosition::World)),
        spec_control(target, InputAction::SpawnZooid) == Some((ControlAction::SpawnZooid, ControlPosition::World)),
        spec_control(target, InputAction::SpawnRed) == Some((ControlAction::SpawnRed, ControlPosition::World)),
        spec_control(target, InputAction::SpawnBlue) == Some((ControlAction::SpawnBlue, ControlPosition::World)),
{
}

} // verus!
