use vstd::prelude::*;

verus! {

/// The keys the game reacts to.
#[derive(Clone, Copy, Debug, PartialEq, Eq, Structural)]
pub enum Key {
    W,
    A,
    S,
    D,
    Up,
    Down,
    Left,
    Right,
    Escape,
    M,
    /// Any other key.
    Other,
}

/// The window events the game reacts to.
#[derive(Clone, Copy, Debug, PartialEq, Eq, Structural)]
pub enum InputEvent {
    /// The window was asked to close.
    Quit,
    /// A key went down; `None` when it has no key code.
    KeyDown(Option<Key>),
    /// Any other event.
    Other,
}

/// What the game does after an event.
#[derive(Clone, Copy, Debug, PartialEq, Eq, Structural)]
pub enum EventOutcome {
    /// Leave the game loop.
    Stop,
    /// Go on, with this setting of the map overlay.
    Continue { debug_view: bool },
}

/// What an event leads to while the map overlay is shown or not.
pub open spec fn event_outcome(debug_view: bool, event: InputEvent) -> EventOutcome {
    match event {
        InputEvent::Quit => EventOutcome::Stop,
        InputEvent::KeyDown(Some(Key::Escape)) => EventOutcome::Stop,
        InputEvent::KeyDown(Some(Key::M)) => EventOutcome::Continue { debug_view: !debug_view },
        _ => EventOutcome::Continue { debug_view },
    }
}

/// Reacts to one window event: closing the window or Escape stops the
/// game, M shows or hides the map overlay, anything else changes nothing.
pub fn handle_event(debug_view: bool, event: InputEvent) -> (out: EventOutcome)
    ensures
        out == event_outcome(debug_view, event),
        out is Stop <==> (event == InputEvent::Quit || event == InputEvent::KeyDown(Some(Key::Escape))),
        (out matches EventOutcome::Continue { debug_view: d } ==> (d == debug_view <==> event
            != InputEvent::KeyDown(Some(Key::M)))),
{
    proof {
        lemma_event_outcome(debug_view, event);
    }
    match event {
        InputEvent::Quit => EventOutcome::Stop,
        InputEvent::KeyDown(Some(Key::Escape)) => EventOutcome::Stop,
        InputEvent::KeyDown(Some(Key::M)) => EventOutcome::Continue { debug_view: !debug_view },
        _ => EventOutcome::Continue { debug_view },
    }
}

/// What an event does: only closing the window and Escape stop the game;
/// M flips the map overlay; every other event, any other key among them,
/// leaves the game running with the overlay as it was.
pub proof fn lemma_event_outcome(debug_view: bool, event: InputEvent)
    ensures
        event_outcome(debug_view, event) is Stop <==> (event == InputEvent::Quit || event
            == InputEvent::KeyDown(Some(Key::Escape))),
        event == InputEvent::KeyDown(Some(Key::M)) ==> event_outcome(debug_view, event)
            == (EventOutcome::Continue { debug_view: !debug_view }),
        event != InputEvent::Quit && event != InputEvent::KeyDown(Some(Key::Escape)) && event
            != InputEvent::KeyDown(Some(Key::M)) ==> event_outcome(debug_view, event)
            == (EventOutcome::Continue { debug_view }),
{
}

/// Pressing M twice leaves the map overlay as it was.
pub proof fn lemma_overlay_toggle_twice(debug_view: bool)
    ensures
        ({
            let m = InputEvent::KeyDown(Some(Key::M));
            match event_outcome(debug_view, m) {
                EventOutcome::Continue { debug_view: d } => event_outcome(d, m)
                    == EventOutcome::Continue { debug_view },
                EventOutcome::Stop => false,
            }
        }),
{
}

/// A movement of the camera, asked for by a held key.
#[derive(Clone, Copy, Debug, PartialEq, Eq, Structural)]
pub enum CameraCommand {
    /// Step along the view direction.
    Forward,
    /// Step against the view direction.
    Backward,
    /// Step against the perpendicular of the view direction.
    StrafeLeft,
    /// Step along the perpendicular of the view direction.
    StrafeRight,
    /// Rotate the view direction by one step.
    TurnRight,
    /// Rotate the view direction back by one step.
    TurnLeft,
}

/// The camera movement a held key asks for.
pub open spec fn key_command_spec(key: Key) -> Option<CameraCommand> {
    match key {
        Key::W | Key::Up => Some(CameraCommand::Forward),
        Key::S | Key::Down => Some(CameraCommand::Backward),
        Key::A => Some(CameraCommand::StrafeLeft),
        Key::D => Some(CameraCommand::StrafeRight),
        Key::Right => Some(CameraCommand::TurnRight),
        Key::Left => Some(CameraCommand::TurnLeft),
        _ => None,
    }
}

/// The camera movement a held key asks for: W and Up move forward, S and
/// Down backward, A and D sideways, Right and Left turn; other keys none.
pub fn key_command(key: Key) -> (c: Option<CameraCommand>)
    ensures
        c == key_command_spec(key),
{
    match key {
        Key::W | Key::Up => Some(CameraCommand::Forward),
        Key::S | Key::Down => Some(CameraCommand::Backward),
        Key::A => Some(CameraCommand::StrafeLeft),
        Key::D => Some(CameraCommand::StrafeRight),
        Key::Right => Some(CameraCommand::TurnRight),
        Key::Left => Some(CameraCommand::TurnLeft),
        _ => None,
    }
}


/// Which held key moves the camera how: W and Up step forward, S and Down
/// step back, A strafes left, D strafes right, Right and Left turn; M,
/// Escape and every other key move nothing.
pub proof fn lemma_key_commands()
    ensures
        key_command_spec(Key::W) == Some(CameraCommand::Forward),
        key_command_spec(Key::Up) == Some(CameraCommand::Forward),
        key_command_spec(Key::S) == Some(CameraCommand::Backward),
        key_command_spec(Key::Down) == Some(CameraCommand::Backward),
        key_command_spec(Key::A) == Some(CameraCommand::StrafeLeft),
        key_command_spec(Key::D) == Some(CameraCommand::StrafeRight),
        key_command_spec(Key::Right) == Some(CameraCommand::TurnRight),
        key_command_spec(Key::Left) == Some(CameraCommand::TurnLeft),
        key_command_spec(Key::M) is None,
        key_command_spec(Key::Escape) is None,
        key_command_spec(Key::Other) is None,
{
}

} // verus!
