use raycaster::input::{handle_event, key_command, CameraCommand, EventOutcome, InputEvent, Key};

#[test]
fn quit_and_escape_stop() {
    for debug in [false, true] {
        assert_eq!(handle_event(debug, InputEvent::Quit), EventOutcome::Stop);
        assert_eq!(handle_event(debug, InputEvent::KeyDown(Some(Key::Escape))), EventOutcome::Stop);
    }
}

#[test]
fn m_toggles_overlay() {
    let first = handle_event(false, InputEvent::KeyDown(Some(Key::M)));
    assert_eq!(first, EventOutcome::Continue { debug_view: true });
    let second = handle_event(true, InputEvent::KeyDown(Some(Key::M)));
    assert_eq!(second, EventOutcome::Continue { debug_view: false });
}

#[test]
fn other_events_change_nothing() {
    for debug in [false, true] {
        assert_eq!(handle_event(debug, InputEvent::Other), EventOutcome::Continue { debug_view: debug });
        assert_eq!(handle_event(debug, InputEvent::KeyDown(None)), EventOutcome::Continue { debug_view: debug });
        assert_eq!(handle_event(debug, InputEvent::KeyDown(Some(Key::W))), EventOutcome::Continue { debug_view: debug });
    }
}

#[test]
fn keys_map_to_camera_commands() {
    assert_eq!(key_command(Key::W), Some(CameraCommand::Forward));
    assert_eq!(key_command(Key::Up), Some(CameraCommand::Forward));
    assert_eq!(key_command(Key::S), Some(CameraCommand::Backward));
    assert_eq!(key_command(Key::Down), Some(CameraCommand::Backward));
    assert_eq!(key_command(Key::A), Some(CameraCommand::StrafeLeft));
    assert_eq!(key_command(Key::D), Some(CameraCommand::StrafeRight));
    assert_eq!(key_command(Key::Right), Some(CameraCommand::TurnRight));
    assert_eq!(key_command(Key::Left), Some(CameraCommand::TurnLeft));
    assert_eq!(key_command(Key::M), None);
    assert_eq!(key_command(Key::Escape), None);
    assert_eq!(key_command(Key::Other), None);
}
