use gcode::interpreter::{Command, Interpreter, Motion};

#[test]
fn commands_run_in_order() {
    let mut interp = Interpreter::new();
    assert_eq!(interp.current_motion(), None);
    interp.queue_command(Command::Motion(Motion::Rapid));
    interp.queue_command(Command::Motion(Motion::Feed));
    assert_eq!(interp.queued(), 2);

    interp.pop_command();
    assert_eq!(interp.current_motion(), Some(Motion::Rapid));
    interp.pop_command();
    assert_eq!(interp.current_motion(), Some(Motion::Feed));
    assert_eq!(interp.queued(), 0);

    // Nothing left: nothing changes
    interp.pop_command();
    assert_eq!(interp.current_motion(), Some(Motion::Feed));
}

#[test]
fn many_commands_run_in_queue_order() {
    let mut interp = Interpreter::new();
    interp.queue_command(Command::Motion(Motion::Feed));
    interp.queue_command(Command::Motion(Motion::Rapid));
    interp.queue_command(Command::Motion(Motion::Feed));
    interp.pop_command();
    assert_eq!(interp.current_motion(), Some(Motion::Feed));
    interp.pop_command();
    assert_eq!(interp.current_motion(), Some(Motion::Rapid));
    assert_eq!(interp.queued(), 1);
    interp.pop_command();
    assert_eq!(interp.current_motion(), Some(Motion::Feed));
    assert_eq!(interp.queued(), 0);
}
