use robot_commands::command::{
    DownPenCommand, MoveCommand, TurnLeftCommand, TurnRightCommand, UpPenCommand,
};
use robot_commands::robot::{Direction, Robot};

#[test]
fn test_move_command_execute_and_rollback() {
    let mut robot = Robot::default();
    let cmd = MoveCommand::new(3);

    // Move forward 3 steps
    assert!(cmd.execute(&mut robot).is_ok());
    assert_eq!(robot.x(), 0);
    assert_eq!(robot.y(), 3);

    // Rollback: should return to original position
    assert!(cmd.rollback(&mut robot).is_ok());
    assert_eq!(robot.x(), 0);
    assert_eq!(robot.y(), 0);
}

#[test]
fn test_turn_left_command_execute_and_rollback() {
    let mut robot = Robot::default();
    let cmd = TurnLeftCommand::new(1);

    // Turn left once
    assert!(cmd.execute(&mut robot).is_ok());
    assert_eq!(robot.direction(), Direction::Left);

    // Rollback: should turn right, back to up
    assert!(cmd.rollback(&mut robot).is_ok());
    assert_eq!(robot.direction(), Direction::Up);
}

#[test]
fn test_turn_right_command_execute_and_rollback() {
    let mut robot = Robot::default();
    let cmd = TurnRightCommand::new(2);

    // Turn right twice
    assert!(cmd.execute(&mut robot).is_ok());
    assert_eq!(robot.direction(), Direction::Down);

    // Rollback: should turn left twice, back to up
    assert!(cmd.rollback(&mut robot).is_ok());
    assert_eq!(robot.direction(), Direction::Up);
}

#[test]
fn test_down_pen_command_execute_and_rollback() {
    let mut robot = Robot::default();
    let cmd = DownPenCommand;

    // Pen down
    assert!(cmd.execute(&mut robot).is_ok());
    assert!(robot.is_drawing());

    // Rollback: pen up
    assert!(cmd.rollback(&mut robot).is_ok());
    assert!(!robot.is_drawing());
}

#[test]
fn test_up_pen_command_execute_and_rollback() {
    let mut robot = Robot::default();
    robot.down_pen();
    let cmd = UpPenCommand;

    // Pen up
    assert!(cmd.execute(&mut robot).is_ok());
    assert!(!robot.is_drawing());

    // Rollback: pen down
    assert!(cmd.rollback(&mut robot).is_ok());
    assert!(robot.is_drawing());
}

#[test]
fn test_turn_left_command_wraps_around() {
    let mut robot = Robot::default();
    let cmd = TurnLeftCommand::new(5); // 5 % 4 == 1
    assert_eq!(cmd.times, 1);
    assert!(cmd.execute(&mut robot).is_ok());
    assert_eq!(robot.direction(), Direction::Left);
}

#[test]
fn test_turn_right_command_wraps_around() {
    let mut robot = Robot::default();
    let cmd = TurnRightCommand::new(8); // 8 % 4 == 0
    assert_eq!(cmd.times, 0);
    assert!(cmd.execute(&mut robot).is_ok());
    assert_eq!(robot.direction(), Direction::Up);
}
