use robot_commands::robot::{Direction, Robot, RobotBuilder};

#[test]
fn test_robot_new() {
    let robot = Robot::new(1, 2, Direction::Left, true);
    assert_eq!(robot.x(), 1);
    assert_eq!(robot.y(), 2);
    assert_eq!(robot.direction(), Direction::Left);
    assert!(robot.is_drawing());
}

#[test]
fn test_robot_move_forward_up() {
    let mut robot = Robot::new(0, 0, Direction::Up, false);
    robot.move_forward().unwrap();
    assert_eq!(robot.x(), 0);
    assert_eq!(robot.y(), 1);
}

#[test]
fn test_robot_move_forward_right() {
    let mut robot = Robot::new(0, 0, Direction::Right, false);
    robot.move_forward().unwrap();
    assert_eq!(robot.x(), 1);
    assert_eq!(robot.y(), 0);
}

#[test]
fn test_robot_move_forward_down() {
    let mut robot = Robot::new(0, 0, Direction::Down, false);
    robot.move_forward().unwrap();
    assert_eq!(robot.x(), 0);
    assert_eq!(robot.y(), -1);
}

#[test]
fn test_robot_move_forward_left() {
    let mut robot = Robot::new(0, 0, Direction::Left, false);
    robot.move_forward().unwrap();
    assert_eq!(robot.x(), -1);
    assert_eq!(robot.y(), 0);
}

#[test]
fn test_robot_turn_left() {
    let mut robot = Robot::default();
    robot.turn_left();
    assert_eq!(robot.direction(), Direction::Left);
    robot.turn_left();
    assert_eq!(robot.direction(), Direction::Down);
    robot.turn_left();
    assert_eq!(robot.direction(), Direction::Right);
    robot.turn_left();
    assert_eq!(robot.direction(), Direction::Up);
}

#[test]
fn test_robot_turn_right() {
    let mut robot = Robot::default();
    robot.turn_right();
    assert_eq!(robot.direction(), Direction::Right);
    robot.turn_right();
    assert_eq!(robot.direction(), Direction::Down);
    robot.turn_right();
    assert_eq!(robot.direction(), Direction::Left);
    robot.turn_right();
    assert_eq!(robot.direction(), Direction::Up);
}

#[test]
fn test_robot_pen_down_and_up() {
    let mut robot = Robot::default();
    assert!(!robot.is_drawing());
    robot.down_pen();
    assert!(robot.is_drawing());
    robot.up_pen();
    assert!(!robot.is_drawing());
}

#[test]
fn test_robot_builder_defaults() {
    let robot = RobotBuilder::default().build();
    assert_eq!(robot.x(), 0);
    assert_eq!(robot.y(), 0);
    assert_eq!(robot.direction(), Direction::Up);
    assert!(!robot.is_drawing());
}

#[test]
fn test_robot_builder_custom() {
    let robot = RobotBuilder::new()
        .x(5)
        .y(-3)
        .direction(Direction::Down)
        .drawing(true)
        .build();
    assert_eq!(robot.x(), 5);
    assert_eq!(robot.y(), -3);
    assert_eq!(robot.direction(), Direction::Down);
    assert!(robot.is_drawing());
}
