//! End-to-end checks of the interpret / execute / rollback pipeline and the
//! documented edge cases.

use robot_commands::command::{Command, CommandList, MoveCommand, TurnLeftCommand, TurnRightCommand};
use robot_commands::error::Error;
use robot_commands::interpreter::{Interpreter, Scanner, Token};
use robot_commands::robot::{Direction, Robot, RobotBuilder};

#[test]
fn interpret_execute_rollback_restores_state() {
    let mut robot = RobotBuilder::new()
        .x(7)
        .y(-2)
        .direction(Direction::Right)
        .build();
    let mut interpreter = Interpreter::new("move 10 turn_left 90 move 5 turn_right 3");
    let mut commands = interpreter.interpret().unwrap();
    commands.execute_all(&mut robot).unwrap();
    commands.rollback_all(&mut robot).unwrap();
    assert_eq!(robot.x(), 7);
    assert_eq!(robot.y(), -2);
    assert_eq!(robot.direction(), Direction::Right);
}

#[test]
fn turn_commands_normalize_modulo_four() {
    // TurnLeftCommand::new(5) behaves exactly like TurnLeftCommand::new(1).
    let mut a = Robot::default();
    let mut b = Robot::default();
    TurnLeftCommand::new(5).execute(&mut a).unwrap();
    TurnLeftCommand::new(1).execute(&mut b).unwrap();
    assert_eq!(a.direction(), b.direction());

    // TurnRightCommand::new(90) behaves exactly like TurnRightCommand::new(2).
    let mut c = Robot::default();
    let mut d = Robot::default();
    TurnRightCommand::new(90).execute(&mut c).unwrap();
    TurnRightCommand::new(2).execute(&mut d).unwrap();
    assert_eq!(c.direction(), d.direction());
}

#[test]
fn four_left_turns_leave_heading_unchanged() {
    let mut robot = Robot::new(3, 4, Direction::Left, false);
    let cmd = TurnLeftCommand::new(1);
    for _ in 0..4 {
        cmd.execute(&mut robot).unwrap();
    }
    assert_eq!(robot.direction(), Direction::Left);

    // A count that is a multiple of four is normalized to zero turns.
    let mut other = Robot::default();
    TurnLeftCommand::new(8).execute(&mut other).unwrap();
    assert_eq!(other.direction(), Direction::Up);
}

#[test]
fn move_ten_from_origin_lands_at_ten_up() {
    let mut interpreter = Interpreter::new("move 10");
    let mut commands = interpreter.interpret().unwrap();
    assert_eq!(commands.commands().len(), 1);
    assert!(matches!(commands.commands()[0], Command::Move(m) if m.distance == 10));
    let mut robot = Robot::default();
    commands.execute_all(&mut robot).unwrap();
    assert_eq!(robot.x(), 0);
    assert_eq!(robot.y(), 10);
    assert_eq!(robot.direction(), Direction::Up);
}

#[test]
fn turn_right_two_from_up_yields_down_and_back() {
    let mut interpreter = Interpreter::new("turn_right 2");
    let mut commands = interpreter.interpret().unwrap();
    assert_eq!(commands.commands().len(), 1);
    assert!(matches!(commands.commands()[0], Command::TurnRight(t) if t.times == 2));
    let mut robot = Robot::default();
    commands.execute_all(&mut robot).unwrap();
    assert_eq!(robot.direction(), Direction::Down);
    commands.rollback_all(&mut robot).unwrap();
    assert_eq!(robot.direction(), Direction::Up);
}

#[test]
fn five_commands_come_out_in_order() {
    let mut interpreter = Interpreter::new("move 10 turn_left 90 move 5 down_pen up_pen");
    let commands = interpreter.interpret().unwrap();
    let list = commands.commands();
    assert_eq!(list.len(), 5);
    assert!(matches!(list[0], Command::Move(m) if m.distance == 10));
    assert!(matches!(list[1], Command::TurnLeft(t) if t.times == 2)); // 90 % 4
    assert!(matches!(list[2], Command::Move(m) if m.distance == 5));
    assert!(matches!(list[3], Command::DownPen(_)));
    assert!(matches!(list[4], Command::UpPen(_)));
}

#[test]
fn unknown_keyword_is_undefined_command() {
    let mut interpreter = Interpreter::new("fly 10");
    let result = interpreter.interpret();
    assert!(matches!(result, Err(Error::UndefinedCommand(s)) if s == "fly"));
}

#[test]
fn keyword_at_end_is_invalid_command() {
    let mut interpreter = Interpreter::new("turn_left");
    let result = interpreter.interpret();
    assert!(matches!(result, Err(Error::InvalidCommand)));
}

#[test]
fn pen_token_in_place_of_number_is_unexpected_token() {
    let mut interpreter = Interpreter::new("move up_pen");
    let result = interpreter.interpret();
    assert!(matches!(result, Err(Error::UnexpectedToken(Token::UpPen))));
}

#[test]
fn number_in_command_position_is_unexpected_token() {
    let mut interpreter = Interpreter::new("7 move 1");
    let result = interpreter.interpret();
    assert!(matches!(result, Err(Error::UnexpectedToken(Token::Number(7)))));
}

#[test]
fn stray_symbol_is_unexpected_character() {
    let mut interpreter = Interpreter::new("@ move 1");
    let result = interpreter.interpret();
    assert!(matches!(result, Err(Error::UnexpectedCharacter('@'))));
}

#[test]
fn oversized_number_is_invalid_parameter() {
    let mut interpreter = Interpreter::new("move 4294967296");
    let result = interpreter.interpret();
    assert!(matches!(result, Err(Error::InvalidCommandParameter(s)) if s == "4294967296"));
}

#[test]
fn largest_number_still_parses() {
    let mut interpreter = Interpreter::new("move 4294967295");
    let commands = interpreter.interpret().unwrap();
    assert!(matches!(commands.commands()[0], Command::Move(m) if m.distance == u32::MAX));
}

#[test]
fn move_at_boundary_is_out_of_bounds_and_position_kept() {
    let mut robot = Robot::new(0, i32::MAX, Direction::Up, false);
    let result = robot.move_forward();
    assert!(matches!(result, Err(Error::OutOfBounds)));
    assert_eq!(robot.x(), 0);
    assert_eq!(robot.y(), i32::MAX);

    let mut on_left_edge = Robot::new(i32::MIN, 0, Direction::Left, false);
    assert!(matches!(on_left_edge.move_forward(), Err(Error::OutOfBounds)));
    assert_eq!(on_left_edge.x(), i32::MIN);
    assert_eq!(on_left_edge.y(), 0);
}

#[test]
fn failed_move_keeps_partial_progress() {
    let mut robot = Robot::new(0, i32::MAX - 2, Direction::Up, false);
    let cmd = MoveCommand::new(5);
    assert!(matches!(cmd.execute(&mut robot), Err(Error::OutOfBounds)));
    // The two successful steps before the failure are not undone here.
    assert_eq!(robot.y(), i32::MAX);
}

#[test]
fn pen_rollback_sets_fixed_state_not_prior_state() {
    // The pen was already down; rolling back "down_pen" still raises it.
    let mut robot = RobotBuilder::new().drawing(true).build();
    let mut interpreter = Interpreter::new("down_pen");
    let mut commands = interpreter.interpret().unwrap();
    commands.execute_all(&mut robot).unwrap();
    assert!(robot.is_drawing());
    commands.rollback_all(&mut robot).unwrap();
    assert!(!robot.is_drawing());
}

#[test]
fn empty_input_interprets_to_empty_list() {
    let mut interpreter = Interpreter::new("");
    let mut commands = interpreter.interpret().unwrap();
    assert_eq!(commands.commands().len(), 0);
    let mut robot = Robot::default();
    commands.execute_all(&mut robot).unwrap();
    commands.rollback_all(&mut robot).unwrap();
    assert_eq!(robot.x(), 0);
    assert_eq!(robot.y(), 0);
}

#[test]
fn mixed_whitespace_separates_tokens() {
    let mut interpreter = Interpreter::new("  move\t10\nturn_left  1 ");
    let mut commands = interpreter.interpret().unwrap();
    assert_eq!(commands.commands().len(), 2);
    let mut robot = Robot::default();
    commands.execute_all(&mut robot).unwrap();
    assert_eq!(robot.y(), 10);
    assert_eq!(robot.direction(), Direction::Left);
}

#[test]
fn non_ascii_letter_starts_a_keyword_scan() {
    let mut interpreter = Interpreter::new("élan 1");
    let result = interpreter.interpret();
    assert!(matches!(result, Err(Error::UndefinedCommand(s)) if s == "élan"));
}

#[test]
fn scripted_command_list_executes_and_rolls_back() {
    let mut list = CommandList::new();
    list.add_command(Command::Move(MoveCommand::new(1)));
    list.add_command(Command::TurnLeft(TurnLeftCommand::new(3)));
    list.add_command(Command::Move(MoveCommand::new(2)));
    list.add_command(Command::TurnRight(TurnRightCommand::new(2)));
    list.add_command(Command::Move(MoveCommand::new(3)));
    let mut robot = Robot::default();
    list.execute_all(&mut robot).unwrap();
    // Up 1, then facing Right after 3 left turns, 2 ahead, turned to Left, 3 ahead.
    assert_eq!(robot.x(), -1);
    assert_eq!(robot.y(), 1);
    assert_eq!(robot.direction(), Direction::Left);
    list.rollback_all(&mut robot).unwrap();
    assert_eq!(robot.x(), 0);
    assert_eq!(robot.y(), 0);
    assert_eq!(robot.direction(), Direction::Up);
}

#[test]
fn scanner_yields_tokens_then_none() {
    let mut scanner = Scanner::new("move 10");
    assert!(matches!(scanner.next_token(), Ok(Some(Token::Move))));
    assert!(matches!(scanner.next_token(), Ok(Some(Token::Number(10)))));
    assert!(matches!(scanner.next_token(), Ok(None)));
    assert!(matches!(scanner.next_token(), Ok(None)));
}
