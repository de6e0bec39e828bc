use robot_commands::error::Error;
use robot_commands::interpreter::{Interpreter, Scanner};

#[test]
fn test_move_command() {
    let mut interpreter = Interpreter::new("move 10");
    let commands = interpreter.interpret().unwrap();
    assert_eq!(commands.commands().len(), 1);
}

#[test]
fn test_turn_left_command() {
    let mut interpreter = Interpreter::new("turn_left 90");
    let commands = interpreter.interpret().unwrap();
    assert_eq!(commands.commands().len(), 1);
}

#[test]
fn test_turn_right_command() {
    let mut interpreter = Interpreter::new("turn_right 45");
    let commands = interpreter.interpret().unwrap();
    assert_eq!(commands.commands().len(), 1);
}

#[test]
fn test_down_pen_command() {
    let mut interpreter = Interpreter::new("down_pen");
    let commands = interpreter.interpret().unwrap();
    assert_eq!(commands.commands().len(), 1);
}

#[test]
fn test_up_pen_command() {
    let mut interpreter = Interpreter::new("up_pen");
    let commands = interpreter.interpret().unwrap();
    assert_eq!(commands.commands().len(), 1);
}

#[test]
fn test_multiple_commands() {
    let mut interpreter = Interpreter::new("move 10 turn_left 90 move 5 down_pen up_pen");
    let commands = interpreter.interpret().unwrap();
    assert_eq!(commands.commands().len(), 5);
}

#[test]
fn test_invalid_command() {
    let mut interpreter = Interpreter::new("fly 10");
    let result = interpreter.interpret();
    assert!(matches!(result, Err(Error::UndefinedCommand(_))));
}

#[test]
fn test_missing_number_after_move() {
    let mut interpreter = Interpreter::new("move");
    let result = interpreter.interpret();
    assert!(matches!(result, Err(Error::InvalidCommand)));
}

#[test]
fn test_unexpected_token() {
    let mut interpreter = Interpreter::new("move up_pen");
    let result = interpreter.interpret();
    assert!(matches!(result, Err(Error::UnexpectedToken(_))));
}

#[test]
fn test_invalid_character() {
    let mut scanner = Scanner::new("move@10");
    let result = scanner.next_token();
    assert!(matches!(result, Err(Error::UndefinedCommand(_))));
}

#[test]
fn test_invalid_number() {
    let mut scanner = Scanner::new("123abc");
    let token = scanner.next_token();
    assert!(matches!(token, Err(Error::InvalidCommandParameter(_))));
}
