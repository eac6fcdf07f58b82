use uturtle::ast::Command;
use uturtle::parse::{CommandParser, ParseError, ParseErrorKind, Parser, TopLevelParser};

#[test]
fn turtle_command_parser() {
    assert!(CommandParser::new().parse("penup").is_ok());
    assert!(CommandParser::new().parse("pendown").is_ok());
    assert!(CommandParser::new().parse("turnleft").is_ok());
    assert!(CommandParser::new().parse("turnleft 22.7").is_ok());
    assert!(CommandParser::new().parse("turnright").is_ok());
    assert!(CommandParser::new().parse("turnright 12.3").is_ok());
    assert!(CommandParser::new().parse("pushloc").is_ok());
    assert!(CommandParser::new().parse("poploc").is_ok());
    assert!(CommandParser::new().parse("pushrot").is_ok());
    assert!(CommandParser::new().parse("poprot").is_ok());
    assert!(CommandParser::new().parse("go 1 3").is_ok());
    assert!(CommandParser::new().parse("gox 5.3").is_ok());
    assert!(CommandParser::new().parse("goy 44.2").is_ok());
    assert!(CommandParser::new().parse("penwidth 2").is_ok());
    assert!(CommandParser::new()
        .parse("pencolor 255,128 ,    128")
        .is_ok());

    assert!(CommandParser::new().parse("bleh").is_err());
    assert!(CommandParser::new().parse("penup pendown").is_err());
    assert!(CommandParser::new().parse("pushloc 22").is_err());
    assert!(CommandParser::new().parse("pencolor 255,128").is_err());
}

#[test]
fn turtle_program_parser() {
    assert!(TopLevelParser::new()
        .parse("turnright turnright 12.3 turnleft")
        .is_ok());
}

#[test]
fn parsed_commands_carry_fixed_point_values() {
    let p = Parser::new();
    assert_eq!(
        p.parse("move 22.7").unwrap(),
        vec![Command::Move(227_000)]
    );
    assert_eq!(p.parse("gox 5.3").unwrap(), vec![Command::GoX(53_000)]);
    assert_eq!(p.parse("goy 44.2").unwrap(), vec![Command::GoY(442_000)]);
    assert_eq!(p.parse("penwidth 2").unwrap(), vec![Command::PenWidth(20_000)]);
    assert_eq!(p.parse("move -3").unwrap(), vec![Command::Move(-30_000)]);
    assert_eq!(p.parse("move +3").unwrap(), vec![Command::Move(30_000)]);
    assert_eq!(
        p.parse("go 1 3").unwrap(),
        vec![Command::Go(10_000, 30_000)]
    );
    assert_eq!(
        p.parse("pencolor 255,128 ,    128").unwrap(),
        vec![Command::PenColor(255, 128, 128)]
    );
    // Only the first four fraction digits carry weight.
    assert_eq!(p.parse("move 1.23456").unwrap(), vec![Command::Move(12_345)]);
    assert_eq!(p.parse("move 0.00009").unwrap(), vec![Command::Move(0)]);
}

#[test]
fn turn_keywords_and_defaults() {
    let p = Parser::new();
    assert_eq!(p.parse("turnleft").unwrap(), vec![Command::Turn(900_000)]);
    assert_eq!(p.parse("turnright").unwrap(), vec![Command::Turn(-900_000)]);
    assert_eq!(
        p.parse("turnleft 22.7").unwrap(),
        vec![Command::Turn(227_000)]
    );
    assert_eq!(
        p.parse("turnright 12.3").unwrap(),
        vec![Command::Turn(-123_000)]
    );
    assert_eq!(
        p.parse("turnright turnright 12.3 turnleft").unwrap(),
        vec![
            Command::Turn(-900_000),
            Command::Turn(-123_000),
            Command::Turn(900_000)
        ]
    );
    assert_eq!(
        p.parse("direction 270").unwrap(),
        vec![Command::Direction(2_700_000)]
    );
}

#[test]
fn each_error_kind_has_an_input() {
    let p = Parser::new();
    assert_eq!(
        p.parse(",").unwrap_err(),
        ParseError {
            kind: ParseErrorKind::UnexpectedChar,
            start: 0,
            end: 1
        }
    );
    assert_eq!(
        p.parse("bleh").unwrap_err(),
        ParseError {
            kind: ParseErrorKind::UnknownCommand,
            start: 0,
            end: 4
        }
    );
    assert_eq!(
        p.parse("move").unwrap_err().kind,
        ParseErrorKind::ExpectedNumber
    );
    assert_eq!(
        p.parse("move -").unwrap_err().kind,
        ParseErrorKind::MalformedNumber
    );
    assert_eq!(
        p.parse("move 1.").unwrap_err().kind,
        ParseErrorKind::MalformedNumber
    );
    assert_eq!(
        p.parse("pencolor 1 2").unwrap_err().kind,
        ParseErrorKind::ExpectedComma
    );
    assert_eq!(
        p.parse("pencolor 255,128").unwrap_err().kind,
        ParseErrorKind::ExpectedComma
    );
    assert_eq!(
        p.parse("pencolor 300,0,0").unwrap_err().kind,
        ParseErrorKind::BadColorComponent
    );
    assert_eq!(
        p.parse("pencolor -1,0,0").unwrap_err().kind,
        ParseErrorKind::BadColorComponent
    );
    assert_eq!(
        p.parse("pencolor 1.5,0,0").unwrap_err().kind,
        ParseErrorKind::BadColorComponent
    );
    assert_eq!(
        CommandParser::new().parse("penup pendown").unwrap_err().kind,
        ParseErrorKind::TrailingInput
    );
    assert_eq!(
        CommandParser::new().parse("").unwrap_err().kind,
        ParseErrorKind::ExpectedCommand
    );
    assert_eq!(
        CommandParser::new().parse("   ").unwrap_err().kind,
        ParseErrorKind::ExpectedCommand
    );
}

#[test]
fn whitespace_and_empty_programs() {
    let p = Parser::new();
    assert_eq!(p.parse("").unwrap(), vec![]);
    assert_eq!(p.parse(" \t\r\n ").unwrap(), vec![]);
    assert_eq!(
        p.parse("  penup\n pendown\t").unwrap(),
        vec![Command::PenUp, Command::PenDown]
    );
    assert_eq!(p.parse("reset").unwrap(), vec![Command::Reset]);
}

#[test]
fn huge_numerals_saturate() {
    let p = Parser::new();
    assert_eq!(
        p.parse("move 99999999999999999999999").unwrap(),
        vec![Command::Move(1_000_000_000_000)]
    );
    assert_eq!(
        p.parse("move -99999999999999999999999").unwrap(),
        vec![Command::Move(-1_000_000_000_000)]
    );
}
