use robo_remote::protocol::message::{Message, Speed, SPEED_MAG_CAP};
use robo_remote::protocol::parser::{get_sepparator_index, parse, ParsingError};

#[test]
fn parse_chassis_test() {
    let message = "LSPEED:25.0;";
    assert_eq!(parse(message), Ok(Message::LeftSpeed(Speed::from_hundredths(2500))));

    let message = "RSPEED:25.08;";
    assert_eq!(parse(message), Ok(Message::RightSpeed(Speed::from_hundredths(2508))));

    let message = "STOP:;";
    assert_eq!(parse(message), Ok(Message::Stop));
}

#[test]
fn parse_value_error_test() {
    let message = "LSPEED:;";
    assert_eq!(parse(message), Err(ParsingError::ValueCanNotBeParsed));
}

#[test]
fn parse_not_a_comand_error_test() {
    let message = "STO:;";
    assert_eq!(parse(message), Err(ParsingError::NotAComand));
}

#[test]
fn parse_sepparator_error_test() {
    let message = "LSPEED;";
    assert_eq!(parse(message), Err(ParsingError::NoSepparator));

    let message = "LSPEED:4";
    assert_eq!(parse(message), Err(ParsingError::NoSepparator));
}

#[test]
fn parse_signs_and_fractions() {
    assert_eq!(parse("LSPEED:-12.5;"), Ok(Message::LeftSpeed(Speed::from_hundredths(-1250))));
    assert_eq!(parse("LSPEED:+3;"), Ok(Message::LeftSpeed(Speed::from_hundredths(300))));
    assert_eq!(parse("LSPEED:.5;"), Ok(Message::LeftSpeed(Speed::from_hundredths(50))));
    assert_eq!(parse("LSPEED:2.;"), Ok(Message::LeftSpeed(Speed::from_hundredths(200))));
    // digits past the second fractional place are truncated toward zero
    assert_eq!(parse("RSPEED:25.089;"), Ok(Message::RightSpeed(Speed::from_hundredths(2508))));
    // negative zero decodes equal to zero
    assert_eq!(parse("LSPEED:-0.0;"), Ok(Message::LeftSpeed(Speed::from_hundredths(0))));
}

#[test]
fn parse_rejects_bad_values() {
    assert_eq!(parse("LSPEED:1.2.3;"), Err(ParsingError::ValueCanNotBeParsed));
    assert_eq!(parse("LSPEED:.;"), Err(ParsingError::ValueCanNotBeParsed));
    assert_eq!(parse("LSPEED:-;"), Err(ParsingError::ValueCanNotBeParsed));
    assert_eq!(parse("RSPEED:five;"), Err(ParsingError::ValueCanNotBeParsed));
    assert_eq!(parse("LSPEED:1 2;"), Err(ParsingError::ValueCanNotBeParsed));
}

#[test]
fn parse_missing_delimiters() {
    assert_eq!(parse(""), Err(ParsingError::NoSepparator));
    assert_eq!(parse("12.5"), Err(ParsingError::NoSepparator));
    assert_eq!(parse(";"), Err(ParsingError::NoSepparator));
}

#[test]
fn parse_unknown_tokens() {
    assert_eq!(parse("X:1;"), Err(ParsingError::NotAComand));
    assert_eq!(parse("lspeed:1;"), Err(ParsingError::NotAComand));
    assert_eq!(parse(":1;"), Err(ParsingError::NotAComand));
}

#[test]
fn parse_reads_only_the_first_clause() {
    assert_eq!(
        parse("LSPEED:1;RSPEED:2;"),
        Ok(Message::LeftSpeed(Speed::from_hundredths(100)))
    );
    // the STOP value is present but ignored
    assert_eq!(parse("STOP:whatever;"), Ok(Message::Stop));
}

#[test]
fn parse_saturates_huge_values() {
    let decoded = parse("LSPEED:999999999999999999999;");
    assert_eq!(decoded, Ok(Message::LeftSpeed(Speed { neg: false, mag: SPEED_MAG_CAP })));
}

#[test]
fn sepparator_index_is_the_first_hit() {
    assert_eq!(get_sepparator_index("a;b;c", ';'), Some(1));
    assert_eq!(get_sepparator_index(";", ';'), Some(0));
    assert_eq!(get_sepparator_index("abc", ';'), None);
    assert_eq!(get_sepparator_index("", ';'), None);
}

#[test]
fn speed_truncates_to_whole_points() {
    assert_eq!(Speed::from_hundredths(2508).to_i16(), 25);
    assert_eq!(Speed::from_hundredths(-2508).to_i16(), -25);
    assert_eq!(Speed::from_hundredths(99).to_i16(), 0);
    assert_eq!(Speed::from_hundredths(-99).to_i16(), 0);
    assert_eq!(Speed::from_hundredths(10000).to_i16(), 100);
    // saturation at the i16 range
    assert_eq!(Speed::from_hundredths(i64::MAX).to_i16(), 32767);
    assert_eq!(Speed::from_hundredths(i64::MIN).to_i16(), -32768);
}

#[test]
fn default_message_is_stop() {
    assert_eq!(Message::default(), Message::Stop);
}

#[test]
fn parsing_error_describes_itself() {
    assert_eq!(ParsingError::NoSepparator.message(), "Can't parse the message");
}
