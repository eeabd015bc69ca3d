use robo_remote::protocol::encoder::{encode, normalize_axis, ADC_SHIFT};
use robo_remote::protocol::message::{Message, Speed};
use robo_remote::protocol::parser::parse;

#[test]
fn encode_renders_both_clauses() {
    let frame = encode(Speed::from_hundredths(2500), Speed::from_hundredths(-350));
    assert_eq!(frame.inner.as_str(), "LSPEED:25.00;\nRSPEED:-3.50;\n");
}

#[test]
fn encode_renders_zero_without_a_sign() {
    let frame = encode(Speed::from_hundredths(0), Speed::from_hundredths(10000));
    assert_eq!(frame.inner.as_str(), "LSPEED:0.00;\nRSPEED:100.00;\n");
}

#[test]
fn encode_renders_single_fraction_digits() {
    let frame = encode(Speed::from_hundredths(-10001), Speed::from_hundredths(7));
    assert_eq!(frame.inner.as_str(), "LSPEED:-100.01;\nRSPEED:0.07;\n");
}

#[test]
fn an_encoded_frame_decodes_back_to_the_left_command() {
    let left = Speed::from_hundredths(-4275);
    let right = Speed::from_hundredths(1800);
    let frame = encode(left, right);
    assert_eq!(parse(frame.inner.as_str()), Ok(Message::LeftSpeed(left)));
}

#[test]
fn the_second_clause_decodes_to_the_right_command() {
    let left = Speed::from_hundredths(-4275);
    let right = Speed::from_hundredths(1800);
    let frame = encode(left, right);
    let text = frame.inner.as_str();
    let second = &text[text.find('\n').unwrap() + 1..];
    assert_eq!(parse(second), Ok(Message::RightSpeed(right)));
}

#[test]
fn normalize_axis_spans_the_commanded_range() {
    // at or below the shift: hard backward
    assert_eq!(normalize_axis(0), Speed::from_hundredths(-10000));
    assert_eq!(normalize_axis(ADC_SHIFT), Speed::from_hundredths(-10000));
    // the midpoint of the re-mapped range: zero
    assert_eq!(normalize_axis(ADC_SHIFT + 880), Speed::from_hundredths(0));
    // a quarter in: minus fifty percent
    assert_eq!(normalize_axis(ADC_SHIFT + 440), Speed::from_hundredths(-5000));
    // far past the range: clamped to hard forward
    assert_eq!(normalize_axis(u16::MAX), Speed::from_hundredths(10000));
}

#[test]
fn a_normalized_axis_encodes_and_decodes_exactly() {
    let x = normalize_axis(ADC_SHIFT + 440);
    let y = normalize_axis(ADC_SHIFT + 880);
    let frame = encode(x, y);
    assert_eq!(frame.inner.as_str(), "LSPEED:-50.00;\nRSPEED:0.00;\n");
    assert_eq!(parse(frame.inner.as_str()), Ok(Message::LeftSpeed(x)));
}
