use hyperion::editor::StatusMessage;
use hyperion::goto::{go_to_target, parse_go_to, parse_usize};

#[test]
fn parse_go_to_reads_one_based_coordinates() {
    assert_eq!(parse_go_to("3,4"), Ok((2, 3)));
    assert_eq!(parse_go_to(" 3 ,\t4 "), Ok((2, 3)));
    assert_eq!(parse_go_to("+1,1"), Ok((0, 0)));
}

#[test]
fn parse_go_to_rejects_bad_format() {
    assert_eq!(parse_go_to("3"), Err(StatusMessage::InvalidFormat));
    assert_eq!(parse_go_to("1,2,3"), Err(StatusMessage::InvalidFormat));
    assert_eq!(parse_go_to(""), Err(StatusMessage::InvalidFormat));
}

#[test]
fn parse_go_to_rejects_non_numbers() {
    assert_eq!(parse_go_to("a,1"), Err(StatusMessage::InvalidNumbers));
    assert_eq!(parse_go_to("1,"), Err(StatusMessage::InvalidNumbers));
    assert_eq!(parse_go_to("-1,2"), Err(StatusMessage::InvalidNumbers));
    assert_eq!(parse_go_to("1,99999999999999999999999"), Err(StatusMessage::InvalidNumbers));
}

#[test]
fn parse_go_to_rejects_zero() {
    assert_eq!(parse_go_to("0,1"), Err(StatusMessage::LinesStartAtOne));
    assert_eq!(parse_go_to("1, 0"), Err(StatusMessage::LinesStartAtOne));
}

#[test]
fn go_to_target_takes_trimmed_parts() {
    assert_eq!(go_to_target("10", "2"), Ok((9, 1)));
    assert_eq!(go_to_target(" 10", "2"), Err(StatusMessage::InvalidNumbers));
}

#[test]
fn parse_usize_matches_std() {
    for text in ["0", "7", "+12", "", "+", "-3", "12a", "18446744073709551615", "18446744073709551616", "00042"] {
        assert_eq!(parse_usize(text), text.parse::<usize>().ok(), "{}", text);
    }
}
