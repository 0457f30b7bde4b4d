use cue_sheet::errors::{Error, SyntaxError};
use cue_sheet::parser::Time;

#[test]
fn components_are_kept() {
    let time = Time::new(1, 2, 3);
    assert_eq!(time.minutes(), 1);
    assert_eq!(time.seconds(), 2);
    assert_eq!(time.frames(), 3);
}

#[test]
fn total_frames_exact_values() {
    assert_eq!(Time::new(1, 2, 3).total_frames(), 4653);
    assert_eq!(Time::new(2, 30, 5).total_frames(), 11255);
    assert_eq!(Time::new(0, 0, 0).total_frames(), 0);
}

#[test]
fn from_frames_normalizes() {
    assert_eq!(Time::from_frames(200), Time::new(0, 2, 50));
    assert_eq!(Time::from_frames(4653), Time::new(1, 2, 3));
    assert_eq!(Time::from_frames(0), Time::new(0, 0, 0));
}

#[test]
fn frames_round_trip() {
    let samples = vec![
        Time::new(0, 0, 0),
        Time::new(0, 0, 74),
        Time::new(0, 59, 74),
        Time::new(10, 11, 12),
        Time::new(99, 59, 74),
        Time::new(2000, 30, 40),
    ];
    for t in samples {
        assert_eq!(Time::from_frames(t.total_frames()), t);
    }
}

#[test]
fn display_round_trip() {
    let samples = vec![
        Time::new(0, 0, 0),
        Time::new(10, 11, 12),
        Time::new(99, 59, 74),
    ];
    for t in samples {
        assert_eq!(Time::parse(&t.to_string()), Ok(t));
    }
}

#[test]
fn display_exact_forms() {
    assert_eq!(Time::new(4, 17, 52).to_string(), "04:17:52".to_string());
    assert_eq!(Time::new(0, 0, 0).to_string(), "00:00:00".to_string());
    assert_eq!(Time::new(100, 2, 3).to_string(), "100:02:03".to_string());
    assert_eq!(Time::new(2, 30, 0).to_string_2(), "02:30".to_string());
}

#[test]
fn parse_accepts_only_the_strict_form() {
    assert_eq!(Time::parse("10:11:12"), Ok(Time::new(10, 11, 12)));
    assert_eq!(
        Time::parse("10:11"),
        Err(Error::Syntax(SyntaxError::BadTimecode))
    );
    assert_eq!(
        Time::parse("10-11-12"),
        Err(Error::Syntax(SyntaxError::BadTimecode))
    );
    assert_eq!(
        Time::parse("1a:11:12"),
        Err(Error::Syntax(SyntaxError::BadTimecode))
    );
    assert_eq!(
        Time::parse("10:11:120"),
        Err(Error::Syntax(SyntaxError::BadTimecode))
    );
}

#[test]
fn subtracting_a_time_from_itself_is_zero() {
    let t = Time::new(12, 34, 56);
    assert_eq!(t.saturating_sub(t), Time::new(0, 0, 0));
}

#[test]
fn subtraction_saturates_at_zero() {
    let small = Time::new(0, 2, 0);
    let big = Time::new(1, 0, 0);
    assert_eq!(small.saturating_sub(big), Time::new(0, 0, 0));
    assert_eq!(big.saturating_sub(small), Time::new(0, 58, 0));
}
