use cue_sheet::errors::{Error, SyntaxError};
use cue_sheet::parser::{parse_cue, Command, FileFormat, Time, Token, TrackFlag, TrackType};

#[test]
fn catalog_number_is_rendered_as_thirteen_digits() {
    let commands = parse_cue("CATALOG 12").unwrap();
    assert_eq!(commands.len(), 1);
    assert_eq!(commands[0], Command::Catalog("0000000000012".to_string()));
}

#[test]
fn keywords_are_case_insensitive() {
    let commands = parse_cue("title \"Loveless\"").unwrap();
    assert_eq!(commands, vec![Command::Title("Loveless".to_string())]);

    let commands = parse_cue("TiTlE \"Loveless\"").unwrap();
    assert_eq!(commands, vec![Command::Title("Loveless".to_string())]);
}

#[test]
fn file_command_carries_path_and_format() {
    let commands = parse_cue("FILE \"a.wav\" wave").unwrap();
    assert_eq!(
        commands,
        vec![Command::File("a.wav".to_string(), FileFormat::Wave)]
    );
}

#[test]
fn flags_consume_all_recognizable_flags() {
    let commands = parse_cue("FLAGS DCP 4CH PRE SCMS TITLE \"x\"").unwrap();
    assert_eq!(commands.len(), 2);
    assert_eq!(
        commands[0],
        Command::Flags(vec![
            TrackFlag::Dcp,
            TrackFlag::FourChannel,
            TrackFlag::Pre,
            TrackFlag::Scms,
        ])
    );
    assert_eq!(commands[1], Command::Title("x".to_string()));
}

#[test]
fn flags_without_any_flag_are_an_error() {
    assert_eq!(
        parse_cue("FLAGS 10:10:10"),
        Err(Error::Syntax(SyntaxError::EmptyFlags))
    );
}

#[test]
fn rem_keeps_the_raw_token() {
    let commands = parse_cue("REM DISCID 860B640B").unwrap();
    assert_eq!(
        commands,
        vec![Command::Rem(
            "DISCID".to_string(),
            Token::String("860B640B".to_string()),
        )]
    );

    let commands = parse_cue("REM LENGTH 10:11:12").unwrap();
    assert_eq!(
        commands,
        vec![Command::Rem(
            "LENGTH".to_string(),
            Token::Time(Time::new(10, 11, 12)),
        )]
    );
}

#[test]
fn index_and_track_and_gap_commands() {
    let commands = parse_cue("INDEX 01 00:02:00 TRACK 02 AUDIO PREGAP 00:02:00 POSTGAP 00:01:00")
        .unwrap();
    assert_eq!(
        commands,
        vec![
            Command::Index(1, Time::new(0, 2, 0)),
            Command::Track(2, TrackType::Audio),
            Command::Pregap(Time::new(0, 2, 0)),
            Command::Postgap(Time::new(0, 1, 0)),
        ]
    );
}

#[test]
fn string_argument_commands() {
    let commands =
        parse_cue("PERFORMER \"A\" SONGWRITER \"B\" ISRC USRC17607839 CDTEXTFILE \"c.txt\"")
            .unwrap();
    assert_eq!(
        commands,
        vec![
            Command::Performer("A".to_string()),
            Command::Songwriter("B".to_string()),
            Command::Isrc("USRC17607839".to_string()),
            Command::Cdtextfile("c.txt".to_string()),
        ]
    );
}

#[test]
fn unknown_keyword_is_an_error() {
    assert_eq!(
        parse_cue("BOGUS \"x\""),
        Err(Error::Syntax(SyntaxError::UnknownKeyword))
    );
}

#[test]
fn ending_mid_command_is_an_error() {
    assert_eq!(
        parse_cue("TITLE"),
        Err(Error::Syntax(SyntaxError::EndOfTokens))
    );
}

#[test]
fn wrong_token_kinds_are_errors() {
    assert_eq!(
        parse_cue("TITLE 10:10:10"),
        Err(Error::Syntax(SyntaxError::ExpectedString))
    );
    assert_eq!(
        parse_cue("INDEX xyz 00:00:00"),
        Err(Error::Syntax(SyntaxError::ExpectedNumber))
    );
    assert_eq!(
        parse_cue("PREGAP nottime"),
        Err(Error::Syntax(SyntaxError::ExpectedTime))
    );
}

#[test]
fn unknown_enum_keywords_are_errors() {
    assert_eq!(
        parse_cue("FILE \"a.wav\" FLAC"),
        Err(Error::Syntax(SyntaxError::UnknownFileFormat))
    );
    assert_eq!(
        parse_cue("TRACK 01 VIDEO"),
        Err(Error::Syntax(SyntaxError::UnknownTrackType))
    );
    assert_eq!(
        TrackFlag::from_str("xyz"),
        Err(Error::Syntax(SyntaxError::UnknownTrackFlag))
    );
}

#[test]
fn format_and_type_keyword_tables() {
    assert_eq!(FileFormat::from_str("mp3"), Ok(FileFormat::Mp3));
    assert_eq!(FileFormat::from_str("AIFF"), Ok(FileFormat::Aiff));
    assert_eq!(FileFormat::from_str("Motorola"), Ok(FileFormat::Motorola));
    assert_eq!(TrackType::from_str("CDG"), Ok(TrackType::Cdg));
    assert_eq!(TrackType::from_str("MODE1/2048"), Ok(TrackType::Mode(1, 2048)));
    assert_eq!(TrackType::from_str("MODE1/2352"), Ok(TrackType::Mode(1, 2352)));
    assert_eq!(TrackType::from_str("MODE2/2048"), Ok(TrackType::Mode(2, 2048)));
    assert_eq!(TrackType::from_str("MODE2/2324"), Ok(TrackType::Mode(2, 2324)));
    assert_eq!(TrackType::from_str("MODE2/2336"), Ok(TrackType::Mode(2, 2336)));
    assert_eq!(TrackType::from_str("MODE2/2352"), Ok(TrackType::Mode(2, 2352)));
    assert_eq!(TrackType::from_str("CDI/2352"), Ok(TrackType::Cdi(2352)));
    assert_eq!(TrackFlag::from_str("dcp"), Ok(TrackFlag::Dcp));
}
