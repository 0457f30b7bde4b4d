use cue_sheet::errors::{AssemblyError, Error};
use cue_sheet::parser::{parse_cue, Command, FileFormat, Time, TrackType};
use cue_sheet::tracklist::{Track, TrackFile, Tracklist};

#[test]
fn sample() {
    let source = r#"REM GENRE Alternative
                    REM DATE 1991
                    REM DISCID 860B640B
                    REM COMMENT "ExactAudioCopy v0.95b4"
                    PERFORMER "My Bloody Valentine"
                    TITLE "Loveless"
                    FILE "My Bloody Valentine - Loveless.wav" WAVE
                      TRACK 01 AUDIO
                        TITLE "Only Shallow"
                        PERFORMER "My Bloody Valentine"
                        INDEX 01 00:00:00
                      TRACK 02 AUDIO
                        TITLE "Loomer"
                        PERFORMER "My Bloody Valentine"
                        INDEX 01 04:17:52"#;

    let tracklist = Tracklist::parse(source).unwrap();
    assert_eq!(tracklist.title.unwrap(), "Loveless".to_string());

    let files = tracklist.files;
    assert_eq!(files.len(), 1);

    let ref f = files[0];
    assert_eq!(f.name, "My Bloody Valentine - Loveless.wav".to_string());
    assert_eq!(f.format, FileFormat::Wave);

    let ref tracks = f.tracks;
    assert_eq!(tracks.len(), 2);

    assert_eq!(tracks[0].clone().title.unwrap(), "Only Shallow".to_string());
    assert_eq!(tracks[0].track_type, TrackType::Audio);
    assert_eq!(tracks[0].duration, Some(Time::new(4, 17, 52)));
    assert_eq!(tracks[0].number, 1);
    assert_eq!(tracks[0].performer, Some("My Bloody Valentine".to_string()));

    assert_eq!(tracks[1].clone().title.unwrap(), "Loomer".to_string());
    assert_eq!(tracks[1].track_type, TrackType::Audio);
    assert_eq!(tracks[1].duration, None);
    assert_eq!(tracks[1].number, 2);
    assert_eq!(tracks[1].performer, Some("My Bloody Valentine".to_string()));
}

#[test]
fn pregap() {
    let src = r#"TITLE "Mixed Disc"
                   FILE "disc.img" BINARY
                     TRACK 01 MODE1/2352
                       TITLE "Data"
                       INDEX 01 00:00:00
                     TRACK 02 AUDIO
                       TITLE "First Song"
                       PREGAP 00:02:00
                       INDEX 01 58:41:36
                     TRACK 03 AUDIO
                       TITLE "Second Song"
                       INDEX 00 61:06:08
                       INDEX 01 61:08:08"#;

    let tracklist = Tracklist::parse(src).unwrap();

    let ref f = tracklist.files[0];
    let ref tracks = f.tracks;

    assert_eq!(tracks[0].index[0], (1, Time::new(0, 0, 0)));
    assert_eq!(tracks[1].index[0], (0, Time::new(58, 39, 36)));
    assert_eq!(tracks[1].index[1], (1, Time::new(58, 41, 36)));
    assert_eq!(tracks[2].index[0], (0, Time::new(61, 06, 08)));
    assert_eq!(tracks[2].index[1], (1, Time::new(61, 08, 08)));
}

#[test]
fn pregap_larger_than_its_index_time_saturates_at_zero() {
    let src = r#"TITLE "Album"
                   FILE "disc.img" BINARY
                     TRACK 01 AUDIO
                       TITLE "Song"
                       PREGAP 00:02:00
                       INDEX 01 00:01:00"#;
    let tracklist = Tracklist::parse(src).unwrap();
    let ref tracks = tracklist.files[0].tracks;
    assert_eq!(tracks[0].index[0], (0, Time::new(0, 0, 0)));
    assert_eq!(tracks[0].index[1], (1, Time::new(0, 1, 0)));
}

#[test]
fn missing_album_title_is_an_assembly_error() {
    let src = r#"FILE "disc.img" BINARY
                   TRACK 01 AUDIO
                     TITLE "Song"
                     INDEX 01 00:00:00"#;
    assert_eq!(
        Tracklist::parse(src),
        Err(Error::Assembly(AssemblyError::MissingAlbumTitle))
    );
}

#[test]
fn missing_track_title_is_an_assembly_error() {
    let src = r#"TITLE "Album"
                   FILE "disc.img" BINARY
                     TRACK 01 AUDIO
                       INDEX 01 00:00:00"#;
    assert_eq!(
        Tracklist::parse(src),
        Err(Error::Assembly(AssemblyError::MissingTrackTitle))
    );
}

#[test]
fn pregap_as_last_command_is_an_assembly_error() {
    let src = r#"TITLE "Album"
                   FILE "disc.img" BINARY
                     TRACK 01 AUDIO
                       TITLE "Song"
                       PREGAP 00:02:00"#;
    assert_eq!(
        Tracklist::parse(src),
        Err(Error::Assembly(AssemblyError::PregapAtEnd))
    );
}

#[test]
fn pregap_not_followed_by_index_is_an_assembly_error() {
    let src = r#"TITLE "Album"
                   FILE "disc.img" BINARY
                     TRACK 01 AUDIO
                       TITLE "Song"
                       PREGAP 00:02:00
                       POSTGAP 00:01:00"#;
    assert_eq!(
        Tracklist::parse(src),
        Err(Error::Assembly(AssemblyError::PregapWithoutIndex))
    );
}

#[test]
fn file_block_must_start_with_a_file_command() {
    let commands = vec![Command::Title("Album".to_string())];
    let mut pos: usize = 0;
    assert_eq!(
        TrackFile::consume(&commands, &mut pos),
        Err(Error::Assembly(AssemblyError::ExpectedFile))
    );
    assert_eq!(pos, 0);
}

#[test]
fn track_block_must_start_with_a_track_command() {
    let commands = vec![
        Command::File("disc.img".to_string(), FileFormat::Binary),
        Command::Pregap(Time::new(0, 2, 0)),
    ];
    let mut pos: usize = 0;
    let r = TrackFile::consume(&commands, &mut pos);
    assert!(r.is_ok());
    let f = r.unwrap();
    assert_eq!(f.tracks.len(), 0);
    assert_eq!(pos, 1);
}

#[test]
fn track_parser_rejects_a_leading_non_track_command() {
    let commands = vec![Command::Title("Album".to_string())];
    let mut pos: usize = 0;
    assert_eq!(
        Track::consume(&commands, &mut pos),
        Err(Error::Assembly(AssemblyError::ExpectedTrack))
    );
    assert_eq!(pos, 0);
}

#[test]
fn last_performer_and_title_win() {
    let src = r#"TITLE "First"
                   PERFORMER "A"
                   TITLE "Second"
                   PERFORMER "B"
                   FILE "disc.img" BINARY"#;
    let tracklist = Tracklist::parse(src).unwrap();
    assert_eq!(tracklist.title, Some("Second".to_string()));
    assert_eq!(tracklist.performer, Some("B".to_string()));
    assert_eq!(tracklist.files.len(), 1);
}

#[test]
fn track_without_index_breaks_the_duration_chain() {
    let src = r#"TITLE "Album"
                   FILE "disc.img" BINARY
                     TRACK 01 AUDIO
                       TITLE "One"
                       INDEX 01 00:00:00
                     TRACK 02 AUDIO
                       TITLE "Two"
                     TRACK 03 AUDIO
                       TITLE "Three"
                       INDEX 01 10:00:00"#;
    let tracklist = Tracklist::parse(src).unwrap();
    let ref tracks = tracklist.files[0].tracks;
    assert_eq!(tracks.len(), 3);
    assert_eq!(tracks[0].duration, None);
    assert_eq!(tracks[1].duration, None);
    assert_eq!(tracks[2].duration, None);
}

#[test]
fn assembling_the_same_commands_twice_gives_equal_tracklists() {
    let src = r#"TITLE "Loveless"
                   PERFORMER "My Bloody Valentine"
                   FILE "a.wav" WAVE
                     TRACK 01 AUDIO
                       TITLE "Only Shallow"
                       INDEX 01 00:00:00
                     TRACK 02 AUDIO
                       TITLE "Loomer"
                       INDEX 01 04:17:52"#;
    let commands = parse_cue(src).unwrap();
    let t1 = Tracklist::assemble(&commands).unwrap();
    let t2 = Tracklist::assemble(&commands).unwrap();
    assert_eq!(t1.files, t2.files);
    assert_eq!(t1.performer, t2.performer);
    assert_eq!(t1.title, t2.title);

    let t3 = Tracklist::parse(src).unwrap();
    assert_eq!(t1.files, t3.files);
    assert_eq!(t1.performer, t3.performer);
    assert_eq!(t1.title, t3.title);
}

#[test]
fn commands_after_the_last_file_are_ignored() {
    let src = r#"TITLE "Album"
                   FILE "disc.img" BINARY
                     TRACK 01 AUDIO
                       TITLE "Song"
                       INDEX 01 00:00:00
                   CATALOG 12"#;
    let tracklist = Tracklist::parse(src).unwrap();
    assert_eq!(tracklist.files.len(), 1);
    assert_eq!(tracklist.files[0].tracks.len(), 1);
}
