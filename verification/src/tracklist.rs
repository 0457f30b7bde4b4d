//! Generate a tracklist from a cue file.
//!
//! The assembler drains the ordered command sequence in two passes: an
//! album header (performer, title, remarks), then one block per File
//! command, each holding one block per Track command.  Derived fields —
//! a track's duration and the implicit index synthesized from a Pregap —
//! are computed here, since they are not explicit in the source text.

use vstd::prelude::*;

use crate::errors::{AssemblyError, Error};
use crate::parser;
use crate::parser::command::{spec_commands_view, Command, CommandView};
use crate::parser::{spec_saturating_sub, FileFormat, Time, TrackType};

verus! {

/// The mathematical value of an assembled tracklist.
pub struct TracklistView {
    /// The views of the files.
    pub files: Seq<TrackFileView>,
    /// The album performer, if any was stated.
    pub performer: Option<Seq<char>>,
    /// The album title.
    pub title: Option<Seq<char>>,
}

/// The mathematical value of one file of a tracklist.
pub struct TrackFileView {
    /// The views of the tracks carved out of the file.
    pub tracks: Seq<TrackView>,
    /// The filename.
    pub name: Seq<char>,
    /// The format of the file.
    pub format: FileFormat,
}

/// The mathematical value of one track.
pub struct TrackView {
    /// The track title.
    pub title: Option<Seq<char>>,
    /// The type of the track.
    pub track_type: TrackType,
    /// The inferred duration, if the next track's start is known.
    pub duration: Option<Time>,
    /// The (index number, time) pairs attached to the track.
    pub index: Seq<(u32, Time)>,
    /// The track number as declared in the sheet.
    pub number: u32,
    /// The track performer, if any was stated.
    pub performer: Option<Seq<char>>,
}

/// The view of an optional string.
pub open spec fn view_opt_str(o: Option<String>) -> Option<Seq<char>> {
    match o {
        Some(s) => Some(s@),
        None => None,
    }
}

/// True for a Track command.
pub open spec fn spec_is_track(c: CommandView) -> bool {
    match c {
        CommandView::Track(_, _) => true,
        _ => false,
    }
}

/// True for a File command.
pub open spec fn spec_is_file(c: CommandView) -> bool {
    match c {
        CommandView::File(_, _) => true,
        _ => false,
    }
}

/// The album header: drains leading Performer, Title and Rem commands,
/// recording the last-seen performer and title (later occurrences
/// overwrite earlier ones) and discarding remarks.  Returns the recorded
/// performer and title and the position of the first other command.
pub open spec fn spec_header(
    cmds: Seq<CommandView>,
    i: int,
    performer: Option<Seq<char>>,
    title: Option<Seq<char>>,
) -> (Option<Seq<char>>, Option<Seq<char>>, int)
    decreases cmds.len() - i,
{
    if 0 <= i < cmds.len() {
        match cmds[i] {
            CommandView::Performer(p) => spec_header(cmds, i + 1, Some(p), title),
            CommandView::Title(t) => spec_header(cmds, i + 1, performer, Some(t)),
            CommandView::Rem(_, _) => spec_header(cmds, i + 1, performer, title),
            _ => (performer, title, i),
        }
    } else {
        (performer, title, i)
    }
}

/// The header never moves the position backwards, nor past the end.
pub proof fn lemma_header_bounds(
    cmds: Seq<CommandView>,
    i: int,
    performer: Option<Seq<char>>,
    title: Option<Seq<char>>,
)
    requires
        0 <= i <= cmds.len(),
    ensures
        i <= spec_header(cmds, i, performer, title).2 <= cmds.len(),
    decreases cmds.len() - i,
{
    if i < cmds.len() {
        match cmds[i] {
            CommandView::Performer(p) => lemma_header_bounds(cmds, i + 1, Some(p), title),
            CommandView::Title(t) => lemma_header_bounds(cmds, i + 1, performer, Some(t)),
            CommandView::Rem(_, _) => lemma_header_bounds(cmds, i + 1, performer, title),
            _ => {},
        }
    }
}

/// One track's body: drains Performer, Title, Pregap and Index commands
/// into the track's fields.  A Pregap synthesizes an implicit index 0 at
/// (the following index's time minus the pregap duration) and leaves the
/// following Index command to be consumed normally.  Returns the drained
/// fields and the position of the first other command.
pub open spec fn spec_track_body(
    cmds: Seq<CommandView>,
    i: int,
    title: Option<Seq<char>>,
    performer: Option<Seq<char>>,
    index: Seq<(u32, Time)>,
) -> Result<(Option<Seq<char>>, Option<Seq<char>>, Seq<(u32, Time)>, int), Error>
    decreases cmds.len() - i,
{
    if 0 <= i < cmds.len() {
        match cmds[i] {
            CommandView::Performer(p) => spec_track_body(cmds, i + 1, title, Some(p), index),
            CommandView::Title(t) => spec_track_body(cmds, i + 1, Some(t), performer, index),
            CommandView::Pregap(g) => {
                if i + 1 < cmds.len() {
                    match cmds[i + 1] {
                        CommandView::Index(_, t1) => spec_track_body(
                            cmds,
                            i + 1,
                            title,
                            performer,
                            index.push((0u32, spec_saturating_sub(t1, g))),
                        ),
                        _ => Err(Error::Assembly(AssemblyError::PregapWithoutIndex)),
                    }
                } else {
                    Err(Error::Assembly(AssemblyError::PregapAtEnd))
                }
            },
            CommandView::Index(n, t) => spec_track_body(
                cmds,
                i + 1,
                title,
                performer,
                index.push((n, t)),
            ),
            _ => Ok((title, performer, index, i)),
        }
    } else {
        Ok((title, performer, index, i))
    }
}

/// A track body never moves the position backwards, nor past the end.
pub proof fn lemma_track_body_bounds(
    cmds: Seq<CommandView>,
    i: int,
    title: Option<Seq<char>>,
    performer: Option<Seq<char>>,
    index: Seq<(u32, Time)>,
)
    requires
        0 <= i <= cmds.len(),
    ensures
        match spec_track_body(cmds, i, title, performer, index) {
            Ok(b) => i <= b.3 <= cmds.len(),
            Err(_) => true,
        },
    decreases cmds.len() - i,
{
    if i < cmds.len() {
        match cmds[i] {
            CommandView::Performer(p) => lemma_track_body_bounds(cmds, i + 1, title, Some(p), index),
            CommandView::Title(t) => lemma_track_body_bounds(cmds, i + 1, Some(t), performer, index),
            CommandView::Pregap(g) => {
                if i + 1 < cmds.len() {
                    match cmds[i + 1] {
                        CommandView::Index(_, t1) => lemma_track_body_bounds(
                            cmds,
                            i + 1,
                            title,
                            performer,
                            index.push((0u32, spec_saturating_sub(t1, g))),
                        ),
                        _ => {},
                    }
                }
            },
            CommandView::Index(n, t) => lemma_track_body_bounds(
                cmds,
                i + 1,
                title,
                performer,
                index.push((n, t)),
            ),
            _ => {},
        }
    }
}

/// The track block starting at position `i`: a Track command followed by
/// its body.  A track without a Title command is a terminal error.  The
/// duration is `None` here; it is inferred later, when the next track's
/// first index becomes known.
pub open spec fn spec_track_at(cmds: Seq<CommandView>, i: int) -> Result<(TrackView, int), Error> {
    if 0 <= i < cmds.len() {
        match cmds[i] {
            CommandView::Track(number, ty) => match spec_track_body(
                cmds,
                i + 1,
                None,
                None,
                Seq::empty(),
            ) {
                Err(e) => Err(e),
                Ok(b) => match b.0 {
                    Some(_) => Ok(
                        (
                            TrackView {
                                title: b.0,
                                track_type: ty,
                                duration: None,
                                index: b.2,
                                number: number,
                                performer: b.1,
                            },
                            b.3,
                        ),
                    ),
                    None => Err(Error::Assembly(AssemblyError::MissingTrackTitle)),
                },
            },
            _ => Err(Error::Assembly(AssemblyError::ExpectedTrack)),
        }
    } else {
        Err(Error::Assembly(AssemblyError::ExpectedTrack))
    }
}

/// A successfully parsed track block always advances the position, and
/// never past the end.
pub proof fn lemma_track_at_bounds(cmds: Seq<CommandView>, i: int)
    ensures
        match spec_track_at(cmds, i) {
            Ok(p) => i < p.1 <= cmds.len(),
            Err(_) => true,
        },
{
    if 0 <= i < cmds.len() {
        lemma_track_body_bounds(cmds, i + 1, None, None, Seq::empty());
    }
}

/// Threads the one-track-lag duration inference: when the new track has
/// index entries and the previous track's last index time is known, the
/// previous track's duration becomes (new track's first index time minus
/// that last time); the new track's last index time is remembered for the
/// next step.  A track without index entries breaks the chain.
pub open spec fn spec_thread_tracks(
    acc: Seq<TrackView>,
    last: Option<Time>,
    t: TrackView,
) -> (Seq<TrackView>, Option<Time>) {
    if t.index.len() > 0 {
        let acc2 = match last {
            Some(start) => if acc.len() > 0 {
                acc.update(
                    acc.len() - 1,
                    TrackView {
                        title: acc.last().title,
                        track_type: acc.last().track_type,
                        duration: Some(spec_saturating_sub(t.index[0].1, start)),
                        index: acc.last().index,
                        number: acc.last().number,
                        performer: acc.last().performer,
                    },
                )
            } else {
                acc
            },
            None => acc,
        };
        (acc2.push(t), Some(t.index.last().1))
    } else {
        (acc.push(t), None)
    }
}

/// The run of track blocks starting at position `i`, with duration
/// inference threaded through, and the position of the first command that
/// is not a Track.
pub open spec fn spec_tracks(
    cmds: Seq<CommandView>,
    i: int,
    acc: Seq<TrackView>,
    last: Option<Time>,
) -> Result<(Seq<TrackView>, int), Error>
    decreases cmds.len() - i
        when 0 <= i <= cmds.len()
{
    proof {
        lemma_track_at_bounds(cmds, i);
    }
    if i < cmds.len() && spec_is_track(cmds[i]) {
        match spec_track_at(cmds, i) {
            Err(e) => Err(e),
            Ok(p) => {
                let stepped = spec_thread_tracks(acc, last, p.0);
                spec_tracks(cmds, p.1, stepped.0, stepped.1)
            },
        }
    } else {
        Ok((acc, i))
    }
}

/// A run of track blocks never moves the position backwards, nor past
/// the end.
pub proof fn lemma_tracks_bounds(
    cmds: Seq<CommandView>,
    i: int,
    acc: Seq<TrackView>,
    last: Option<Time>,
)
    requires
        0 <= i <= cmds.len(),
    ensures
        match spec_tracks(cmds, i, acc, last) {
            Ok(p) => i <= p.1 <= cmds.len(),
            Err(_) => true,
        },
    decreases cmds.len() - i,
{
    lemma_track_at_bounds(cmds, i);
    if i < cmds.len() && spec_is_track(cmds[i]) {
        match spec_track_at(cmds, i) {
            Err(_) => {},
            Ok(p) => {
                let stepped = spec_thread_tracks(acc, last, p.0);
                lemma_tracks_bounds(cmds, p.1, stepped.0, stepped.1);
            },
        }
    }
}

/// The file block starting at position `i`: a File command followed by
/// its track blocks.
pub open spec fn spec_file_at(cmds: Seq<CommandView>, i: int) -> Result<(TrackFileView, int), Error> {
    if 0 <= i < cmds.len() {
        match cmds[i] {
            CommandView::File(name, format) => match spec_tracks(cmds, i + 1, Seq::empty(), None) {
                Err(e) => Err(e),
                Ok(p) => Ok((TrackFileView { tracks: p.0, name: name, format: format }, p.1)),
            },
            _ => Err(Error::Assembly(AssemblyError::ExpectedFile)),
        }
    } else {
        Err(Error::Assembly(AssemblyError::ExpectedFile))
    }
}

/// A successfully parsed file block always advances the position, and
/// never past the end.
pub proof fn lemma_file_at_bounds(cmds: Seq<CommandView>, i: int)
    ensures
        match spec_file_at(cmds, i) {
            Ok(p) => i < p.1 <= cmds.len(),
            Err(_) => true,
        },
{
    if 0 <= i < cmds.len() {
        lemma_tracks_bounds(cmds, i + 1, Seq::empty(), None);
    }
}

/// The run of file blocks starting at position `i`, and the position of
/// the first command that is not a File (any such trailing commands are
/// ignored).
pub open spec fn spec_files(
    cmds: Seq<CommandView>,
    i: int,
    acc: Seq<TrackFileView>,
) -> Result<(Seq<TrackFileView>, int), Error>
    decreases cmds.len() - i
        when 0 <= i <= cmds.len()
{
    proof {
        lemma_file_at_bounds(cmds, i);
    }
    if i < cmds.len() && spec_is_file(cmds[i]) {
        match spec_file_at(cmds, i) {
            Err(e) => Err(e),
            Ok(p) => spec_files(cmds, p.1, acc.push(p.0)),
        }
    } else {
        Ok((acc, i))
    }
}

/// The tracklist denoted by a command sequence: the album header, then
/// the file blocks.  A missing album Title command is a terminal error,
/// never silently defaulted.
pub open spec fn spec_assemble(cmds: Seq<CommandView>) -> Result<TracklistView, Error> {
    let h = spec_header(cmds, 0, None, None);
    match h.1 {
        None => Err(Error::Assembly(AssemblyError::MissingAlbumTitle)),
        Some(_) => match spec_files(cmds, h.2, Seq::empty()) {
            Err(e) => Err(e),
            Ok(p) => Ok(TracklistView { files: p.0, performer: h.0, title: h.1 }),
        },
    }
}

/// The tracklist denoted by a whole cue sheet text, or the first error of
/// any stage.
pub open spec fn spec_tracklist(s: Seq<char>) -> Result<TracklistView, Error> {
    match parser::spec_parse_cue(s) {
        Ok(cs) => spec_assemble(cs),
        Err(e) => Err(e),
    }
}

/// One track described by a tracklist.
#[derive(Clone, Debug, PartialEq)]
pub struct Track {
    /// Title of the track.
    pub title: Option<String>,

    /// Type of the track.
    pub track_type: TrackType,

    /// Duration of the track, if it was possible to determine it.
    ///
    /// This is only possible if tracks have index commands attached to
    /// them.  Also note that with just a cue file it is usually not
    /// possible to determine the duration of the last track in the list.
    pub duration: Option<Time>,

    /// Index commands attached to this track (if any).
    pub index: Vec<(u32, Time)>,

    /// Track number as provided in the cue sheet.
    pub number: u32,

    /// The performer of the track if any was stated.
    pub performer: Option<String>,
}

impl View for Track {
    type V = TrackView;

    open spec fn view(&self) -> TrackView {
        TrackView {
            title: view_opt_str(self.title),
            track_type: self.track_type,
            duration: self.duration,
            index: self.index@,
            number: self.number,
            performer: view_opt_str(self.performer),
        }
    }
}

/// The views of a sequence of tracks.
pub open spec fn spec_tracks_view(ts: Seq<Track>) -> Seq<TrackView> {
    ts.map_values(|t: Track| t@)
}

/// One file described by a tracklist.
#[derive(Clone, Debug, PartialEq)]
pub struct TrackFile {
    /// List of tracks contained in the file.
    pub tracks: Vec<Track>,

    /// The filename.
    pub name: String,

    /// The format of the file.
    pub format: FileFormat,
}

impl View for TrackFile {
    type V = TrackFileView;

    open spec fn view(&self) -> TrackFileView {
        TrackFileView { tracks: spec_tracks_view(self.tracks@), name: self.name@, format: self.format }
    }
}

/// The views of a sequence of track files.
pub open spec fn spec_files_view(fs: Seq<TrackFile>) -> Seq<TrackFileView> {
    fs.map_values(|f: TrackFile| f@)
}

/// A tracklist provides a more useful representation of the information
/// of a cue sheet.
#[derive(Clone, Debug, PartialEq)]
pub struct Tracklist {
    /// Files described by the tracklist.
    pub files: Vec<TrackFile>,

    /// Performer of the tracklist.
    pub performer: Option<String>,

    /// Title of the tracklist.
    pub title: Option<String>,
}

impl View for Tracklist {
    type V = TracklistView;

    open spec fn view(&self) -> TracklistView {
        TracklistView {
            files: spec_files_view(self.files@),
            performer: view_opt_str(self.performer),
            title: view_opt_str(self.title),
        }
    }
}

impl Track {
    /// Parses one track block starting at the cursor, advancing it on
    /// success and leaving it unchanged on error.
    pub fn consume(commands: &Vec<Command>, pos: &mut usize) -> (r: Result<Track, Error>)
        ensures
            match r {
                Ok(t) => spec_track_at(spec_commands_view(commands@), *old(pos) as int) == Ok::<
                    (TrackView, int),
                    Error,
                >((t@, *final(pos) as int)),
                Err(e) => spec_track_at(spec_commands_view(commands@), *old(pos) as int) == Err::<
                    (TrackView, int),
                    Error,
                >(e) && *final(pos) == *old(pos),
            },
    {
        let ghost cv = spec_commands_view(commands@);
        let n = commands.len();
        let mut cur: usize = *pos;
        if cur >= n {
            return Err(Error::Assembly(AssemblyError::ExpectedTrack));
        }
        let (number, track_type) = match &commands[cur] {
            Command::Track(num, ty) => (*num, *ty),
            _ => {
                return Err(Error::Assembly(AssemblyError::ExpectedTrack));
            },
        };
        cur = cur + 1;
        let ghost start_body = cur as int;
        let mut title: Option<String> = None;
        let mut performer: Option<String> = None;
        let mut index: Vec<(u32, Time)> = Vec::new();
        proof {
            assert(index@ =~= Seq::<(u32, Time)>::empty());
        }
        loop
            invariant
                cv == spec_commands_view(commands@),
                cv.len() == commands@.len(),
                n == commands@.len(),
                0 <= *old(pos) < cv.len(),
                start_body == *old(pos) + 1,
                cv[*old(pos) as int] == CommandView::Track(number, track_type),
                *pos == *old(pos),
                start_body <= cur as int <= cv.len(),
                spec_track_body(cv, start_body, None, None, Seq::empty()) == spec_track_body(
                    cv,
                    cur as int,
                    view_opt_str(title),
                    view_opt_str(performer),
                    index@,
                ),
            ensures
                spec_track_body(cv, start_body, None, None, Seq::empty()) == Ok::<
                    (Option<Seq<char>>, Option<Seq<char>>, Seq<(u32, Time)>, int),
                    Error,
                >((view_opt_str(title), view_opt_str(performer), index@, cur as int)),
            decreases cv.len() - cur,
        {
            if cur >= n {
                break;
            }
            match &commands[cur] {
                Command::Performer(p) => {
                    performer = Some(p.clone());
                    cur = cur + 1;
                },
                Command::Title(t) => {
                    title = Some(t.clone());
                    cur = cur + 1;
                },
                Command::Pregap(g) => {
                    if cur + 1 >= n {
                        return Err(Error::Assembly(AssemblyError::PregapAtEnd));
                    }
                    match &commands[cur + 1] {
                        Command::Index(_, t1) => {
                            let d = t1.saturating_sub(*g);
                            index.push((0u32, d));
                            cur = cur + 1;
                        },
                        _ => {
                            return Err(Error::Assembly(AssemblyError::PregapWithoutIndex));
                        },
                    }
                },
                Command::Index(k, t) => {
                    index.push((*k, *t));
                    cur = cur + 1;
                },
                _ => {
                    break;
                },
            }
        }
        if title.is_none() {
            return Err(Error::Assembly(AssemblyError::MissingTrackTitle));
        }
        *pos = cur;
        Ok(
            Track {
                title: title,
                track_type: track_type,
                duration: None,
                index: index,
                number: number,
                performer: performer,
            },
        )
    }
}

impl TrackFile {
    /// Parses one file block starting at the cursor, advancing it on
    /// success and leaving it unchanged on error.
    pub fn consume(commands: &Vec<Command>, pos: &mut usize) -> (r: Result<TrackFile, Error>)
        ensures
            match r {
                Ok(f) => spec_file_at(spec_commands_view(commands@), *old(pos) as int) == Ok::<
                    (TrackFileView, int),
                    Error,
                >((f@, *final(pos) as int)),
                Err(e) => spec_file_at(spec_commands_view(commands@), *old(pos) as int) == Err::<
                    (TrackFileView, int),
                    Error,
                >(e) && *final(pos) == *old(pos),
            },
    {
        let ghost cv = spec_commands_view(commands@);
        let n = commands.len();
        let mut cur: usize = *pos;
        if cur >= n {
            return Err(Error::Assembly(AssemblyError::ExpectedFile));
        }
        let (name, format) = match &commands[cur] {
            Command::File(nm, f) => (nm.clone(), *f),
            _ => {
                return Err(Error::Assembly(AssemblyError::ExpectedFile));
            },
        };
        cur = cur + 1;
        let ghost start_tracks = cur as int;
        let mut tracks: Vec<Track> = Vec::new();
        let mut last_time: Option<Time> = None;
        proof {
            assert(spec_tracks_view(tracks@) =~= Seq::<TrackView>::empty());
        }
        loop
            invariant
                cv == spec_commands_view(commands@),
                cv.len() == commands@.len(),
                n == commands@.len(),
                0 <= *old(pos) < cv.len(),
                start_tracks == *old(pos) + 1,
                cv[*old(pos) as int] == CommandView::File(name@, format),
                *pos == *old(pos),
                start_tracks <= cur as int <= cv.len(),
                spec_tracks(cv, start_tracks, Seq::empty(), None) == spec_tracks(
                    cv,
                    cur as int,
                    spec_tracks_view(tracks@),
                    last_time,
                ),
            ensures
                spec_tracks(cv, start_tracks, Seq::empty(), None) == Ok::<
                    (Seq<TrackView>, int),
                    Error,
                >((spec_tracks_view(tracks@), cur as int)),
            decreases cv.len() - cur,
        {
            proof {
                lemma_track_at_bounds(cv, cur as int);
            }
            if cur >= n {
                break;
            }
            let is_track_cmd = match &commands[cur] {
                Command::Track(_, _) => true,
                _ => false,
            };
            if !is_track_cmd {
                break;
            }
            match Track::consume(commands, &mut cur) {
                Ok(track) => {
                    let ghost tv = track@;
                    let ghost acc0 = spec_tracks_view(tracks@);
                    let ghost last0 = last_time;
                    if track.index.len() > 0 {
                        if let Some(start_t) = last_time {
                            if tracks.len() > 0 {
                                let stop = track.index[0].1;
                                let d = stop.saturating_sub(start_t);
                                if let Some(mut prev) = tracks.pop() {
                                    prev.duration = Some(d);
                                    tracks.push(prev);
                                }
                            }
                        }
                        last_time = Some(track.index[track.index.len() - 1].1);
                    } else {
                        last_time = None;
                    }
                    tracks.push(track);
                    proof {
                        assert(spec_tracks_view(tracks@) =~= spec_thread_tracks(acc0, last0, tv).0);
                        assert(last_time == spec_thread_tracks(acc0, last0, tv).1);
                    }
                },
                Err(e) => {
                    return Err(e);
                },
            }
        }
        *pos = cur;
        Ok(TrackFile { tracks: tracks, name: name, format: format })
    }
}

impl Tracklist {
    /// Assembles an ordered command sequence into a tracklist: the album
    /// header first, then one block per File command.  Commands after the
    /// last file block are ignored.
    pub fn assemble(commands: &Vec<Command>) -> (r: Result<Tracklist, Error>)
        ensures
            match r {
                Ok(t) => spec_assemble(spec_commands_view(commands@)) == Ok::<TracklistView, Error>(
                    t@,
                ),
                Err(e) => spec_assemble(spec_commands_view(commands@)) == Err::<
                    TracklistView,
                    Error,
                >(e),
            },
    {
        let ghost cv = spec_commands_view(commands@);
        let n = commands.len();
        let mut pos: usize = 0;
        let mut performer: Option<String> = None;
        let mut title: Option<String> = None;
        loop
            invariant
                cv == spec_commands_view(commands@),
                cv.len() == commands@.len(),
                n == commands@.len(),
                0 <= pos as int <= cv.len(),
                spec_header(cv, 0, None, None) == spec_header(
                    cv,
                    pos as int,
                    view_opt_str(performer),
                    view_opt_str(title),
                ),
            ensures
                spec_header(cv, 0, None, None) == (
                    view_opt_str(performer),
                    view_opt_str(title),
                    pos as int,
                ),
            decreases cv.len() - pos,
        {
            if pos >= n {
                break;
            }
            match &commands[pos] {
                Command::Performer(p) => {
                    performer = Some(p.clone());
                    pos = pos + 1;
                },
                Command::Title(t) => {
                    title = Some(t.clone());
                    pos = pos + 1;
                },
                Command::Rem(_, _) => {
                    pos = pos + 1;
                },
                _ => {
                    break;
                },
            }
        }
        if title.is_none() {
            return Err(Error::Assembly(AssemblyError::MissingAlbumTitle));
        }
        let ghost start_files = pos as int;
        let mut files: Vec<TrackFile> = Vec::new();
        proof {
            assert(spec_files_view(files@) =~= Seq::<TrackFileView>::empty());
        }
        loop
            invariant
                cv == spec_commands_view(commands@),
                cv.len() == commands@.len(),
                n == commands@.len(),
                0 <= start_files <= cv.len(),
                spec_header(cv, 0, None, None) == (
                    view_opt_str(performer),
                    view_opt_str(title),
                    start_files,
                ),
                title is Some,
                start_files <= pos as int <= cv.len(),
                spec_files(cv, start_files, Seq::empty()) == spec_files(
                    cv,
                    pos as int,
                    spec_files_view(files@),
                ),
            ensures
                spec_files(cv, start_files, Seq::empty()) == Ok::<(Seq<TrackFileView>, int), Error>(
                    (spec_files_view(files@), pos as int),
                ),
            decreases cv.len() - pos,
        {
            proof {
                lemma_file_at_bounds(cv, pos as int);
            }
            if pos >= n {
                break;
            }
            let is_file_cmd = match &commands[pos] {
                Command::File(_, _) => true,
                _ => false,
            };
            if !is_file_cmd {
                break;
            }
            match TrackFile::consume(commands, &mut pos) {
                Ok(f) => {
                    let ghost fv = f@;
                    let ghost facc0 = spec_files_view(files@);
                    files.push(f);
                    proof {
                        assert(spec_files_view(files@) =~= facc0.push(fv));
                    }
                },
                Err(e) => {
                    return Err(e);
                },
            }
        }
        Ok(Tracklist { files: files, performer: performer, title: title })
    }

    /// Parse a cue sheet (content provided as `source`) into a
    /// `Tracklist`.
    pub fn parse(source: &str) -> (r: Result<Tracklist, Error>)
        ensures
            match r {
                Ok(t) => spec_tracklist(source@) == Ok::<TracklistView, Error>(t@),
                Err(e) => spec_tracklist(source@) == Err::<TracklistView, Error>(e),
            },
    {
        match parser::parse_cue(source) {
            Ok(commands) => Tracklist::assemble(&commands),
            Err(e) => Err(e),
        }
    }
}

/// A Pregap command immediately followed by an Index command synthesizes
/// an implicit index 0 whose time is the index's time minus the pregap
/// duration (saturating at zero), appended before the index itself is
/// consumed.
pub proof fn lemma_pregap_synthesizes_index(
    cmds: Seq<CommandView>,
    i: int,
    title: Option<Seq<char>>,
    performer: Option<Seq<char>>,
    index: Seq<(u32, Time)>,
    g: Time,
    k: u32,
    t1: Time,
)
    requires
        0 <= i,
        i + 1 < cmds.len(),
        cmds[i] == CommandView::Pregap(g),
        cmds[i + 1] == CommandView::Index(k, t1),
    ensures
        spec_track_body(cmds, i, title, performer, index) == spec_track_body(
            cmds,
            i + 1,
            title,
            performer,
            index.push((0u32, spec_saturating_sub(t1, g))),
        ),
{
}

/// Assembly fails with a missing-album-title error exactly when the album
/// header never recorded a Title command.
pub proof fn lemma_missing_album_title(cmds: Seq<CommandView>)
    ensures
        spec_header(cmds, 0, None, None).1 is None <==> spec_assemble(cmds) == Err::<
            TracklistView,
            Error,
        >(Error::Assembly(AssemblyError::MissingAlbumTitle)),
{
    let h = spec_header(cmds, 0, None, None);
    if h.1 is Some {
        lemma_header_bounds(cmds, 0, None, None);
        match spec_files(cmds, h.2, Seq::empty()) {
            Ok(_) => {},
            Err(e) => {
                lemma_files_no_album_title_error(cmds, h.2, Seq::empty());
            },
        }
    }
}

/// A track block whose body never recorded a Title command fails with a
/// missing-track-title error.
pub proof fn lemma_missing_track_title(cmds: Seq<CommandView>, i: int)
    requires
        0 <= i < cmds.len(),
        spec_is_track(cmds[i]),
        match spec_track_body(cmds, i + 1, None, None, Seq::empty()) {
            Ok(b) => b.0 is None,
            Err(_) => false,
        },
    ensures
        spec_track_at(cmds, i) == Err::<(TrackView, int), Error>(
            Error::Assembly(AssemblyError::MissingTrackTitle),
        ),
{
}

/// The file pass never reports a missing album title: that error is
/// raised by the header pass alone.
proof fn lemma_files_no_album_title_error(cmds: Seq<CommandView>, i: int, acc: Seq<TrackFileView>)
    requires
        0 <= i <= cmds.len(),
    ensures
        spec_files(cmds, i, acc) != Err::<(Seq<TrackFileView>, int), Error>(
            Error::Assembly(AssemblyError::MissingAlbumTitle),
        ),
    decreases cmds.len() - i,
{
    lemma_file_at_bounds(cmds, i);
    if i < cmds.len() && spec_is_file(cmds[i]) {
        match spec_file_at(cmds, i) {
            Err(e) => {
                lemma_file_at_no_album_title_error(cmds, i);
            },
            Ok(p) => {
                lemma_files_no_album_title_error(cmds, p.1, acc.push(p.0));
            },
        }
    }
}

/// A file block never reports a missing album title.
proof fn lemma_file_at_no_album_title_error(cmds: Seq<CommandView>, i: int)
    requires
        0 <= i < cmds.len(),
    ensures
        spec_file_at(cmds, i) != Err::<(TrackFileView, int), Error>(
            Error::Assembly(AssemblyError::MissingAlbumTitle),
        ),
{
    match cmds[i] {
        CommandView::File(_, _) => {
            lemma_tracks_no_album_title_error(cmds, i + 1, Seq::empty(), None);
        },
        _ => {},
    }
}

/// A run of track blocks never reports a missing album title.
proof fn lemma_tracks_no_album_title_error(
    cmds: Seq<CommandView>,
    i: int,
    acc: Seq<TrackView>,
    last: Option<Time>,
)
    requires
        0 <= i <= cmds.len(),
    ensures
        spec_tracks(cmds, i, acc, last) != Err::<(Seq<TrackView>, int), Error>(
            Error::Assembly(AssemblyError::MissingAlbumTitle),
        ),
    decreases cmds.len() - i,
{
    lemma_track_at_bounds(cmds, i);
    if i < cmds.len() && spec_is_track(cmds[i]) {
        match spec_track_at(cmds, i) {
            Err(e) => {
                lemma_track_body_not_album_title_error(cmds, i + 1, None, None, Seq::empty());
            },
            Ok(p) => {
                let stepped = spec_thread_tracks(acc, last, p.0);
                lemma_tracks_no_album_title_error(cmds, p.1, stepped.0, stepped.1);
            },
        }
    }
}

/// A track body never reports a missing album title.
proof fn lemma_track_body_not_album_title_error(
    cmds: Seq<CommandView>,
    i: int,
    title: Option<Seq<char>>,
    performer: Option<Seq<char>>,
    index: Seq<(u32, Time)>,
)
    requires
        0 <= i <= cmds.len(),
    ensures
        spec_track_body(cmds, i, title, performer, index) != Err::<
            (Option<Seq<char>>, Option<Seq<char>>, Seq<(u32, Time)>, int),
            Error,
        >(Error::Assembly(AssemblyError::MissingAlbumTitle)),
    decreases cmds.len() - i,
{
    if i < cmds.len() {
        match cmds[i] {
            CommandView::Performer(p) => lemma_track_body_not_album_title_error(
                cmds,
                i + 1,
                title,
                Some(p),
                index,
            ),
            CommandView::Title(t) => lemma_track_body_not_album_title_error(
                cmds,
                i + 1,
                Some(t),
                performer,
                index,
            ),
            CommandView::Pregap(g) => {
                if i + 1 < cmds.len() {
                    match cmds[i + 1] {
                        CommandView::Index(_, t1) => lemma_track_body_not_album_title_error(
                            cmds,
                            i + 1,
                            title,
                            performer,
                            index.push((0u32, spec_saturating_sub(t1, g))),
                        ),
                        _ => {},
                    }
                }
            },
            CommandView::Index(n, t) => lemma_track_body_not_album_title_error(
                cmds,
                i + 1,
                title,
                performer,
                index.push((n, t)),
            ),
            _ => {},
        }
    }
}

/// Assembling a command sequence is a pure function of the commands: any
/// two results that satisfy the assembler's contract for the same
/// sequence are structurally equal.
pub proof fn lemma_assemble_deterministic(
    cmds: Seq<CommandView>,
    r1: Result<TracklistView, Error>,
    r2: Result<TracklistView, Error>,
)
    requires
        r1 == spec_assemble(cmds),
        r2 == spec_assemble(cmds),
    ensures
        r1 == r2,
{
}

} // verus!
