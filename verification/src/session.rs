//! The interactive curation of cut points.
//!
//! A session holds the cues of one input: points in time, in microseconds,
//! always in ascending order. It starts with a cue at 0 and one at the end
//! of the input. Commands come one per line; each is read, applied to the
//! session, and answered with an [`Outcome`] that tells the caller what to
//! show or to do. Only the caller touches the terminal and the media tool.

use crate::command::StreamRange;
use crate::matching::SegmentMatch;
use crate::text::{chars_of, field, find_field, is_word, position, trim_bounds, trimmed};
use crate::timecode::{parse_natural, parse_time_chars, parsed_natural, parsed_time, ParseFault};
use vstd::prelude::*;

verus! {

/// Which frames `inspect` asks for, and how far around the time.
#[derive(Debug, Clone, Copy, PartialEq, Eq)]
pub enum InspectMode {
    /// Twenty minutes to either side, one frame a minute.
    Overview,
    /// Twenty seconds to either side, keyframes only.
    Keyframes,
    /// Five seconds to either side, every frame.
    Frames,
    /// Twenty times the interval to either side, one frame per interval.
    Every(i64),
}

/// Why a command was not carried out. The session goes on.
#[derive(Debug, Clone, Copy, PartialEq, Eq)]
pub enum Complaint {
    /// The first word is no command.
    InvalidCommand,
    /// `add` without a time.
    AddNeedsTime,
    /// `add` with something that is not a time.
    AddBadTime(ParseFault),
    /// `remove` without an index.
    RemoveNeedsIndex,
    /// `remove` with something that is not an index.
    RemoveBadIndex,
    /// `remove` with an index at which there is no cue.
    RemoveOutOfRange,
    /// `inspect` without a time.
    InspectNeedsTime,
    /// `inspect` with something that is not a time.
    InspectBadTime,
    /// `inspect` with a mode that is neither a known word nor an interval.
    InspectBadMode,
}

/// A line of input, read.
#[derive(Debug, Clone, Copy, PartialEq, Eq)]
pub enum Command {
    Exit,
    Help,
    Matches,
    Cues,
    Add(i64),
    Remove(usize),
    Inspect(i64, InspectMode),
    Rejected(Complaint),
}

/// What the caller is to do after a command.
#[derive(Debug, Clone, PartialEq, Eq)]
pub enum Outcome {
    /// Leave the loop.
    Quit,
    /// Show the help text.
    ShowHelp,
    /// Show the two lists of matches.
    ShowMatches,
    /// Show the cues.
    ShowCues,
    /// A cue was added; it now stands at `index`.
    CueAdded { index: usize },
    /// The cue at `index` was removed.
    CueRemoved { index: usize },
    /// Clear the scratch directory and extract these frames into it. A
    /// failure of the extraction ends the session.
    Extract(StreamRange),
    /// Tell the user what was wrong with the command.
    Complain(Complaint),
}

/// The state of one interactive run.
pub struct CutSession {
    /// The cues, in ascending order.
    pub cues: Vec<i64>,
    /// Total duration of the input.
    pub duration: i64,
    /// The matches that should be cut.
    pub inclusion: Vec<SegmentMatch>,
    /// The matches that the operator overrides.
    pub exclusion: Vec<SegmentMatch>,
}

/// `s` is in ascending order.
pub open spec fn is_ascending(s: Seq<i64>) -> bool {
    forall|i: int, j: int| 0 <= i <= j < s.len() ==> s[i] <= s[j]
}

/// The first word of `t`: what stands before its first space.
pub open spec fn first_word(t: Seq<char>) -> Seq<char> {
    t.take(position(t, ' '))
}

/// `w` is one of the names of the command that removes a cue.
pub open spec fn is_remove_word(w: Seq<char>) -> bool {
    w == "remove"@ || w == "rem"@ || w == "del"@ || w == "delete"@
}

/// The mode that the third word of an `inspect` line asks for.
pub open spec fn parsed_mode(word: Option<Seq<char>>) -> Option<InspectMode> {
    match word {
        None => Some(InspectMode::Overview),
        Some(w) => if w == "key"@ || w == "keyframe"@ {
            Some(InspectMode::Keyframes)
        } else if w == "frame"@ || w == "all"@ {
            Some(InspectMode::Frames)
        } else {
            match parsed_time(w) {
                Ok(interval) => Some(InspectMode::Every(interval)),
                Err(_) => None,
            }
        },
    }
}

/// The command that `line` holds. White space at its two ends is ignored;
/// what is left is cut into words at every single space.
pub open spec fn parsed_command(line: Seq<char>) -> Command {
    let t = trimmed(line);
    let word = first_word(t);
    let first = field(t, ' ', 1);
    let second = field(t, ' ', 2);
    if word == "exit"@ || word == "quit"@ {
        Command::Exit
    } else if word == "help"@ {
        Command::Help
    } else if word == "matches"@ {
        Command::Matches
    } else if word == "cues"@ {
        Command::Cues
    } else if word == "add"@ {
        match first {
            None => Command::Rejected(Complaint::AddNeedsTime),
            Some(a) => match parsed_time(a) {
                Ok(time) => Command::Add(time),
                Err(fault) => Command::Rejected(Complaint::AddBadTime(fault)),
            },
        }
    } else if is_remove_word(word) {
        match first {
            None => Command::Rejected(Complaint::RemoveNeedsIndex),
            Some(a) => match parsed_natural(a, usize::MAX as int) {
                Some(index) => Command::Remove(index as usize),
                None => Command::Rejected(Complaint::RemoveBadIndex),
            },
        }
    } else if word == "inspect"@ {
        match first {
            None => Command::Rejected(Complaint::InspectNeedsTime),
            Some(a) => match parsed_time(a) {
                Err(_) => Command::Rejected(Complaint::InspectBadTime),
                Ok(center) => match parsed_mode(second) {
                    Some(mode) => Command::Inspect(center, mode),
                    None => Command::Rejected(Complaint::InspectBadMode),
                },
            },
        }
    } else {
        Command::Rejected(Complaint::InvalidCommand)
    }
}

/// `x`, or the nearest time where `x` is none.
pub open spec fn nearest_time(x: int) -> i64 {
    if x < i64::MIN {
        i64::MIN
    } else if x > i64::MAX {
        i64::MAX
    } else {
        x as i64
    }
}

/// How far to either side of the time a mode looks, in microseconds.
pub open spec fn reach_of(mode: InspectMode) -> int {
    match mode {
        InspectMode::Overview => 1_200_000_000,
        InspectMode::Keyframes => 20_000_000,
        InspectMode::Frames => 5_000_000,
        InspectMode::Every(interval) => 20 * interval,
    }
}

/// Start of the window around `center`: never before 0.
pub open spec fn window_start(center: i64, mode: InspectMode) -> i64 {
    let start = center - reach_of(mode);
    nearest_time(
        if start < 0 {
            0
        } else {
            start
        },
    )
}

/// End of the window around `center`: never behind the end of the input.
pub open spec fn window_end(center: i64, mode: InspectMode, duration: i64) -> i64 {
    let end = center + reach_of(mode);
    nearest_time(
        if end > duration {
            duration as int
        } else {
            end
        },
    )
}

/// The frames that `inspect` asks for.
pub open spec fn inspect_request(center: i64, mode: InspectMode, duration: i64) -> StreamRange {
    let pts_start = Some(window_start(center, mode));
    let pts_end = Some(window_end(center, mode, duration));
    match mode {
        InspectMode::Overview => StreamRange {
            pts_start,
            pts_end,
            skip_frames: Some("none"),
            frame_interval: Some(60_000_000i64),
        },
        InspectMode::Keyframes => StreamRange {
            pts_start,
            pts_end,
            skip_frames: Some("nokey"),
            frame_interval: None,
        },
        InspectMode::Frames => StreamRange {
            pts_start,
            pts_end,
            skip_frames: Some("none"),
            frame_interval: None,
        },
        InspectMode::Every(interval) => StreamRange {
            pts_start,
            pts_end,
            skip_frames: Some("none"),
            frame_interval: Some(interval),
        },
    }
}

/// Reads one line of input.
pub fn parse_command(line: &str) -> (command: Command)
    ensures
        command == parsed_command(line@),
{
    let chars = chars_of(line);
    proof {
        assert(chars@.subrange(0, chars@.len() as int) =~= line@);
    }
    let (a, b) = trim_bounds(&chars, 0, chars.len());
    let (w0, w1) = match find_field(&chars, a, b, ' ', 0) {
        Some(bounds) => bounds,
        None => {
            return Command::Rejected(Complaint::InvalidCommand);
        },
    };
    let first = find_field(&chars, a, b, ' ', 1);
    if is_word(&chars, w0, w1, "exit") || is_word(&chars, w0, w1, "quit") {
        Command::Exit
    } else if is_word(&chars, w0, w1, "help") {
        Command::Help
    } else if is_word(&chars, w0, w1, "matches") {
        Command::Matches
    } else if is_word(&chars, w0, w1, "cues") {
        Command::Cues
    } else if is_word(&chars, w0, w1, "add") {
        match first {
            None => Command::Rejected(Complaint::AddNeedsTime),
            Some((f0, f1)) => match parse_time_chars(&chars, f0, f1) {
                Ok(time) => Command::Add(time),
                Err(fault) => Command::Rejected(Complaint::AddBadTime(fault)),
            },
        }
    } else if is_word(&chars, w0, w1, "remove") || is_word(&chars, w0, w1, "rem") || is_word(
        &chars,
        w0,
        w1,
        "del",
    ) || is_word(&chars, w0, w1, "delete") {
        match first {
            None => Command::Rejected(Complaint::RemoveNeedsIndex),
            Some((f0, f1)) => match parse_natural(&chars, f0, f1, usize::MAX as u64) {
                Some(index) => Command::Remove(index as usize),
                None => Command::Rejected(Complaint::RemoveBadIndex),
            },
        }
    } else if is_word(&chars, w0, w1, "inspect") {
        match first {
            None => Command::Rejected(Complaint::InspectNeedsTime),
            Some((f0, f1)) => match parse_time_chars(&chars, f0, f1) {
                Err(_) => Command::Rejected(Complaint::InspectBadTime),
                Ok(center) => match find_field(&chars, a, b, ' ', 2) {
                    None => Command::Inspect(center, InspectMode::Overview),
                    Some((m0, m1)) => if is_word(&chars, m0, m1, "key") || is_word(
                        &chars,
                        m0,
                        m1,
                        "keyframe",
                    ) {
                        Command::Inspect(center, InspectMode::Keyframes)
                    } else if is_word(&chars, m0, m1, "frame") || is_word(&chars, m0, m1, "all") {
                        Command::Inspect(center, InspectMode::Frames)
                    } else {
                        match parse_time_chars(&chars, m0, m1) {
                            Ok(interval) => Command::Inspect(center, InspectMode::Every(interval)),
                            Err(_) => Command::Rejected(Complaint::InspectBadMode),
                        }
                    },
                },
            },
        }
    } else {
        Command::Rejected(Complaint::InvalidCommand)
    }
}

/// The time nearest to `x`.
fn to_time(x: i128) -> (time: i64)
    ensures
        time == nearest_time(x as int),
{
    if x < i64::MIN as i128 {
        i64::MIN
    } else if x > i64::MAX as i128 {
        i64::MAX
    } else {
        x as i64
    }
}

impl CutSession {
    /// The cues are in ascending order.
    pub open spec fn is_valid(&self) -> bool {
        is_ascending(self.cues@)
    }

    /// A session for an input of the given duration, with the matches found
    /// for it. Its cues are the start and the end of the input.
    pub fn new(duration: i64, inclusion: Vec<SegmentMatch>, exclusion: Vec<SegmentMatch>) -> (session:
        CutSession)
        requires
            duration >= 0,
        ensures
            session.is_valid(),
            session.cues@ == seq![0i64, duration],
            session.duration == duration,
            session.inclusion == inclusion,
            session.exclusion == exclusion,
    {
        let mut cues: Vec<i64> = Vec::new();
        cues.push(0);
        cues.push(duration);
        proof {
            assert(cues@ =~= seq![0i64, duration]);
        }
        CutSession { cues, duration, inclusion, exclusion }
    }

    /// Adds a cue at `time`, in its place in the order, and tells where it
    /// stands. A time that is there already is added once more.
    pub fn add_cue(&mut self, time: i64) -> (index: usize)
        requires
            old(self).is_valid(),
        ensures
            final(self).is_valid(),
            index <= old(self).cues@.len(),
            final(self).cues@ == old(self).cues@.insert(index as int, time),
            forall|i: int| 0 <= i < index ==> old(self).cues@[i] < time,
            forall|i: int| index <= i < old(self).cues@.len() ==> old(self).cues@[i] >= time,
            final(self).duration == old(self).duration,
            final(self).inclusion == old(self).inclusion,
            final(self).exclusion == old(self).exclusion,
    {
        let mut lo: usize = 0;
        let mut hi: usize = self.cues.len();
        while lo < hi
            invariant
                lo <= hi <= self.cues@.len(),
                is_ascending(self.cues@),
                forall|i: int| 0 <= i < lo ==> self.cues@[i] < time,
                forall|i: int| hi <= i < self.cues@.len() ==> self.cues@[i] >= time,
            decreases hi - lo,
        {
            let mid: usize = lo + (hi - lo) / 2;
            if self.cues[mid] < time {
                lo = mid + 1;
            } else {
                hi = mid;
            }
        }
        self.cues.insert(lo, time);
        lo
    }

    /// Removes the cue at `index`, counted from 0. Where there is no such
    /// cue, nothing changes.
    pub fn remove_cue(&mut self, index: usize) -> (removed: Result<i64, Complaint>)
        requires
            old(self).is_valid(),
        ensures
            final(self).is_valid(),
            final(self).duration == old(self).duration,
            final(self).inclusion == old(self).inclusion,
            final(self).exclusion == old(self).exclusion,
            match removed {
                Ok(time) => {
                    &&& index < old(self).cues@.len()
                    &&& time == old(self).cues@[index as int]
                    &&& final(self).cues@ == old(self).cues@.remove(index as int)
                },
                Err(complaint) => {
                    &&& index >= old(self).cues@.len()
                    &&& complaint == Complaint::RemoveOutOfRange
                    &&& final(self).cues == old(self).cues
                },
            },
    {
        if index < self.cues.len() {
            let time = self.cues.remove(index);
            Ok(time)
        } else {
            Err(Complaint::RemoveOutOfRange)
        }
    }

    /// The frames to extract for `inspect` around `center`.
    pub fn inspect_range(&self, center: i64, mode: InspectMode) -> (range: StreamRange)
        ensures
            range == inspect_request(center, mode, self.duration),
    {
        let reach: i128 = match mode {
            InspectMode::Overview => 1_200_000_000,
            InspectMode::Keyframes => 20_000_000,
            InspectMode::Frames => 5_000_000,
            InspectMode::Every(interval) => 20 * (interval as i128),
        };
        let mut start: i128 = center as i128 - reach;
        if start < 0 {
            start = 0;
        }
        let mut end: i128 = center as i128 + reach;
        if end > self.duration as i128 {
            end = self.duration as i128;
        }
        let pts_start = Some(to_time(start));
        let pts_end = Some(to_time(end));
        match mode {
            InspectMode::Overview => StreamRange::nsecs_betweens(pts_start, pts_end, 60_000_000),
            InspectMode::Keyframes => StreamRange::keyframes_betweens(pts_start, pts_end),
            InspectMode::Frames => StreamRange::frames_betweens(pts_start, pts_end),
            InspectMode::Every(interval) => StreamRange::nsecs_betweens(
                pts_start,
                pts_end,
                interval,
            ),
        }
    }

    /// Whether `command`, carried out on this session, leaves the cues
    /// `after` and has the outcome `outcome`.
    pub open spec fn applied(&self, command: Command, after: Seq<i64>, outcome: Outcome) -> bool {
        match command {
            Command::Exit => after == self.cues@ && outcome == Outcome::Quit,
            Command::Help => after == self.cues@ && outcome == Outcome::ShowHelp,
            Command::Matches => after == self.cues@ && outcome == Outcome::ShowMatches,
            Command::Cues => after == self.cues@ && outcome == Outcome::ShowCues,
            Command::Add(time) => {
                &&& outcome matches Outcome::CueAdded { index }
                &&& index <= self.cues@.len()
                &&& after == self.cues@.insert(index as int, time)
                &&& is_ascending(after)
                &&& forall|i: int| 0 <= i < index ==> self.cues@[i] < time
                &&& forall|i: int| index <= i < self.cues@.len() ==> self.cues@[i] >= time
            },
            Command::Remove(index) => if index < self.cues@.len() {
                after == self.cues@.remove(index as int) && outcome == (Outcome::CueRemoved {
                    index,
                })
            } else {
                after == self.cues@ && outcome == Outcome::Complain(Complaint::RemoveOutOfRange)
            },
            Command::Inspect(center, mode) => after == self.cues@ && outcome == Outcome::Extract(
                inspect_request(center, mode, self.duration),
            ),
            Command::Rejected(complaint) => after == self.cues@ && outcome == Outcome::Complain(
                complaint,
            ),
        }
    }

    /// Carries out a command.
    ///
    /// Only `add` and `remove` change the cues, and they keep them in
    /// order. A command that is refused changes nothing.
    pub fn apply(&mut self, command: Command) -> (outcome: Outcome)
        requires
            old(self).is_valid(),
        ensures
            final(self).is_valid(),
            old(self).applied(command, final(self).cues@, outcome),
            final(self).duration == old(self).duration,
            final(self).inclusion == old(self).inclusion,
            final(self).exclusion == old(self).exclusion,
    {
        match command {
            Command::Exit => Outcome::Quit,
            Command::Help => Outcome::ShowHelp,
            Command::Matches => Outcome::ShowMatches,
            Command::Cues => Outcome::ShowCues,
            Command::Add(time) => {
                let index = self.add_cue(time);
                Outcome::CueAdded { index }
            },
            Command::Remove(index) => match self.remove_cue(index) {
                Ok(_) => Outcome::CueRemoved { index },
                Err(complaint) => Outcome::Complain(complaint),
            },
            Command::Inspect(center, mode) => Outcome::Extract(self.inspect_range(center, mode)),
            Command::Rejected(complaint) => Outcome::Complain(complaint),
        }
    }

    /// Reads one line of input and carries it out.
    pub fn step(&mut self, line: &str) -> (outcome: Outcome)
        requires
            old(self).is_valid(),
        ensures
            final(self).is_valid(),
            old(self).applied(parsed_command(line@), final(self).cues@, outcome),
            final(self).duration == old(self).duration,
            final(self).inclusion == old(self).inclusion,
            final(self).exclusion == old(self).exclusion,
    {
        let command = parse_command(line);
        self.apply(command)
    }
}

} // verus!
