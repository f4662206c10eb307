//! What is asked of the media tool and what is made of its answers.
//!
//! The tool itself is run by the caller. Here are the request for a range of
//! frames and the arguments that carry it to the tool, the readers for the
//! two texts that the tool prints (the duration of a file, and the
//! timestamps of its keyframes, one per line), and the judgement on how a
//! run of the tool ended.

use crate::text::{chars_of, line_end, lines, trim_bounds, trimmed};
use crate::timecode::{
    assemble, assembled, decimal, parse_seconds, parsed_seconds, push_decimal, push_two_digits,
    two_digits,
};
use vstd::prelude::*;
use vstd::string::StringExecFns;

verus! {

/// What can go wrong with a call of the media tool.
#[derive(Debug, Clone, PartialEq, Eq)]
pub enum CommandError {
    /// The tool could not be run, or its output could not be read.
    Io,
    /// The tool's output is not what was expected.
    ParsingError { context: String },
    /// The tool ran and failed.
    ProcessFailed { context: String },
    /// Anything else.
    Unknown,
}

/// A window of time and the frames wanted from it.
#[derive(Debug, Clone, PartialEq, Eq)]
pub struct StreamRange {
    /// Start of the window, in microseconds.
    pub pts_start: Option<i64>,
    /// End of the window, in microseconds.
    pub pts_end: Option<i64>,
    /// Which frames the decoder may skip: `"nokey"` for all but keyframes,
    /// `"none"` for none.
    pub skip_frames: Option<&'static str>,
    /// Where set, one frame is wanted for every interval of this many
    /// microseconds: a frame rate of one over the interval.
    pub frame_interval: Option<i64>,
}

impl StreamRange {
    /// The keyframes between `pts_start` and `pts_end`.
    pub fn keyframes_betweens(pts_start: Option<i64>, pts_end: Option<i64>) -> (range: Self)
        ensures
            range == (StreamRange {
                pts_start,
                pts_end,
                skip_frames: Some("nokey"),
                frame_interval: None,
            }),
    {
        StreamRange { pts_start, pts_end, skip_frames: Some("nokey"), frame_interval: None }
    }

    /// All frames between `pts_start` and `pts_end`.
    pub fn frames_betweens(pts_start: Option<i64>, pts_end: Option<i64>) -> (range: Self)
        ensures
            range == (StreamRange {
                pts_start,
                pts_end,
                skip_frames: Some("none"),
                frame_interval: None,
            }),
    {
        StreamRange { pts_start, pts_end, skip_frames: Some("none"), frame_interval: None }
    }

    /// One frame for every `micros` microseconds between `pts_start` and
    /// `pts_end`.
    pub fn nsecs_betweens(pts_start: Option<i64>, pts_end: Option<i64>, micros: i64) -> (range:
        Self)
        ensures
            range == (StreamRange {
                pts_start,
                pts_end,
                skip_frames: Some("none"),
                frame_interval: Some(micros),
            }),
    {
        StreamRange { pts_start, pts_end, skip_frames: Some("none"), frame_interval: Some(micros) }
    }
}

/// The time, in microseconds, that a decimal number of seconds stands for;
/// white space around the number is ignored.
pub open spec fn parsed_decimal(text: Seq<char>) -> Option<i64> {
    match parsed_seconds(trimmed(text)) {
        None => None,
        Some(micros) => match assembled(0, 0, micros) {
            Ok(time) => Some(time),
            Err(_) => None,
        },
    }
}

/// Reads the number of seconds that `chars[from..to]` holds.
fn parse_decimal(chars: &Vec<char>, from: usize, to: usize) -> (time: Option<i64>)
    requires
        from <= to <= chars@.len(),
    ensures
        time == parsed_decimal(chars@.subrange(from as int, to as int)),
{
    let (a, b) = trim_bounds(chars, from, to);
    match parse_seconds(chars, a, b) {
        None => None,
        Some(seconds) => match assemble(0, 0, seconds) {
            Ok(time) => Some(time),
            Err(_) => None,
        },
    }
}

/// Reads the duration that the tool printed.
///
/// The output is one decimal number of seconds.
pub fn parse_duration(output: &str) -> (result: Result<i64, CommandError>)
    ensures
        match result {
            Ok(duration) => parsed_decimal(output@) == Some(duration),
            Err(e) => {
                &&& parsed_decimal(output@) is None
                &&& e matches CommandError::ParsingError { context }
                &&& context@ == "duration: not a number of seconds"@
            },
        },
{
    let chars = chars_of(output);
    proof {
        assert(chars@.subrange(0, chars@.len() as int) =~= output@);
    }
    match parse_decimal(&chars, 0, chars.len()) {
        Some(duration) => Ok(duration),
        None => Err(
            CommandError::ParsingError { context: "duration: not a number of seconds".to_owned() },
        ),
    }
}

/// Reads the keyframe timestamps that the tool printed.
///
/// Each line of the output is one decimal number of seconds. The result
/// holds the time of every line, in the order of the lines; one line that
/// holds no number fails the whole.
pub fn parse_keyframes(output: &str) -> (result: Result<Vec<i64>, CommandError>)
    ensures
        match result {
            Ok(times) => {
                &&& times@.len() == lines(output@).len()
                &&& forall|i: int|
                    0 <= i < times@.len() ==> parsed_decimal(lines(output@)[i]) == Some(times@[i])
            },
            Err(e) => {
                &&& e matches CommandError::ParsingError { context }
                &&& context@ == "keyframes: not a number of seconds"@
                &&& exists|i: int|
                    0 <= i < lines(output@).len() && parsed_decimal(#[trigger] lines(output@)[i])
                        is None
            },
        },
{
    let chars = chars_of(output);
    let mut times: Vec<i64> = Vec::new();
    let mut pos: usize = 0;
    let ghost mut done: Seq<Seq<char>> = Seq::empty();
    proof {
        assert(chars@.skip(0) =~= output@);
    }
    while pos < chars.len()
        invariant
            chars@ == output@,
            pos <= chars@.len(),
            lines(output@) == done + lines(chars@.skip(pos as int)),
            times@.len() == done.len(),
            forall|i: int| 0 <= i < times@.len() ==> parsed_decimal(done[i]) == Some(times@[i]),
        decreases chars@.len() - pos,
    {
        let end: usize = line_end(&chars, pos);
        let ghost line = chars@.subrange(pos as int, end as int);
        proof {
            assert(lines(output@) =~= done.push(line) + lines(chars@.skip(end as int)));
        }
        match parse_decimal(&chars, pos, end) {
            Some(time) => {
                times.push(time);
            },
            None => {
                proof {
                    assert(lines(output@)[done.len() as int] == line);
                }
                return Err(
                    CommandError::ParsingError {
                        context: "keyframes: not a number of seconds".to_owned(),
                    },
                );
            },
        }
        proof {
            done = done.push(line);
        }
        pos = end;
    }
    proof {
        assert(chars@.skip(pos as int) =~= Seq::<char>::empty());
        assert(lines(output@) =~= done);
    }
    Ok(times)
}

/// `n`, which is below a million, in six decimal digits.
pub open spec fn six_digits(n: int) -> Seq<char> {
    two_digits(n / 10_000) + two_digits((n / 100) % 100) + two_digits(n % 100)
}

/// `n` in decimal digits, with a minus sign where it is negative.
pub open spec fn signed_decimal(n: int) -> Seq<char> {
    if n < 0 {
        seq!['-'] + decimal((-n) as nat)
    } else {
        decimal(n as nat)
    }
}

/// A time in seconds as the tool takes it: the whole seconds, a point, and
/// the microseconds in six digits; a minus sign before a time below 0.
pub open spec fn seconds_text(micros: int) -> Seq<char> {
    if micros < 0 {
        seq!['-'] + decimal((-micros / 1_000_000) as nat) + seq!['.'] + six_digits(
            -micros % 1_000_000,
        )
    } else {
        decimal((micros / 1_000_000) as nat) + seq!['.'] + six_digits(micros % 1_000_000)
    }
}

/// The frame rate of one frame per `interval` microseconds, as a fraction.
pub open spec fn rate_text(interval: int) -> Seq<char> {
    "fps=1000000/"@ + signed_decimal(interval)
}

/// The arguments that say where the window starts and ends.
pub open spec fn window_args(range: StreamRange) -> Seq<Seq<char>> {
    (match range.pts_start {
        Some(start) => seq!["-ss"@, seconds_text(start as int)],
        None => Seq::empty(),
    }) + (match range.pts_end {
        Some(end) => seq!["-to"@, seconds_text(end as int)],
        None => Seq::empty(),
    })
}

/// The arguments that say which frames the decoder may skip.
pub open spec fn skip_args(range: StreamRange) -> Seq<Seq<char>> {
    match range.skip_frames {
        Some(skip) => seq!["-skip_frame"@, skip@],
        None => Seq::empty(),
    }
}

/// The arguments that set the frame rate.
pub open spec fn rate_args(range: StreamRange) -> Seq<Seq<char>> {
    match range.frame_interval {
        Some(interval) => seq!["-vf"@, rate_text(interval as int)],
        None => Seq::empty(),
    }
}

/// The arguments that name the input.
pub open spec fn input_args(input: Seq<char>) -> Seq<Seq<char>> {
    seq!["-hide_banner"@, "-loglevel"@, "error"@, "-copyts"@, "-i"@, input]
}

/// The arguments that say how the frames are written: as JPEG files in the
/// directory `output`, each named by its time in nine digits.
pub open spec fn output_args(output: Seq<char>) -> Seq<Seq<char>> {
    seq![
        "-enc_time_base"@,
        "1/1000"@,
        "-vsync"@,
        "0"@,
        "-f"@,
        "image2"@,
        "-frame_pts"@,
        "1"@,
        output + "/%09d.jpg"@,
    ]
}

/// The arguments with which the tool extracts the frames of `range` from
/// `input` as numbered JPEG files in the directory `output`.
pub open spec fn extract_frames_args(input: Seq<char>, output: Seq<char>, range: StreamRange) -> Seq<
    Seq<char>,
> {
    window_args(range) + skip_args(range) + input_args(input) + rate_args(range) + output_args(
        output,
    )
}

/// The views of `words`.
pub open spec fn texts_of(words: Seq<String>) -> Seq<Seq<char>> {
    Seq::new(words.len(), |i: int| words[i]@)
}

/// How far `n` is from 0.
fn magnitude(n: i64) -> (m: u64)
    ensures
        m == (if n < 0 {
            -n
        } else {
            n as int
        }),
{
    if n < 0 {
        (-(n as i128)) as u64
    } else {
        n as u64
    }
}

/// Appends `n` with its sign.
fn push_signed(text: &mut String, n: i64)
    ensures
        final(text)@ == old(text)@ + signed_decimal(n as int),
{
    if n < 0 {
        text.push('-');
        push_decimal(text, magnitude(n));
        proof {
            assert(final(text)@ =~= old(text)@ + signed_decimal(n as int));
        }
    } else {
        push_decimal(text, n as u64);
    }
}

/// The time `micros` in seconds, as text.
fn seconds_string(micros: i64) -> (text: String)
    ensures
        text@ == seconds_text(micros as int),
{
    let mut text = String::new();
    if micros < 0 {
        text.push('-');
    }
    let m: u64 = magnitude(micros);
    let part: u64 = m % 1_000_000;
    push_decimal(&mut text, m / 1_000_000);
    text.push('.');
    push_two_digits(&mut text, part / 10_000);
    push_two_digits(&mut text, (part / 100) % 100);
    push_two_digits(&mut text, part % 100);
    proof {
        assert(text@ =~= seconds_text(micros as int));
    }
    text
}

/// Appends the text `word` to `args`.
fn push_word(args: &mut Vec<String>, word: &str)
    ensures
        texts_of(final(args)@) == texts_of(old(args)@).push(word@),
{
    args.push(word.to_owned());
    proof {
        assert(texts_of(args@) =~= texts_of(old(args)@).push(word@));
    }
}

/// Appends the arguments that say where the window starts and ends.
fn push_window_args(args: &mut Vec<String>, range: &StreamRange)
    ensures
        texts_of(final(args)@) == texts_of(old(args)@) + window_args(*range),
{
    if let Some(start) = range.pts_start {
        push_word(args, "-ss");
        let text = seconds_string(start);
        push_word(args, text.as_str());
    }
    if let Some(end) = range.pts_end {
        push_word(args, "-to");
        let text = seconds_string(end);
        push_word(args, text.as_str());
    }
    proof {
        assert(texts_of(args@) =~= texts_of(old(args)@) + window_args(*range));
    }
}

/// Appends the arguments that say which frames may be skipped.
fn push_skip_args(args: &mut Vec<String>, range: &StreamRange)
    ensures
        texts_of(final(args)@) == texts_of(old(args)@) + skip_args(*range),
{
    if let Some(skip) = range.skip_frames {
        push_word(args, "-skip_frame");
        push_word(args, skip);
    }
    proof {
        assert(texts_of(args@) =~= texts_of(old(args)@) + skip_args(*range));
    }
}

/// Appends the arguments that name the input.
fn push_input_args(args: &mut Vec<String>, input: &str)
    ensures
        texts_of(final(args)@) == texts_of(old(args)@) + input_args(input@),
{
    push_word(args, "-hide_banner");
    push_word(args, "-loglevel");
    push_word(args, "error");
    push_word(args, "-copyts");
    push_word(args, "-i");
    push_word(args, input);
    proof {
        assert(texts_of(args@) =~= texts_of(old(args)@) + input_args(input@));
    }
}

/// Appends the arguments that set the frame rate.
fn push_rate_args(args: &mut Vec<String>, range: &StreamRange)
    ensures
        texts_of(final(args)@) == texts_of(old(args)@) + rate_args(*range),
{
    if let Some(interval) = range.frame_interval {
        push_word(args, "-vf");
        let mut rate = "fps=1000000/".to_owned();
        push_signed(&mut rate, interval);
        push_word(args, rate.as_str());
    }
    proof {
        assert(texts_of(args@) =~= texts_of(old(args)@) + rate_args(*range));
    }
}

/// Appends the arguments that say how the frames are written.
fn push_output_args(args: &mut Vec<String>, output: &str)
    ensures
        texts_of(final(args)@) == texts_of(old(args)@) + output_args(output@),
{
    push_word(args, "-enc_time_base");
    push_word(args, "1/1000");
    push_word(args, "-vsync");
    push_word(args, "0");
    let ghost middle = texts_of(args@);
    proof {
        assert(middle =~= texts_of(old(args)@) + seq![
            "-enc_time_base"@,
            "1/1000"@,
            "-vsync"@,
            "0"@,
        ]);
    }
    push_word(args, "-f");
    push_word(args, "image2");
    push_word(args, "-frame_pts");
    push_word(args, "1");
    let mut pattern = output.to_owned();
    pattern.append("/%09d.jpg");
    push_word(args, pattern.as_str());
    proof {
        assert(texts_of(args@) =~= texts_of(old(args)@) + output_args(output@));
    }
}

/// The arguments with which the tool extracts the frames of `range` from
/// `input` into the directory `output`.
pub fn ffmpeg_extract_frames_args(input: &str, output: &str, range: &StreamRange) -> (args: Vec<
    String,
>)
    ensures
        texts_of(args@) == extract_frames_args(input@, output@, *range),
{
    let mut args: Vec<String> = Vec::new();
    proof {
        assert(texts_of(args@) =~= Seq::<Seq<char>>::empty());
    }
    push_window_args(&mut args, range);
    push_skip_args(&mut args, range);
    push_input_args(&mut args, input);
    push_rate_args(&mut args, range);
    push_output_args(&mut args, output);
    proof {
        assert(texts_of(args@) =~= extract_frames_args(input@, output@, *range));
    }
    args
}

/// What the end of the tool's run means: success where it ended with the
/// code 0, failure where it ended with another code or without one.
pub open spec fn exit_failure(code: Option<i32>) -> Option<Seq<char>> {
    match code {
        None => Some("ffmpeg_extract_frames - status code is none"@),
        Some(c) => if c == 0 {
            None
        } else {
            Some("ffmpeg_extract_frames - status code is "@ + signed_decimal(c as int))
        },
    }
}

/// Judges how the tool's run ended.
pub fn check_exit(code: Option<i32>) -> (result: Result<(), CommandError>)
    ensures
        match result {
            Ok(_) => exit_failure(code) is None,
            Err(e) => {
                &&& e matches CommandError::ProcessFailed { context }
                &&& exit_failure(code) == Some(context@)
            },
        },
{
    match code {
        None => Err(
            CommandError::ProcessFailed {
                context: "ffmpeg_extract_frames - status code is none".to_owned(),
            },
        ),
        Some(c) => if c == 0 {
            Ok(())
        } else {
            let mut context = "ffmpeg_extract_frames - status code is ".to_owned();
            push_signed(&mut context, c as i64);
            Err(CommandError::ProcessFailed { context })
        },
    }
}

} // verus!
