//! Finding recurring audio segments in a media file and curating cut points.
//!
//! Recorded segments, such as blocks of advertising, are found in an input
//! by comparing its acoustic fingerprint with the fingerprints of known
//! references. An operator then turns the matches into a list of cues.
//!
//! The library decides and computes; it reads no file and runs no tool.
//! Its caller reads and writes, decodes audio, runs the media tool and
//! talks to the terminal, and hands the library plain values.
//!
//! - [`pack`]: the text form of a fingerprint cache, written and read back.
//! - [`fingerprint`]: keeping caches up to date, and fingerprinting an input.
//! - [`matching`]: scoring an input against the caches and ranking the
//!   matches.
//! - [`session`]: the commands of the interactive curation and what they do
//!   to the list of cues.
//! - [`timecode`]: times, as they are written and as they are shown.
//! - [`command`]: requests to the media tool and the reading of its answers.
//! - [`correlation`]: lengths, padding, peak and lag of a cross-correlation.
//! - [`samples`]: chunks of raw samples, with and without overlap.
//! - [`text`]: the model of text that the readers share.
//!
//! Times are whole microseconds throughout. Every executable function is
//! verified against its contract; what is taken on trust of the `base64` and
//! `rusty-chromaprint` crates is said at the wrappers that call them.

pub mod command;
pub mod correlation;
pub mod fingerprint;
pub mod matching;
pub mod pack;
pub mod samples;
pub mod session;
pub mod text;
pub mod timecode;
