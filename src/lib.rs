//! Linear retiming of subtitle tracks.
//!
//! A track is an ordered list of captions. Retiming shifts every timestamp so
//! that the first caption starts at a chosen time, then rescales the spacing
//! about that point so that the last caption starts at a second chosen time.
use vstd::prelude::*;

pub mod error;
pub mod parse;
pub mod retime;
pub mod timestamp;

verus! {

/// What a command line asks for: the subtitle file to read, the file to
/// write, the targets for the first and last captions as `hh:mm:ss:ms`, and
/// the level of logging.
pub struct Cli {
    pub input: String,
    pub output: String,
    pub first: String,
    pub last: String,
    pub log_level: String,
}

} // verus!
