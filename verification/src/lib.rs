//! A SHA-1 directory hasher: a streaming digest engine together with a
//! bounded-concurrency scheduler that digests every file of a directory
//! and collects one report row per file.

use vstd::prelude::*;

pub mod hasher;
pub mod sha;

verus! {

/// Which backend variant a digest run is asked to use. The engine computes
/// the compression round directly, so the choice carries no behaviour here;
/// it is kept as part of the public configuration surface.
#[derive(PartialEq, Eq, Debug, Clone, Copy)]
pub enum Lang {
    C,
    Asm,
}

/// The worker counts a presentation layer offers for selection,
/// each variant carrying its numeric value.
#[derive(PartialEq, Eq, Debug)]
pub enum NoThreads {
    One(u8),
    Two(u8),
    Four(u8),
    Eight(u8),
    Sixteen(u8),
    ThirtyTwo(u8),
    SixtyFour(u8),
}

impl NoThreads {
    /// The numeric worker count this selection stands for.
    pub open spec fn count(self) -> u8 {
        match self {
            NoThreads::One(x) => x,
            NoThreads::Two(x) => x,
            NoThreads::Four(x) => x,
            NoThreads::Eight(x) => x,
            NoThreads::Sixteen(x) => x,
            NoThreads::ThirtyTwo(x) => x,
            NoThreads::SixtyFour(x) => x,
        }
    }

    pub fn get_number_of_threads(&self) -> (r: u8)
        ensures
            r == self.count(),
    {
        match self {
            NoThreads::One(x) => *x,
            NoThreads::Two(x) => *x,
            NoThreads::Four(x) => *x,
            NoThreads::Eight(x) => *x,
            NoThreads::Sixteen(x) => *x,
            NoThreads::ThirtyTwo(x) => *x,
            NoThreads::SixtyFour(x) => *x,
        }
    }
}

/// The two fatal outcomes of a directory run: the input directory could not
/// be listed, or the report file could not be created. Every per-file
/// trouble is recovered into an "Unhashable item" report row instead.
#[derive(PartialEq, Eq, Debug, Clone, Copy)]
pub enum HasherError {
    BadInputLocation,
    BadOutputLocation,
}

} // verus!
