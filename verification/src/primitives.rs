//! Eras, times, hashes, versions and keys.

use crate::text::{decimal, decimal_text, Describe};
use vstd::prelude::*;

verus! {

/// A public key, by its rank among the keys of the network.
///
/// Two ranks are equal exactly where the keys are, and the ranks are ordered as the keys are.
pub type PublicKey = u64;

/// The number of an era.
#[derive(Clone, Copy, Debug, PartialEq, Eq, Structural)]
pub struct EraId {
    /// The number itself.
    pub number: u64,
}

impl EraId {
    /// The era with the given number.
    pub fn new(number: u64) -> (r: EraId)
        ensures
            r.number == number,
    {
        EraId { number }
    }

    /// The number of the era.
    pub fn value(&self) -> (r: u64)
        ensures
            r == self.number,
    {
        self.number
    }
}

impl Describe for EraId {
    open spec fn described(&self) -> Seq<char> {
        "era "@ + decimal(self.number as nat)
    }

    fn describe(&self) -> (r: String) {
        let mut text: String = "era ".to_owned();
        text.append(decimal_text(self.number).as_str());
        text
    }
}

/// A length of time.
#[derive(Clone, Copy, Debug, PartialEq, Eq, Structural)]
pub struct TimeDiff {
    /// The length in milliseconds.
    pub millis: u64,
}

impl TimeDiff {
    /// A length of time in milliseconds.
    pub fn from_millis(millis: u64) -> (r: TimeDiff)
        ensures
            r.millis == millis,
    {
        TimeDiff { millis }
    }

    /// A length of time in seconds.
    pub fn from_seconds(seconds: u32) -> (r: TimeDiff)
        ensures
            r.millis == seconds * 1000,
    {
        TimeDiff { millis: seconds as u64 * 1000 }
    }

    /// The length of time, `count` times over.
    pub fn times(self, count: u64) -> (r: TimeDiff)
        requires
            self.millis * count <= u64::MAX,
        ensures
            r.millis == self.millis * count,
    {
        TimeDiff { millis: self.millis * count }
    }
}

/// A moment.
#[derive(Clone, Copy, Debug, PartialEq, Eq, Structural)]
pub struct Timestamp {
    /// Milliseconds since the Unix epoch.
    pub millis: u64,
}

impl Timestamp {
    /// The moment that comes `diff` after this one.
    pub fn after(self, diff: TimeDiff) -> (r: Timestamp)
        requires
            self.millis + diff.millis <= u64::MAX,
        ensures
            r.millis == self.millis + diff.millis,
    {
        Timestamp { millis: self.millis + diff.millis }
    }
}

/// A hash of 256 bits.
#[derive(Clone, Copy, Debug, PartialEq, Eq, Structural)]
pub struct Digest {
    /// The first half of the bytes, as a big-endian number.
    pub high: u128,
    /// The second half of the bytes, as a big-endian number.
    pub low: u128,
}

/// A version of the protocol.
#[derive(Clone, Copy, Debug, PartialEq, Eq, Structural)]
pub struct ProtocolVersion {
    /// The major version.
    pub major: u32,
    /// The minor version.
    pub minor: u32,
    /// The patch version.
    pub patch: u32,
}

impl ProtocolVersion {
    /// The version made of the three parts.
    pub fn from_parts(major: u32, minor: u32, patch: u32) -> (r: ProtocolVersion)
        ensures
            r.major == major,
            r.minor == minor,
            r.patch == patch,
    {
        ProtocolVersion { major, minor, patch }
    }
}

} // verus!
