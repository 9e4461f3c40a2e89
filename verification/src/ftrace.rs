//! Raw trace entries: eight-byte little-endian words whose top byte carries
//! the nesting depth and whose low 56 bits carry the payload.

use vstd::prelude::*;

verus! {

/// Number of bits the payload occupies in a raw entry word.
pub const PAYLOAD_BITS: u64 = 56;

/// Mask selecting the 56-bit payload of a raw entry word.
pub const PAYLOAD_MASK: u64 = 0x00FF_FFFF_FFFF_FFFF;

/// The nesting depth stored in the top byte of a raw entry word.
/// Zero marks an end entry; any other value marks a start entry at that depth.
pub open spec fn spec_depth(value: u64) -> u8 {
    (value >> 56) as u8
}

/// The 56-bit payload of a raw entry word: an address for start entries,
/// a nanosecond duration for end entries.
pub open spec fn spec_data(value: u64) -> u64 {
    value & PAYLOAD_MASK
}

/// Errors raised while decoding a trace stream or rebuilding its call tree.
#[derive(Clone, Copy, Debug, PartialEq, Eq, Hash, Structural)]
pub enum FtraceError {
    /// An entry of the wrong kind was handed to a node constructor.
    InvalidEntry,
    /// A start entry claimed a depth at or below the currently open depth,
    /// or an end entry arrived with no open call to close.
    DepthMismatch,
    /// The entry stream ended while at least one call was still open.
    PrematureEof,
    /// The stream ended in the middle of an eight-byte entry.
    TruncatedEntry,
    /// The stream ended before the magic marker was found.
    MagicNotFound,
    /// The bytes before the magic marker are not valid UTF-8.
    EncodingError,
}

/// One eight-byte trace entry, as read from the stream.
#[derive(Clone, Copy, Debug, PartialEq, Eq, Hash, Structural)]
pub struct RawFtrace(pub u64);

impl RawFtrace {
    /// The nesting depth carried in the top byte.
    pub fn depth(&self) -> (d: u8)
        ensures
            d == spec_depth(self.0),
    {
        (self.0 >> 56) as u8
    }

    /// The 56-bit payload carried in the low bits.
    pub fn data(&self) -> (d: u64)
        ensures
            d == spec_data(self.0),
    {
        self.0 & PAYLOAD_MASK
    }

    /// Whether this entry opens a call (depth byte non-zero).
    pub fn is_start(&self) -> (r: bool)
        ensures
            r == (spec_depth(self.0) != 0),
    {
        self.depth() != 0
    }

    /// Whether this entry closes the innermost open call (depth byte zero).
    pub fn is_end(&self) -> (r: bool)
        ensures
            r == (spec_depth(self.0) == 0),
    {
        self.depth() == 0
    }
}

} // verus!

verus! {

impl From<u64> for RawFtrace {
    /// Wrap a raw word read from the stream.
    fn from(value: u64) -> (r: RawFtrace)
        ensures
            r == RawFtrace(value),
    {
        RawFtrace(value)
    }
}

impl vstd::std_specs::convert::FromSpecImpl<u64> for RawFtrace {
    open spec fn obeys_from_spec() -> bool {
        true
    }

    open spec fn from_spec(v: u64) -> RawFtrace {
        RawFtrace(v)
    }
}

impl From<RawFtrace> for u64 {
    /// The raw word of an entry.
    fn from(value: RawFtrace) -> (r: u64)
        ensures
            r == value.0,
    {
        value.0
    }
}

impl vstd::std_specs::convert::FromSpecImpl<RawFtrace> for u64 {
    open spec fn obeys_from_spec() -> bool {
        true
    }

    open spec fn from_spec(v: RawFtrace) -> u64 {
        v.0
    }
}

} // verus!
