//! Streaming extraction of the header and entry bytes from a raw trace.
//!
//! A trace file is arbitrary header text, an exact eight-byte magic marker,
//! and then eight-byte entries until end of stream.  [`MagicScanner`]
//! consumes the stream in chunks of any size and finds the first occurrence
//! of the marker, no matter how the chunk boundaries fall; everything before
//! the marker is the header, everything after it belongs to the entry
//! stream.

use crate::ftrace::{FtraceError, RawFtrace};
use vstd::prelude::*;

verus! {

use vstd::utf8::{encode_utf8, valid_utf8};

/// The eight bytes of the magic marker.
pub open spec fn spec_magic() -> Seq<u8> {
    seq![0x46u8, 0x54u8, 0x52u8, 0x41u8, 0x43u8, 0x45u8, 0x00u8, 0x01u8]
}

/// The magic marker as a vector: the ASCII letters of the format name
/// followed by a two-byte version tag.
pub fn magic_bytes() -> (r: Vec<u8>)
    ensures
        r@ == spec_magic(),
{
    let mut v: Vec<u8> = Vec::new();
    v.push(0x46);
    v.push(0x54);
    v.push(0x52);
    v.push(0x41);
    v.push(0x43);
    v.push(0x45);
    v.push(0x00);
    v.push(0x01);
    proof {
        assert(v@ =~= spec_magic());
    }
    v
}

/// `needle` occurs in `hay` starting at position `i`.
pub open spec fn is_match_at(hay: Seq<u8>, needle: Seq<u8>, i: int) -> bool {
    0 <= i && i + needle.len() <= hay.len() && hay.subrange(i, i + needle.len()) == needle
}

/// No occurrence of `needle` starts before position `k`.
pub open spec fn no_match_before(hay: Seq<u8>, needle: Seq<u8>, k: int) -> bool {
    forall|j: int| 0 <= j < k ==> !is_match_at(hay, needle, j)
}

/// Append every byte of `src` to `dst`.
fn push_bytes(dst: &mut Vec<u8>, src: &[u8])
    ensures
        final(dst)@ == old(dst)@ + src@,
{
    let mut i: usize = 0;
    while i < src.len()
        invariant
            i <= src@.len(),
            dst@ == old(dst)@ + src@.subrange(0, i as int),
        decreases src@.len() - i,
    {
        let b = *vstd::slice::slice_index_get(src, i);
        dst.push(b);
        proof {
            assert(dst@ =~= old(dst)@ + src@.subrange(0, i + 1));
        }
        i = i + 1;
    }
    proof {
        assert(src@.subrange(0, src@.len() as int) =~= src@);
    }
}

/// Relies on memchr::memmem::find: returns the starting index of the first
/// occurrence of `needle` in `hay`, or `None` when `needle` does not occur.
#[verifier::external_body]
fn find_needle(hay: &[u8], needle: &[u8]) -> (r: Option<usize>)
    ensures
        match r {
            Some(i) => is_match_at(hay@, needle@, i as int) && no_match_before(
                hay@,
                needle@,
                i as int,
            ),
            None => forall|j: int| !is_match_at(hay@, needle@, j),
        },
{
    memchr::memmem::find(hay, needle)
}

/// Where the reader stands: before the marker, after it, or at the end of
/// the stream.
#[derive(Clone, Copy, Debug, PartialEq, Eq, Structural)]
pub enum State {
    Start,
    MagicRead,
    Eof,
}

impl Default for State {
    fn default() -> (r: Self)
        ensures
            r == State::Start,
    {
        State::Start
    }
}

/// Incremental scanner for the magic marker.  Feed it the stream in chunks
/// of any size; its outcome depends only on the concatenation of the bytes
/// fed (see [`lemma_scan_depends_on_stream_only`]).
pub struct MagicScanner {
    pub buf: Vec<u8>,
    pub state: State,
    pub header: Vec<u8>,
    pub rest: Vec<u8>,
    /// All bytes fed so far, in order.
    pub fed: Ghost<Seq<u8>>,
    /// Once found: the position of the first marker occurrence in `fed`.
    pub pos: Ghost<int>,
}

impl MagicScanner {
    /// The scanner's state is an exact function of the bytes fed: while
    /// scanning, no full marker occurs anywhere in them; once found, the
    /// marker occurs first at `pos`, the header is everything before it and
    /// the rest everything after it.
    pub open spec fn wf(self) -> bool {
        match self.state {
            State::Start => self.buf@ == self.fed@ && no_match_before(
                self.fed@,
                spec_magic(),
                self.fed@.len() as int,
            ),
            State::MagicRead => {
                &&& is_match_at(self.fed@, spec_magic(), self.pos@)
                &&& no_match_before(self.fed@, spec_magic(), self.pos@)
                &&& self.header@ == self.fed@.take(self.pos@)
                &&& self.rest@ == self.fed@.skip(self.pos@ + 8)
            },
            State::Eof => false,
        }
    }

    /// Whether the marker has been found.
    pub open spec fn spec_found(self) -> bool {
        self.state is MagicRead
    }

    pub fn new() -> (r: MagicScanner)
        ensures
            r.wf(),
            r.fed@ == Seq::<u8>::empty(),
            !r.spec_found(),
    {
        let r = MagicScanner {
            buf: Vec::new(),
            state: State::Start,
            header: Vec::new(),
            rest: Vec::new(),
            fed: Ghost(Seq::empty()),
            pos: Ghost(0),
        };
        r
    }

    pub fn found(&self) -> (r: bool)
        ensures
            r == self.spec_found(),
    {
        match self.state {
            State::MagicRead => true,
            _ => false,
        }
    }

    /// Consume the next chunk of the stream.
    pub fn feed(&mut self, chunk: &[u8])
        requires
            old(self).wf(),
        ensures
            final(self).wf(),
            final(self).fed@ == old(self).fed@ + chunk@,
            old(self).spec_found() ==> final(self).spec_found() && final(self).pos@ == old(
                self,
            ).pos@,
    {
        proof {
            self.fed@ = self.fed@ + chunk@;
        }
        match self.state {
            State::MagicRead => {
                push_bytes(&mut self.rest, chunk);
                proof {
                    assert(self.fed@.skip(self.pos@ + 8) =~= old(self).fed@.skip(
                        self.pos@ + 8,
                    ) + chunk@);
                    assert(is_match_at(self.fed@, spec_magic(), self.pos@)) by {
                        assert(self.fed@.subrange(self.pos@, self.pos@ + 8) =~= old(
                            self,
                        ).fed@.subrange(self.pos@, self.pos@ + 8));
                    }
                    assert(self.header@ == self.fed@.take(self.pos@)) by {
                        assert(self.fed@.take(self.pos@) =~= old(self).fed@.take(
                            self.pos@,
                        ));
                    }
                    assert forall|j: int| 0 <= j < self.pos@ implies !is_match_at(
                        self.fed@,
                        spec_magic(),
                        j,
                    ) by {
                        if is_match_at(self.fed@, spec_magic(), j) {
                            assert(j + 8 <= self.pos@ + 8 <= old(self).fed@.len());
                            assert(self.fed@.subrange(j, j + 8) =~= old(self).fed@.subrange(
                                j,
                                j + 8,
                            ));
                            assert(is_match_at(old(self).fed@, spec_magic(), j));
                            assert(false);
                        }
                    }
                }
            },
            State::Start => {
                let ghost oldfed = old(self).fed@;
                let s0: usize = if self.buf.len() > 7 {
                    self.buf.len() - 7
                } else {
                    0
                };
                push_bytes(&mut self.buf, chunk);
                let hay: &[u8] = vstd::slice::slice_subrange(
                    self.buf.as_slice(),
                    s0,
                    self.buf.len(),
                );
                let needle = magic_bytes();
                proof {
                    assert(self.buf@ == self.fed@);
                    assert(hay@ == self.fed@.skip(s0 as int));
                    // A full occurrence wholly inside the old bytes would
                    // contradict the old invariant.
                    assert forall|j: int| 0 <= j < s0 implies !is_match_at(
                        self.fed@,
                        spec_magic(),
                        j,
                    ) by {
                        if is_match_at(self.fed@, spec_magic(), j) {
                            assert(j + 8 <= oldfed.len());
                            assert(oldfed.subrange(j, j + 8) =~= self.fed@.subrange(
                                j,
                                j + 8,
                            ));
                            assert(is_match_at(oldfed, spec_magic(), j));
                        }
                    }
                }
                match find_needle(hay, needle.as_slice()) {
                    Some(i) => {
                        let at = s0 + i;
                        proof {
                            lemma_match_translate(self.fed@, s0 as int, at as int);
                            assert forall|j: int| 0 <= j < at implies !is_match_at(
                                self.fed@,
                                spec_magic(),
                                j,
                            ) by {
                                if s0 <= j && is_match_at(self.fed@, spec_magic(), j) {
                                    lemma_match_translate(self.fed@, s0 as int, j);
                                }
                            }
                        }
                        self.header = vstd::slice::slice_to_vec(
                            vstd::slice::slice_subrange(self.buf.as_slice(), 0, at),
                        );
                        self.rest = vstd::slice::slice_to_vec(
                            vstd::slice::slice_subrange(self.buf.as_slice(), at + 8, self.buf.len()),
                        );
                        self.buf = Vec::new();
                        self.state = State::MagicRead;
                        proof {
                            self.pos@ = at as int;
                            assert(self.header@ =~= self.fed@.take(at as int));
                            assert(self.rest@ =~= self.fed@.skip(at + 8));
                        }
                    },
                    None => {
                        proof {
                            assert forall|j: int| 0 <= j < self.fed@.len() implies
                                !is_match_at(self.fed@, spec_magic(), j) by {
                                if s0 <= j && is_match_at(self.fed@, spec_magic(), j) {
                                    lemma_match_translate(self.fed@, s0 as int, j);
                                }
                            }
                        }
                    },
                }
            },
            State::Eof => {
                proof {
                    assert(false);
                }
            },
        }
    }

    /// Finish scanning: the decoded header text and the entry bytes that
    /// followed the marker, or the error the stream forces — `MagicNotFound`
    /// when the marker never appeared, `EncodingError` when the bytes before
    /// it are not valid UTF-8.
    pub fn into_parts(self) -> (r: Result<(String, Vec<u8>), FtraceError>)
        requires
            self.wf(),
        ensures
            match r {
                Ok((header, rest)) => {
                    &&& self.spec_found()
                    &&& valid_utf8(self.fed@.take(self.pos@))
                    &&& encode_utf8(header@) == self.fed@.take(self.pos@)
                    &&& rest@ == self.fed@.skip(self.pos@ + 8)
                },
                Err(FtraceError::MagicNotFound) => !self.spec_found() && no_match_before(
                    self.fed@,
                    spec_magic(),
                    self.fed@.len() as int,
                ),
                Err(FtraceError::EncodingError) => self.spec_found() && !valid_utf8(
                    self.fed@.take(self.pos@),
                ),
                Err(_) => false,
            },
    {
        match self.state {
            State::Start => Err(FtraceError::MagicNotFound),
            State::MagicRead => {
                match string_from_utf8(self.header) {
                    Ok(s) => Ok((s, self.rest)),
                    Err(e) => Err(e),
                }
            },
            State::Eof => {
                proof {
                    assert(false);
                }
                Err(FtraceError::MagicNotFound)
            },
        }
    }
}

/// An occurrence in a suffix is an occurrence in the whole, shifted.
proof fn lemma_match_translate(hay: Seq<u8>, s0: int, j: int)
    requires
        0 <= s0 <= hay.len(),
        s0 <= j,
    ensures
        is_match_at(hay, spec_magic(), j) <==> is_match_at(hay.skip(s0), spec_magic(), j - s0),
{
    if is_match_at(hay, spec_magic(), j) {
        assert(hay.skip(s0).subrange(j - s0, j - s0 + 8) =~= hay.subrange(j, j + 8));
    }
    if is_match_at(hay.skip(s0), spec_magic(), j - s0) {
        assert(hay.subrange(j, j + 8) =~= hay.skip(s0).subrange(j - s0, j - s0 + 8));
    }
}

/// Relies on String::from_utf8: succeeds exactly on valid UTF-8 input and
/// returns the string whose UTF-8 encoding is that input.
#[verifier::external_body]
fn string_from_utf8(bytes: Vec<u8>) -> (r: Result<String, FtraceError>)
    ensures
        match r {
            Ok(s) => valid_utf8(bytes@) && encode_utf8(s@) == bytes@,
            Err(e) => !valid_utf8(bytes@) && e == FtraceError::EncodingError,
        },
{
    match String::from_utf8(bytes) {
        Ok(s) => Ok(s),
        Err(_) => Err(FtraceError::EncodingError),
    }
}

/// Magic scanning is chunking-independent: two well-formed scanners that
/// were fed the same bytes — in however many chunks — agree on whether the
/// marker occurred, where it first occurred, and on the header and entry
/// bytes around it.
pub proof fn lemma_scan_depends_on_stream_only(a: MagicScanner, b: MagicScanner)
    requires
        a.wf(),
        b.wf(),
        a.fed@ == b.fed@,
    ensures
        a.spec_found() == b.spec_found(),
        a.spec_found() ==> a.pos@ == b.pos@,
{
    if a.spec_found() && b.spec_found() {
        assert(a.pos@ == b.pos@) by {
            if a.pos@ < b.pos@ {
                assert(!is_match_at(b.fed@, spec_magic(), a.pos@));
            }
            if b.pos@ < a.pos@ {
                assert(!is_match_at(a.fed@, spec_magic(), b.pos@));
            }
        }
    }
    if a.spec_found() && !b.spec_found() {
        assert(a.pos@ + 8 <= a.fed@.len());
        assert(!is_match_at(b.fed@, spec_magic(), a.pos@));
    }
    if !a.spec_found() && b.spec_found() {
        assert(b.pos@ + 8 <= b.fed@.len());
        assert(!is_match_at(a.fed@, spec_magic(), b.pos@));
    }
}

/// The words of consecutive eight-byte little-endian entries.
pub open spec fn spec_entries(b: Seq<u8>) -> Seq<u64>
    recommends
        b.len() % 8 == 0,
{
    Seq::new(
        b.len() / 8,
        |i: int| vstd::bytes::spec_u64_from_le_bytes(b.subrange(8 * i, 8 * i + 8)),
    )
}

/// Decode one eight-byte little-endian entry.
pub fn decode_entry(bytes: &[u8]) -> (r: RawFtrace)
    requires
        bytes@.len() == 8,
    ensures
        r.0 == vstd::bytes::spec_u64_from_le_bytes(bytes@),
{
    RawFtrace(vstd::bytes::u64_from_le_bytes(bytes))
}

/// Decode a whole entry section.  A trailing fragment of one to seven bytes
/// means the trace was cut off in the middle of an entry.
pub fn decode_entries(bytes: &[u8]) -> (r: Result<Vec<RawFtrace>, FtraceError>)
    ensures
        match r {
            Ok(es) => bytes@.len() % 8 == 0 && es@.len() == bytes@.len() / 8 && forall|i: int|
                0 <= i < es@.len() ==> (#[trigger] es@[i]).0 == spec_entries(bytes@)[i],
            Err(e) => bytes@.len() % 8 != 0 && e == FtraceError::TruncatedEntry,
        },
{
    if bytes.len() % 8 != 0 {
        return Err(FtraceError::TruncatedEntry);
    }
    let n = bytes.len() / 8;
    let mut es: Vec<RawFtrace> = Vec::new();
    let mut i: usize = 0;
    while i < n
        invariant
            bytes@.len() == 8 * n,
            8 * n <= usize::MAX,
            i <= n,
            es@.len() == i,
            forall|k: int| 0 <= k < i ==> (#[trigger] es@[k]).0 == spec_entries(bytes@)[k],
        decreases n - i,
    {
        let chunk = vstd::slice::slice_subrange(bytes, 8 * i, 8 * i + 8);
        let e = decode_entry(chunk);
        es.push(e);
        i = i + 1;
    }
    Ok(es)
}

} // verus!
