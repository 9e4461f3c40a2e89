//! The textual metadata embedded in a trace header: the runtime load
//! address, the memory-region table, the module list, and the line naming
//! the traced module.
//!
//! The grammar is line-oriented and fixed-order.  The first line must carry
//! the runtime load address; any number of `region` lines and module-list
//! lines follow, each section ending at the first line that does not match;
//! the next line must name the traced module.  Hexadecimal fields are
//! lower-case and `0x`-prefixed except the final load address, and a
//! malformed field is a hard error: bad metadata must never resolve to
//! wrong symbols.

use crate::lex::{
    dec_run_len, dec_value_of, hex_run_len, hex_value_of, is_dec_digit, is_hex_digit,
};
use crate::scan::is_match_at;
use vstd::prelude::*;

verus! {

use vstd::string::StringSliceAdditionalSpecFns;

/// Errors raised while parsing header metadata.
#[derive(Clone, Copy, Debug, PartialEq, Eq, Hash, Structural)]
pub enum SymbolError {
    /// A module identifier did not parse as a UUID.
    UuidError,
    /// A malformed load-address, module-list or module-graph line.
    InvalidSymbolInfo,
    /// A malformed region-table line.
    InvalidRegionTable,
    /// A character outside `rwxs-` in a permission-flag field.
    InvalidRegionFlags,
}

pub const FLAG_READ: u32 = 0b0001;

pub const FLAG_WRITE: u32 = 0b0010;

pub const FLAG_EXEC: u32 = 0b0100;

pub const FLAG_SECURE: u32 = 0b1000;

/// The bit a permission-flag character stands for; `None` for a character
/// outside the grammar.
pub open spec fn flag_bit(b: u8) -> Option<u32> {
    if b == 114 {
        Some(FLAG_READ)
    } else if b == 119 {
        Some(FLAG_WRITE)
    } else if b == 120 {
        Some(FLAG_EXEC)
    } else if b == 115 {
        Some(FLAG_SECURE)
    } else if b == 45 {
        Some(0)
    } else {
        None
    }
}

/// The bitset a permission-flag string denotes, or the error its first
/// unrecognized character forces.
pub open spec fn spec_flags(s: Seq<u8>) -> Result<u32, SymbolError>
    decreases s.len(),
{
    if s.len() == 0 {
        Ok(0)
    } else {
        match spec_flags(s.drop_last()) {
            Ok(m) => match flag_bit(s.last()) {
                Some(bit) => Ok(m | bit),
                None => Err(SymbolError::InvalidRegionFlags),
            },
            Err(e) => Err(e),
        }
    }
}

proof fn lemma_flags_err_extends(s: Seq<u8>, k: int)
    requires
        0 <= k <= s.len(),
        spec_flags(s.take(k)) is Err,
    ensures
        spec_flags(s) == Err::<u32, SymbolError>(SymbolError::InvalidRegionFlags),
    decreases s.len() - k,
{
    assert(spec_flags(s.take(k)) == Err::<u32, SymbolError>(SymbolError::InvalidRegionFlags))
        by {
        lemma_flags_err_is_flags(s.take(k));
    }
    if k == s.len() {
        assert(s.take(k) =~= s);
    } else {
        assert(s.take(k + 1).drop_last() =~= s.take(k));
        lemma_flags_err_extends(s, k + 1);
    }
}

proof fn lemma_flags_err_is_flags(s: Seq<u8>)
    requires
        spec_flags(s) is Err,
    ensures
        spec_flags(s) == Err::<u32, SymbolError>(SymbolError::InvalidRegionFlags),
    decreases s.len(),
{
    if s.len() > 0 {
        if spec_flags(s.drop_last()) is Err {
            lemma_flags_err_is_flags(s.drop_last());
        }
    }
}

/// A memory-region permission set: some of read, write, execute, secure.
#[derive(Clone, Copy, Debug, PartialEq, Eq, Hash, Structural)]
pub struct RegionFlags {
    pub bits: u32,
}

impl RegionFlags {
    pub fn empty() -> (r: RegionFlags)
        ensures
            r.bits == 0,
    {
        RegionFlags { bits: 0 }
    }

    pub fn bits(&self) -> (r: u32)
        ensures
            r == self.bits,
    {
        self.bits
    }

    pub fn contains(&self, bit: u32) -> (r: bool)
        ensures
            r == (self.bits & bit == bit),
    {
        self.bits & bit == bit
    }

    /// Parse a permission-flag string: `r`, `w`, `x`, `s` set their bit,
    /// `-` sets none, anything else is an error.
    pub fn from_str(s: &str) -> (r: Result<RegionFlags, SymbolError>)
        ensures
            match r {
                Ok(f) => spec_flags(s.spec_bytes()) == Ok::<u32, SymbolError>(f.bits),
                Err(e) => spec_flags(s.spec_bytes()) == Err::<u32, SymbolError>(e),
            },
    {
        let bytes = s.as_bytes();
        Self::from_bytes(bytes)
    }

    /// Parse a permission-flag field given as raw bytes.
    pub fn from_bytes(bytes: &[u8]) -> (r: Result<RegionFlags, SymbolError>)
        ensures
            match r {
                Ok(f) => spec_flags(bytes@) == Ok::<u32, SymbolError>(f.bits),
                Err(e) => spec_flags(bytes@) == Err::<u32, SymbolError>(e),
            },
    {
        let mut bits: u32 = 0;
        let mut i: usize = 0;
        let n = bytes.len();
        while i < n
            invariant
                n == bytes@.len(),
                i <= n,
                spec_flags(bytes@.take(i as int)) == Ok::<u32, SymbolError>(bits),
            decreases n - i,
        {
            let b = *vstd::slice::slice_index_get(bytes, i);
            proof {
                assert(bytes@.take(i + 1).drop_last() =~= bytes@.take(i as int));
                assert(bytes@.take(i + 1).last() == bytes@[i as int]);
            }
            let bit: u32 = if b == 114 {
                FLAG_READ
            } else if b == 119 {
                FLAG_WRITE
            } else if b == 120 {
                FLAG_EXEC
            } else if b == 115 {
                FLAG_SECURE
            } else if b == 45 {
                0
            } else {
                proof {
                    lemma_flags_err_extends(bytes@, i + 1);
                }
                return Err(SymbolError::InvalidRegionFlags);
            };
            bits = bits | bit;
            i = i + 1;
        }
        proof {
            assert(bytes@.take(n as int) =~= bytes@);
        }
        Ok(RegionFlags { bits })
    }
}

/// One parsed region-table line: a virtual-to-physical mapping with its
/// size, permissions, and the module it belongs to, if any.
#[derive(Clone, Copy, Debug, PartialEq, Eq, Structural)]
pub struct RegionData {
    pub va: u64,
    pub pa: u64,
    pub size: usize,
    pub flags: RegionFlags,
    pub elf_idx: Option<usize>,
}

/// One parsed module-list line: the module's table index, identity and
/// load address.
#[derive(Clone, Copy, Debug, PartialEq, Eq, Structural)]
pub struct ElfInfo {
    pub idx: usize,
    pub uuid: u128,
    pub load_addr: u64,
}

/// What uuid::Uuid::parse_str makes of a piece of text: the 128-bit value,
/// or `None` when the text is not one of the UUID formats it accepts.
pub uninterp spec fn uuid_of_bytes(b: Seq<u8>) -> Option<u128>;

/// Relies on uuid::Uuid::parse_str: a deterministic function of the text
/// alone, yielding the UUID's 128-bit value on success.  Bytes that are not
/// UTF-8 cannot be a UUID in any of its accepted formats.
#[verifier::external_body]
fn parse_uuid_bytes(b: &[u8]) -> (r: Option<u128>)
    ensures
        r == uuid_of_bytes(b@),
{
    match core::str::from_utf8(b) {
        Ok(s) => match uuid::Uuid::parse_str(s) {
            Ok(u) => Some(u.as_u128()),
            Err(_) => None,
        },
        Err(_) => None,
    }
}

/// A byte the UUID and hyphen-tolerant hexadecimal fields may contain.
pub open spec fn is_uuid_char(b: u8) -> bool {
    is_hex_digit(b) || b == 45
}

/// Length of the maximal run of UUID characters starting at `from`.
pub open spec fn uuid_run_len(s: Seq<u8>, from: int) -> int
    decreases s.len() - from,
{
    if 0 <= from < s.len() && is_uuid_char(s[from]) {
        1 + uuid_run_len(s, from + 1)
    } else {
        0
    }
}

/// An ASCII whitespace byte, as leading blank space before a module-list
/// line.
pub open spec fn is_ws(b: u8) -> bool {
    b == 9 || b == 10 || b == 11 || b == 12 || b == 13 || b == 32
}

/// Length of the maximal run of whitespace starting at `from`.
pub open spec fn ws_run_len(s: Seq<u8>, from: int) -> int
    decreases s.len() - from,
{
    if 0 <= from < s.len() && is_ws(s[from]) {
        1 + ws_run_len(s, from + 1)
    } else {
        0
    }
}

/// Length of the maximal run of plain spaces starting at `from`.
pub open spec fn space_run_len(s: Seq<u8>, from: int) -> int
    decreases s.len() - from,
{
    if 0 <= from < s.len() && s[from] == 32 {
        1 + space_run_len(s, from + 1)
    } else {
        0
    }
}

pub proof fn lemma_uuid_run_in_bounds(s: Seq<u8>, from: int)
    requires
        0 <= from <= s.len(),
    ensures
        from + uuid_run_len(s, from) <= s.len(),
        uuid_run_len(s, from) >= 0,
    decreases s.len() - from,
{
    if from < s.len() && is_uuid_char(s[from]) {
        lemma_uuid_run_in_bounds(s, from + 1);
    }
}

pub proof fn lemma_ws_run_in_bounds(s: Seq<u8>, from: int)
    requires
        0 <= from <= s.len(),
    ensures
        from + ws_run_len(s, from) <= s.len(),
        ws_run_len(s, from) >= 0,
    decreases s.len() - from,
{
    if from < s.len() && is_ws(s[from]) {
        lemma_ws_run_in_bounds(s, from + 1);
    }
}

pub proof fn lemma_space_run_in_bounds(s: Seq<u8>, from: int)
    requires
        0 <= from <= s.len(),
    ensures
        from + space_run_len(s, from) <= s.len(),
        space_run_len(s, from) >= 0,
    decreases s.len() - from,
{
    if from < s.len() && s[from] == 32 {
        lemma_space_run_in_bounds(s, from + 1);
    }
}

fn uuid_run(line: &[u8], from: usize) -> (r: usize)
    requires
        from <= line@.len(),
    ensures
        r == uuid_run_len(line@, from as int),
        from + r <= line@.len(),
        forall|j: int| from <= j < from + r ==> is_uuid_char(#[trigger] line@[j]),
{
    proof {
        lemma_uuid_run_in_bounds(line@, from as int);
    }
    let mut i: usize = from;
    while i < line.len() && uuid_byte(*vstd::slice::slice_index_get(line, i))
        invariant
            from <= i <= line@.len(),
            forall|j: int| from <= j < i ==> is_uuid_char(#[trigger] line@[j]),
            uuid_run_len(line@, from as int) == (i - from) + uuid_run_len(line@, i as int),
        decreases line@.len() - i,
    {
        i = i + 1;
    }
    proof {
        assert(uuid_run_len(line@, i as int) == 0);
    }
    i - from
}

fn uuid_byte(b: u8) -> (r: bool)
    ensures
        r == is_uuid_char(b),
{
    (48 <= b && b <= 57) || (97 <= b && b <= 102) || b == 45
}

fn ws_byte(b: u8) -> (r: bool)
    ensures
        r == is_ws(b),
{
    b == 9 || b == 10 || b == 11 || b == 12 || b == 13 || b == 32
}

fn ws_run(line: &[u8], from: usize) -> (r: usize)
    requires
        from <= line@.len(),
    ensures
        r == ws_run_len(line@, from as int),
        from + r <= line@.len(),
{
    proof {
        lemma_ws_run_in_bounds(line@, from as int);
    }
    let mut i: usize = from;
    while i < line.len() && ws_byte(*vstd::slice::slice_index_get(line, i))
        invariant
            from <= i <= line@.len(),
            forall|j: int| from <= j < i ==> is_ws(#[trigger] line@[j]),
            ws_run_len(line@, from as int) == (i - from) + ws_run_len(line@, i as int),
        decreases line@.len() - i,
    {
        i = i + 1;
    }
    proof {
        assert(ws_run_len(line@, i as int) == 0);
    }
    i - from
}

fn space_byte(b: u8) -> (r: bool)
    ensures
        r == (b == 32),
{
    b == 32
}

fn space_run(line: &[u8], from: usize) -> (r: usize)
    requires
        from <= line@.len(),
    ensures
        r == space_run_len(line@, from as int),
        from + r <= line@.len(),
{
    proof {
        lemma_space_run_in_bounds(line@, from as int);
    }
    let mut i: usize = from;
    while i < line.len() && space_byte(*vstd::slice::slice_index_get(line, i))
        invariant
            from <= i <= line@.len(),
            forall|j: int| from <= j < i ==> line@[j] == 32,
            space_run_len(line@, from as int) == (i - from) + space_run_len(line@, i as int),
        decreases line@.len() - i,
    {
        i = i + 1;
    }
    proof {
        assert(space_run_len(line@, i as int) == 0);
    }
    i - from
}

} // verus!

verus! {

use crate::lex::{bytes_match_at, dec_run, dec_value, hex_byte, hex_run, hex_value};

pub open spec fn tee_prefix() -> Seq<u8> {
    "TEE load address @ 0x".spec_bytes()
}

/// The runtime load-address pattern occurs at `i`: the literal prefix with
/// at least one hexadecimal digit right after it.
pub open spec fn tee_cond(b: Seq<u8>, i: int) -> bool {
    is_match_at(b, tee_prefix(), i) && i + tee_prefix().len() < b.len() && is_hex_digit(
        b[i + tee_prefix().len()],
    )
}

/// The first position where the runtime load-address pattern occurs.
pub open spec fn first_tee(b: Seq<u8>, from: int) -> Option<int>
    decreases b.len() - from,
{
    if !(0 <= from < b.len()) {
        None
    } else if tee_cond(b, from) {
        Some(from)
    } else {
        first_tee(b, from + 1)
    }
}

/// What the first header line yields: the runtime load address, or an
/// error when no load-address pattern occurs or its number overflows.
#[verifier::opaque]
pub open spec fn spec_tee_line(b: Seq<u8>) -> Result<u64, SymbolError> {
    match first_tee(b, 0) {
        None => Err(SymbolError::InvalidSymbolInfo),
        Some(i) => {
            let p = i + tee_prefix().len();
            let n = hex_run_len(b, p);
            let v = hex_value_of(b.subrange(p, p + n));
            if v > u64::MAX {
                Err(SymbolError::InvalidSymbolInfo)
            } else {
                Ok(v as u64)
            }
        },
    }
}

/// Parse the runtime load-address line.
pub fn parse_tee_line(line: &[u8]) -> (r: Result<u64, SymbolError>)
    ensures
        r == spec_tee_line(line@),
{
    proof {
        reveal(spec_tee_line);
    }
    let pat = "TEE load address @ 0x".as_bytes();
    let n = line.len();
    let mut i: usize = 0;
    while i < n
        invariant
            n == line@.len(),
            pat@ == tee_prefix(),
            i <= n,
            first_tee(line@, 0) == first_tee(line@, i as int),
        decreases n - i,
    {
        if bytes_match_at(line, pat, i) {
            let p = i + pat.len();
            if p < n && hex_byte(*vstd::slice::slice_index_get(line, p)) {
                proof {
                    reveal(spec_tee_line);
                    assert(tee_cond(line@, i as int));
                    assert(first_tee(line@, i as int) == Some(i as int));
                }
                let run = hex_run(line, p);
                return match hex_value(line, p, run) {
                    Some(v) => Ok(v),
                    None => Err(SymbolError::InvalidSymbolInfo),
                };
            }
        }
        proof {
            assert(!tee_cond(line@, i as int));
            assert(first_tee(line@, i as int) == first_tee(line@, i + 1));
        }
        i = i + 1;
    }
    proof {
        assert(first_tee(line@, n as int) is None);
    }
    Err(SymbolError::InvalidSymbolInfo)
}

pub open spec fn fg_prefix() -> Seq<u8> {
    "Function graph for TA: ".spec_bytes()
}

/// The traced-module pattern occurs at `i`: the literal prefix, a UUID
/// text, a separating ` @ `, and at least one hexadecimal digit.
pub open spec fn fg_cond(b: Seq<u8>, i: int) -> bool {
    is_match_at(b, fg_prefix(), i) && {
        let p = i + fg_prefix().len();
        let ur = uuid_run_len(b, p);
        let q = p + ur;
        ur >= 1 && q + 3 < b.len() && b[q] == 32 && b[q + 1] == 64 && b[q + 2] == 32
            && is_hex_digit(b[q + 3])
    }
}

/// The first position where the traced-module pattern occurs.
pub open spec fn first_fg(b: Seq<u8>, from: int) -> Option<int>
    decreases b.len() - from,
{
    if !(0 <= from < b.len()) {
        None
    } else if fg_cond(b, from) {
        Some(from)
    } else {
        first_fg(b, from + 1)
    }
}

/// What the traced-module line yields: the module's UUID value and its
/// load address (this one written without a `0x` prefix).
#[verifier::opaque]
pub open spec fn spec_fg_line(b: Seq<u8>) -> Result<(u128, u64), SymbolError> {
    match first_fg(b, 0) {
        None => Err(SymbolError::InvalidSymbolInfo),
        Some(i) => {
            let p = i + fg_prefix().len();
            let ur = uuid_run_len(b, p);
            let q = p + ur;
            match uuid_of_bytes(b.subrange(p, q)) {
                None => Err(SymbolError::UuidError),
                Some(u) => {
                    let hr = hex_run_len(b, q + 3);
                    let v = hex_value_of(b.subrange(q + 3, q + 3 + hr));
                    if v > u64::MAX {
                        Err(SymbolError::InvalidSymbolInfo)
                    } else {
                        Ok((u, v as u64))
                    }
                },
            }
        },
    }
}

/// Parse the traced-module line.
pub fn parse_fg_line(line: &[u8]) -> (r: Result<(u128, u64), SymbolError>)
    ensures
        r == spec_fg_line(line@),
{
    proof {
        reveal(spec_fg_line);
    }
    let pat = "Function graph for TA: ".as_bytes();
    let n = line.len();
    let mut i: usize = 0;
    while i < n
        invariant
            n == line@.len(),
            pat@ == fg_prefix(),
            i <= n,
            first_fg(line@, 0) == first_fg(line@, i as int),
        decreases n - i,
    {
        if bytes_match_at(line, pat, i) {
            let p = i + pat.len();
            let ur = uuid_run(line, p);
            let q = p + ur;
            if ur >= 1 && n - q > 3 && *vstd::slice::slice_index_get(line, q) == 32
                && *vstd::slice::slice_index_get(line, q + 1) == 64
                && *vstd::slice::slice_index_get(line, q + 2) == 32
                && hex_byte(*vstd::slice::slice_index_get(line, q + 3)) {
                proof {
                    reveal(spec_fg_line);
                    assert(fg_cond(line@, i as int));
                    assert(first_fg(line@, i as int) == Some(i as int));
                }
                let ub = vstd::slice::slice_subrange(line, p, q);
                return match parse_uuid_bytes(ub) {
                    None => Err(SymbolError::UuidError),
                    Some(u) => {
                        let hr = hex_run(line, q + 3);
                        match hex_value(line, q + 3, hr) {
                            Some(v) => Ok((u, v)),
                            None => Err(SymbolError::InvalidSymbolInfo),
                        }
                    },
                };
            }
        }
        proof {
            assert(!fg_cond(line@, i as int));
            assert(first_fg(line@, i as int) == first_fg(line@, i + 1));
        }
        i = i + 1;
    }
    proof {
        assert(first_fg(line@, n as int) is None);
    }
    Err(SymbolError::InvalidSymbolInfo)
}

} // verus!

verus! {

pub open spec fn region_prefix() -> Seq<u8> {
    "region".spec_bytes()
}

/// Whether a line opens with the literal token `region` and so belongs to
/// the region table.
pub open spec fn starts_with_region(b: Seq<u8>) -> bool {
    is_match_at(b, region_prefix(), 0)
}

pub open spec fn va_token() -> Seq<u8> {
    ": va 0x".spec_bytes()
}

pub open spec fn pa_token() -> Seq<u8> {
    " pa 0x".spec_bytes()
}

pub open spec fn size_token() -> Seq<u8> {
    " size 0x".spec_bytes()
}

pub open spec fn flags_token() -> Seq<u8> {
    " flags ".spec_bytes()
}

/// The optional bracketed module index after the flag field: present when
/// a space and a complete `[<digits>]` group follow, an error when the
/// digits overflow, absent otherwise.
pub open spec fn spec_region_idx(b: Seq<u8>, p: int) -> Result<Option<usize>, SymbolError> {
    if p + 1 < b.len() && b[p] == 32 && b[p + 1] == 91 {
        let q = p + 2;
        let er = dec_run_len(b, q);
        if er >= 1 && q + er < b.len() && b[q + er] == 93 {
            let v = dec_value_of(b.subrange(q, q + er));
            if v > usize::MAX {
                Err(SymbolError::InvalidRegionTable)
            } else {
                Ok(Some(v as usize))
            }
        } else {
            Ok(None)
        }
    } else {
        Ok(None)
    }
}

/// What a region-table line yields.  The columns are fixed: the (ignored)
/// region index, `va`, `pa` and `size` as `0x`-prefixed lower-case
/// hexadecimal numbers, a four-character permission field, and optionally
/// a bracketed module index.  Any other shape is an error.
#[verifier::opaque]
pub open spec fn spec_region_line(b: Seq<u8>) -> Result<RegionData, SymbolError> {
    let sp = space_run_len(b, region_prefix().len() as int);
    let p1 = region_prefix().len() + sp;
    let dr = dec_run_len(b, p1);
    let p2 = p1 + dr;
    if !starts_with_region(b) || sp == 0 || dr == 0 || !is_match_at(b, va_token(), p2) {
        Err(SymbolError::InvalidRegionTable)
    } else {
        let p3 = p2 + va_token().len();
        let vr = hex_run_len(b, p3);
        let va_v = hex_value_of(b.subrange(p3, p3 + vr));
        let p4 = p3 + vr;
        if vr == 0 || va_v > u64::MAX || !is_match_at(b, pa_token(), p4) {
            Err(SymbolError::InvalidRegionTable)
        } else {
            let p5 = p4 + pa_token().len();
            let pr = hex_run_len(b, p5);
            let pa_v = hex_value_of(b.subrange(p5, p5 + pr));
            let p6 = p5 + pr;
            if pr == 0 || pa_v > u64::MAX || !is_match_at(b, size_token(), p6) {
                Err(SymbolError::InvalidRegionTable)
            } else {
                let p7 = p6 + size_token().len();
                let sr = hex_run_len(b, p7);
                let size_v = hex_value_of(b.subrange(p7, p7 + sr));
                let p8 = p7 + sr;
                if sr == 0 || size_v > usize::MAX || !is_match_at(b, flags_token(), p8) {
                    Err(SymbolError::InvalidRegionTable)
                } else {
                    let p9 = p8 + flags_token().len();
                    if p9 + 4 > b.len() {
                        Err(SymbolError::InvalidRegionTable)
                    } else {
                        match spec_flags(b.subrange(p9, p9 + 4)) {
                            Err(_) => Err(SymbolError::InvalidRegionTable),
                            Ok(bits) => match spec_region_idx(b, p9 + 4) {
                                Err(e) => Err(e),
                                Ok(idx) => Ok(
                                    RegionData {
                                        va: va_v as u64,
                                        pa: pa_v as u64,
                                        size: size_v as usize,
                                        flags: RegionFlags { bits },
                                        elf_idx: idx,
                                    },
                                ),
                            },
                        }
                    }
                }
            }
        }
    }
}

impl RegionData {
    /// Parse one region-table line given as text.
    pub fn from_str(s: &str) -> (r: Result<RegionData, SymbolError>)
        ensures
            r == spec_region_line(s.spec_bytes()),
    {
        parse_region_line(s.as_bytes())
    }
}

/// Parse one region-table line.
pub fn parse_region_line(line: &[u8]) -> (r: Result<RegionData, SymbolError>)
    ensures
        r == spec_region_line(line@),
{
    proof {
        reveal(spec_region_line);
    }
    let n = line.len();
    let region_pat = "region".as_bytes();
    let va_pat = ": va 0x".as_bytes();
    let pa_pat = " pa 0x".as_bytes();
    let size_pat = " size 0x".as_bytes();
    let flags_pat = " flags ".as_bytes();
    if !bytes_match_at(line, region_pat, 0) {
        return Err(SymbolError::InvalidRegionTable);
    }
    let sp = space_run(line, region_pat.len());
    let p1 = region_pat.len() + sp;
    let dr = dec_run(line, p1);
    let p2 = p1 + dr;
    if sp == 0 || dr == 0 || !bytes_match_at(line, va_pat, p2) {
        return Err(SymbolError::InvalidRegionTable);
    }
    let p3 = p2 + va_pat.len();
    let vr = hex_run(line, p3);
    if vr == 0 {
        return Err(SymbolError::InvalidRegionTable);
    }
    let va_v = match hex_value(line, p3, vr) {
        Some(v) => v,
        None => {
            return Err(SymbolError::InvalidRegionTable);
        },
    };
    let p4 = p3 + vr;
    if !bytes_match_at(line, pa_pat, p4) {
        return Err(SymbolError::InvalidRegionTable);
    }
    let p5 = p4 + pa_pat.len();
    let pr = hex_run(line, p5);
    if pr == 0 {
        return Err(SymbolError::InvalidRegionTable);
    }
    let pa_v = match hex_value(line, p5, pr) {
        Some(v) => v,
        None => {
            return Err(SymbolError::InvalidRegionTable);
        },
    };
    let p6 = p5 + pr;
    if !bytes_match_at(line, size_pat, p6) {
        return Err(SymbolError::InvalidRegionTable);
    }
    let p7 = p6 + size_pat.len();
    let sr = hex_run(line, p7);
    if sr == 0 {
        return Err(SymbolError::InvalidRegionTable);
    }
    let size_v64 = match hex_value(line, p7, sr) {
        Some(v) => v,
        None => {
            return Err(SymbolError::InvalidRegionTable);
        },
    };
    if size_v64 > usize::MAX as u64 {
        return Err(SymbolError::InvalidRegionTable);
    }
    let size_v = size_v64 as usize;
    let p8 = p7 + sr;
    if !bytes_match_at(line, flags_pat, p8) {
        return Err(SymbolError::InvalidRegionTable);
    }
    let p9 = p8 + flags_pat.len();
    if n - p9 < 4 {
        return Err(SymbolError::InvalidRegionTable);
    }
    let flag_field = vstd::slice::slice_subrange(line, p9, p9 + 4);
    let flags = match RegionFlags::from_bytes(flag_field) {
        Ok(f) => f,
        Err(_) => {
            return Err(SymbolError::InvalidRegionTable);
        },
    };
    let p10 = p9 + 4;
    let elf_idx: Option<usize> = if n - p10 > 1 && *vstd::slice::slice_index_get(line, p10) == 32
        && *vstd::slice::slice_index_get(line, p10 + 1) == 91 {
        let q = p10 + 2;
        let er = dec_run(line, q);
        if er >= 1 && q + er < n && *vstd::slice::slice_index_get(line, q + er) == 93 {
            match dec_value(line, q, er) {
                Some(v) => Some(v),
                None => {
                    return Err(SymbolError::InvalidRegionTable);
                },
            }
        } else {
            None
        }
    } else {
        None
    };
    Ok(RegionData { va: va_v, pa: pa_v, size: size_v, flags, elf_idx })
}

pub open spec fn elf_at_token() -> Seq<u8> {
    " @ 0x".spec_bytes()
}

/// Whether a line's first non-blank character is `[`, making it a
/// module-list candidate.
pub open spec fn elf_candidate(b: Seq<u8>) -> bool {
    ws_run_len(b, 0) < b.len() && b[ws_run_len(b, 0)] == 91
}

/// What a module-list line yields: `[<index>] <uuid> @ 0x<hex>` after any
/// leading blank space.  The index must fit a `usize`, the UUID must parse,
/// and the load address must be pure hexadecimal within 64 bits.
#[verifier::opaque]
pub open spec fn spec_elf_line(b: Seq<u8>) -> Result<ElfInfo, SymbolError> {
    let t = ws_run_len(b, 0);
    let q = t + 1;
    let dr = dec_run_len(b, q);
    if !(t < b.len() && b[t] == 91) || dr == 0 || !(q + dr + 1 < b.len()) || b[q + dr] != 93 || b[q
        + dr + 1] != 32 {
        Err(SymbolError::InvalidSymbolInfo)
    } else {
        let iv = dec_value_of(b.subrange(q, q + dr));
        if iv > usize::MAX {
            Err(SymbolError::InvalidSymbolInfo)
        } else {
            let u0 = q + dr + 2;
            let ur = uuid_run_len(b, u0);
            if ur == 0 || !is_match_at(b, elf_at_token(), u0 + ur) {
                Err(SymbolError::InvalidSymbolInfo)
            } else {
                match uuid_of_bytes(b.subrange(u0, u0 + ur)) {
                    None => Err(SymbolError::UuidError),
                    Some(u) => {
                        let h0 = u0 + ur + elf_at_token().len();
                        let lr = uuid_run_len(b, h0);
                        let hr = hex_run_len(b, h0);
                        let v = hex_value_of(b.subrange(h0, h0 + hr));
                        if lr == 0 || hr != lr || v > u64::MAX {
                            Err(SymbolError::InvalidSymbolInfo)
                        } else {
                            Ok(ElfInfo { idx: iv as usize, uuid: u, load_addr: v as u64 })
                        }
                    },
                }
            }
        }
    }
}

impl ElfInfo {
    /// Parse one module-list line given as text.
    pub fn from_str(s: &str) -> (r: Result<ElfInfo, SymbolError>)
        ensures
            r == spec_elf_line(s.spec_bytes()),
    {
        parse_elf_line(s.as_bytes())
    }
}

/// Parse one module-list line.
pub fn parse_elf_line(line: &[u8]) -> (r: Result<ElfInfo, SymbolError>)
    ensures
        r == spec_elf_line(line@),
{
    proof {
        reveal(spec_elf_line);
    }
    let n = line.len();
    let at_pat = " @ 0x".as_bytes();
    let t = ws_run(line, 0);
    if !(t < n && *vstd::slice::slice_index_get(line, t) == 91) {
        return Err(SymbolError::InvalidSymbolInfo);
    }
    let q = t + 1;
    let dr = dec_run(line, q);
    if dr == 0 || !(n - (q + dr) > 1) || *vstd::slice::slice_index_get(line, q + dr) != 93
        || *vstd::slice::slice_index_get(line, q + dr + 1) != 32 {
        return Err(SymbolError::InvalidSymbolInfo);
    }
    let iv = match dec_value(line, q, dr) {
        Some(v) => v,
        None => {
            return Err(SymbolError::InvalidSymbolInfo);
        },
    };
    let u0 = q + dr + 2;
    let ur = uuid_run(line, u0);
    if ur == 0 || !bytes_match_at(line, at_pat, u0 + ur) {
        return Err(SymbolError::InvalidSymbolInfo);
    }
    let ub = vstd::slice::slice_subrange(line, u0, u0 + ur);
    let u = match parse_uuid_bytes(ub) {
        None => {
            return Err(SymbolError::UuidError);
        },
        Some(u) => u,
    };
    let h0 = u0 + ur + at_pat.len();
    let lr = uuid_run(line, h0);
    let hr = hex_run(line, h0);
    if lr == 0 || hr != lr {
        return Err(SymbolError::InvalidSymbolInfo);
    }
    let v = match hex_value(line, h0, hr) {
        Some(v) => v,
        None => {
            return Err(SymbolError::InvalidSymbolInfo);
        },
    };
    Ok(ElfInfo { idx: iv, uuid: u, load_addr: v })
}

} // verus!

verus! {

use std::collections::HashMap;

/// Where the first line of `s` ends: the index of its first line feed, or
/// the text's length when it has none.
pub open spec fn line_end(s: Seq<char>) -> int
    decreases s.len(),
{
    if s.len() == 0 {
        0
    } else if s[0] == '\n' {
        0
    } else {
        1 + line_end(s.drop_first())
    }
}

/// A carriage return directly before a line feed belongs to the line
/// ending, not to the line.
pub open spec fn strip_cr(l: Seq<char>) -> Seq<char> {
    if l.len() > 0 && l.last() == '\r' {
        l.drop_last()
    } else {
        l
    }
}

pub proof fn lemma_line_end_in_bounds(s: Seq<char>)
    ensures
        0 <= line_end(s) <= s.len(),
    decreases s.len(),
{
    if s.len() > 0 && s[0] != '\n' {
        lemma_line_end_in_bounds(s.drop_first());
    }
}

/// The lines of a text as `str::lines` splits them: at line feeds, each
/// line losing one carriage return directly before its line feed, with no
/// final empty line after a trailing line feed.
pub open spec fn spec_lines_chars(s: Seq<char>) -> Seq<Seq<char>>
    decreases s.len(),
{
    if s.len() == 0 {
        Seq::empty()
    } else {
        let k = line_end(s);
        if !(0 <= k < s.len()) {
            seq![s]
        } else {
            seq![strip_cr(s.take(k))] + spec_lines_chars(s.skip(k + 1))
        }
    }
}

/// Relies on str::lines: splits at line feeds, also dropping one carriage
/// return directly before each line feed, and yields no final empty line
/// for a text that ends with a line feed.
#[verifier::external_body]
fn str_lines<'a>(s: &'a str) -> (r: Vec<&'a str>)
    ensures
        r@.len() == spec_lines_chars(s@).len(),
        forall|i: int| 0 <= i < r@.len() ==> (#[trigger] r@[i])@ == spec_lines_chars(s@)[i],
{
    s.lines().collect()
}

/// The UTF-8 bytes of one header line.
pub open spec fn line_bytes(l: Seq<char>) -> Seq<u8> {
    vstd::utf8::encode_utf8(l)
}

/// The region-table section: every consecutive line opening with `region`,
/// parsed in order, and the index of the first line after the section.
pub open spec fn parse_regions(lines: Seq<Seq<char>>, i: int, acc: Seq<RegionData>) -> Result<
    (Seq<RegionData>, int),
    SymbolError,
>
    decreases lines.len() - i,
{
    if 0 <= i < lines.len() && starts_with_region(line_bytes(lines[i])) {
        match spec_region_line(line_bytes(lines[i])) {
            Ok(rd) => parse_regions(lines, i + 1, acc.push(rd)),
            Err(e) => Err(e),
        }
    } else {
        Ok((acc, i))
    }
}

/// The module-list section: every consecutive line whose first non-blank
/// character is `[`, parsed in order with a duplicate index keeping the
/// last entry, and the index of the first line after the section.
pub open spec fn parse_elfs(lines: Seq<Seq<char>>, i: int, acc: Map<usize, ElfInfo>) -> Result<
    (Map<usize, ElfInfo>, int),
    SymbolError,
>
    decreases lines.len() - i,
{
    if 0 <= i < lines.len() && elf_candidate(line_bytes(lines[i])) {
        match spec_elf_line(line_bytes(lines[i])) {
            Ok(e) => parse_elfs(lines, i + 1, acc.insert(e.idx, e)),
            Err(er) => Err(er),
        }
    } else {
        Ok((acc, i))
    }
}

/// Mathematical model of parsed header metadata.
#[verifier::ext_equal]
pub ghost struct InfoModel {
    pub tee_load_addr: u64,
    pub regions: Seq<RegionData>,
    pub elf_list: Map<usize, ElfInfo>,
    pub title: Seq<char>,
    pub ta_uuid: u128,
    pub ta_load_addr: u64,
}

/// What a header text denotes: the runtime load address from the first
/// line, then the region table, then the module list, then the line naming
/// the traced module — or the error the first malformed line forces.
pub open spec fn spec_symbol_info(lines: Seq<Seq<char>>) -> Result<InfoModel, SymbolError> {
    if lines.len() == 0 {
        Err(SymbolError::InvalidRegionTable)
    } else {
        match spec_tee_line(line_bytes(lines[0])) {
            Err(e) => Err(e),
            Ok(tee) => match parse_regions(lines, 1, Seq::empty()) {
                Err(e) => Err(e),
                Ok((regions, i)) => match parse_elfs(lines, i, Map::empty()) {
                    Err(e) => Err(e),
                    Ok((elfs, j)) => if !(j < lines.len()) {
                        Err(SymbolError::InvalidRegionTable)
                    } else {
                        match spec_fg_line(line_bytes(lines[j])) {
                            Err(e) => Err(e),
                            Ok((u, la)) => Ok(
                                InfoModel {
                                    tee_load_addr: tee,
                                    regions,
                                    elf_list: elfs,
                                    title: lines[j],
                                    ta_uuid: u,
                                    ta_load_addr: la,
                                },
                            ),
                        }
                    },
                },
            },
        }
    }
}

/// Structured memory-layout metadata recovered from a trace header: the
/// runtime image's load address, the region table, the loaded modules by
/// index, and the traced module's identity and load address.  `title` is
/// the verbatim header line that named the traced module.
pub struct SymbolInfo {
    pub tee_load_addr: u64,
    pub regions: Vec<RegionData>,
    pub elf_list: HashMap<usize, ElfInfo>,
    pub title: String,
    pub ta_uuid: u128,
    pub ta_load_addr: u64,
}

impl View for SymbolInfo {
    type V = InfoModel;

    open spec fn view(&self) -> InfoModel {
        InfoModel {
            tee_load_addr: self.tee_load_addr,
            regions: self.regions@,
            elf_list: self.elf_list@,
            title: self.title@,
            ta_uuid: self.ta_uuid,
            ta_load_addr: self.ta_load_addr,
        }
    }
}

/// Whether a line's first non-blank byte is `[`.
fn is_elf_candidate(line: &[u8]) -> (r: bool)
    ensures
        r == elf_candidate(line@),
{
    let t = ws_run(line, 0);
    t < line.len() && *vstd::slice::slice_index_get(line, t) == 91
}

impl SymbolInfo {
    /// Parse a whole trace header.  The result is exactly what the header
    /// grammar `spec_symbol_info` assigns to the text's lines.
    pub fn from_str(s: &str) -> (r: Result<SymbolInfo, SymbolError>)
        ensures
            match r {
                Ok(info) => spec_symbol_info(spec_lines_chars(s@)) == Ok::<
                    InfoModel,
                    SymbolError,
                >(info@),
                Err(e) => spec_symbol_info(spec_lines_chars(s@)) == Err::<
                    InfoModel,
                    SymbolError,
                >(e),
            },
    {
        broadcast use vstd::std_specs::hash::group_hash_axioms;

        let ghost glines = spec_lines_chars(s@);
        let ls = str_lines(s);
        if ls.len() == 0 {
            return Err(SymbolError::InvalidRegionTable);
        }
        let tee = match parse_tee_line(ls[0].as_bytes()) {
            Ok(v) => v,
            Err(e) => {
                return Err(e);
            },
        };
        let mut regions: Vec<RegionData> = Vec::new();
        let mut i: usize = 1;
        while i < ls.len() && bytes_match_at(ls[i].as_bytes(), "region".as_bytes(), 0)
            invariant
                glines == spec_lines_chars(s@),
                ls@.len() == glines.len(),
                forall|k: int| 0 <= k < ls@.len() ==> (#[trigger] ls@[k])@ == glines[k],
                1 <= i <= ls@.len(),
                glines.len() > 0,
                spec_tee_line(line_bytes(glines[0])) == Ok::<u64, SymbolError>(tee),
                parse_regions(glines, 1, Seq::empty()) == parse_regions(
                    glines,
                    i as int,
                    regions@,
                ),
            decreases ls@.len() - i,
        {
            match parse_region_line(ls[i].as_bytes()) {
                Ok(rd) => {
                    regions.push(rd);
                },
                Err(e) => {
                    return Err(e);
                },
            }
            i = i + 1;
        }
        let ghost after_regions = i as int;
        proof {
            assert(parse_regions(glines, i as int, regions@) == Ok::<
                (Seq<RegionData>, int),
                SymbolError,
            >((regions@, i as int)));
        }
        let mut elfs: HashMap<usize, ElfInfo> = HashMap::new();
        while i < ls.len() && is_elf_candidate(ls[i].as_bytes())
            invariant
                glines == spec_lines_chars(s@),
                ls@.len() == glines.len(),
                forall|k: int| 0 <= k < ls@.len() ==> (#[trigger] ls@[k])@ == glines[k],
                after_regions <= i <= ls@.len(),
                glines.len() > 0,
                1 <= after_regions,
                spec_tee_line(line_bytes(glines[0])) == Ok::<u64, SymbolError>(tee),
                parse_regions(glines, 1, Seq::empty()) == Ok::<(Seq<RegionData>, int), SymbolError>(
                    (regions@, after_regions),
                ),
                parse_elfs(glines, after_regions, Map::empty()) == parse_elfs(
                    glines,
                    i as int,
                    elfs@,
                ),
            decreases ls@.len() - i,
        {
            broadcast use vstd::std_specs::hash::group_hash_axioms;

            match parse_elf_line(ls[i].as_bytes()) {
                Ok(e) => {
                    elfs.insert(e.idx, e);
                },
                Err(e) => {
                    return Err(e);
                },
            }
            i = i + 1;
        }
        proof {
            assert(parse_elfs(glines, i as int, elfs@) == Ok::<
                (Map<usize, ElfInfo>, int),
                SymbolError,
            >((elfs@, i as int)));
        }
        if i >= ls.len() {
            return Err(SymbolError::InvalidRegionTable);
        }
        let (ta_uuid, ta_load_addr) = match parse_fg_line(ls[i].as_bytes()) {
            Ok(p) => p,
            Err(e) => {
                return Err(e);
            },
        };
        let title = ls[i].to_owned();
        let info = SymbolInfo { tee_load_addr: tee, regions, elf_list: elfs, title, ta_uuid, ta_load_addr };
        proof {
            assert(spec_symbol_info(glines) matches Ok(m) && m =~= info@);
        }
        Ok(info)
    }
}

} // verus!
