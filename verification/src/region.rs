//! Load information for an address: which image owns it — the traced
//! module or the always-resident runtime — and how to translate the
//! address into that image's debug-object coordinates.

use crate::symbol_info::{ElfInfo, RegionData, RegionFlags, SymbolInfo};
use vstd::prelude::*;

verus! {

/// The traced module's association for an address: the region that claimed
/// it together with the owning module's identity and load address.
#[derive(Clone, Copy, Debug, PartialEq, Eq, Structural)]
pub struct TaRegionInfo {
    pub elf_idx: usize,
    pub uuid: u128,
    pub load_addr: u64,
    pub va: u64,
    pub pa: u64,
    pub size: usize,
    pub flags: RegionFlags,
}

/// The runtime image's association: only its load address matters.
#[derive(Clone, Copy, Debug, PartialEq, Eq, Structural)]
pub struct TeeInfo {
    pub load_addr: u64,
}

/// Where an address resolves: in the traced module, or in the runtime.
#[derive(Clone, Copy, Debug, PartialEq, Eq, Structural)]
pub enum LoadInfo {
    TrustedApp(TaRegionInfo),
    Tee(TeeInfo),
}

/// The region-and-module pair combined into one association record.
pub open spec fn spec_ta_region(region: RegionData, elf: ElfInfo) -> TaRegionInfo {
    TaRegionInfo {
        elf_idx: elf.idx,
        uuid: elf.uuid,
        load_addr: elf.load_addr,
        va: region.va,
        pa: region.pa,
        size: region.size,
        flags: region.flags,
    }
}

impl TaRegionInfo {
    /// Combine a region-table entry with the module it belongs to.
    pub fn from_parts(region: RegionData, elf: ElfInfo) -> (r: TaRegionInfo)
        ensures
            r == spec_ta_region(region, elf),
    {
        TaRegionInfo {
            elf_idx: elf.idx,
            uuid: elf.uuid,
            load_addr: elf.load_addr,
            va: region.va,
            pa: region.pa,
            size: region.size,
            flags: region.flags,
        }
    }
}

/// The load address an address is translated against.
pub open spec fn spec_load_addr(li: LoadInfo) -> u64 {
    match li {
        LoadInfo::TrustedApp(info) => info.load_addr,
        LoadInfo::Tee(info) => info.load_addr,
    }
}

/// The offset of `addr` relative to the owning image's load address, or
/// nothing when `addr` lies below it.
pub open spec fn spec_reladdr(li: LoadInfo, addr: u64) -> Option<u64> {
    if addr >= spec_load_addr(li) {
        Some((addr - spec_load_addr(li)) as u64)
    } else {
        None
    }
}

/// What the hyphenated rendering of a UUID value looks like; named after
/// uuid::Uuid's canonical text form.
pub uninterp spec fn uuid_text(v: u128) -> Seq<char>;

/// Relies on uuid::Uuid::from_u128 and its hyphenated Display form: a
/// deterministic function of the value alone, 36 characters long.
#[verifier::external_body]
fn uuid_to_string(v: u128) -> (r: String)
    ensures
        r@ == uuid_text(v),
        r@.len() == 36,
{
    uuid::Uuid::from_u128(v).hyphenated().to_string()
}

impl LoadInfo {
    /// The owning image's load address.
    pub fn load_addr(&self) -> (r: u64)
        ensures
            r == spec_load_addr(*self),
    {
        match self {
            LoadInfo::TrustedApp(info) => info.load_addr,
            LoadInfo::Tee(info) => info.load_addr,
        }
    }

    /// Translate an absolute address into the image-relative offset the
    /// debug object is indexed by.  An address below the load address has
    /// no offset: the subtraction is checked, never wrapped.
    pub fn calculate_reladdr(&self, addr: u64) -> (r: Option<u64>)
        ensures
            r == spec_reladdr(*self, addr),
            addr == spec_load_addr(*self) ==> r == Some(0u64),
    {
        let la = self.load_addr();
        if addr >= la {
            Some(addr - la)
        } else {
            None
        }
    }

    /// The exact file name of the image's debug object: the module's
    /// hyphenated UUID with an `.elf` suffix, or the fixed runtime name.
    pub fn filename(&self) -> (r: String)
        ensures
            match self {
                LoadInfo::TrustedApp(info) => r@ == uuid_text(info.uuid) + ".elf"@,
                LoadInfo::Tee(_) => r@ == "tee.elf"@,
            },
    {
        match self {
            LoadInfo::TrustedApp(info) => {
                let mut s = uuid_to_string(info.uuid);
                s.append(".elf");
                s
            },
            LoadInfo::Tee(_) => {
                let s = String::from_str("tee.elf");
                s
            },
        }
    }

    /// Whether the address was attributed to the runtime image.
    pub fn is_tee(&self) -> (r: bool)
        ensures
            r == (self is Tee),
    {
        match self {
            LoadInfo::Tee(_) => true,
            LoadInfo::TrustedApp(_) => false,
        }
    }
}

/// Whether this region claims `addr` for the traced module: it must name a
/// module index, that index must be in the module list, the module's
/// identity must be the traced module's, and `addr` must fall inside the
/// region's virtual range.
pub open spec fn region_claims(
    region: RegionData,
    elf_list: Map<usize, ElfInfo>,
    ta_uuid: u128,
    addr: u64,
) -> bool {
    &&& region.elf_idx matches Some(idx)
    &&& elf_list.contains_key(region.elf_idx->0)
    &&& elf_list[region.elf_idx->0].uuid == ta_uuid
    &&& region.va <= addr
    &&& addr - region.va < region.size
}

/// The association for `addr`: the first region that claims it for the
/// traced module, or the runtime when none does.
pub open spec fn spec_find_by_addr(
    regions: Seq<RegionData>,
    elf_list: Map<usize, ElfInfo>,
    ta_uuid: u128,
    tee_load_addr: u64,
    addr: u64,
) -> LoadInfo
    decreases regions.len(),
{
    if regions.len() == 0 {
        LoadInfo::Tee(TeeInfo { load_addr: tee_load_addr })
    } else if region_claims(regions[0], elf_list, ta_uuid, addr) {
        LoadInfo::TrustedApp(spec_ta_region(regions[0], elf_list[regions[0].elf_idx->0]))
    } else {
        spec_find_by_addr(regions.drop_first(), elf_list, ta_uuid, tee_load_addr, addr)
    }
}

impl SymbolInfo {
    /// Attribute an address: the traced module where a region claims it,
    /// the runtime otherwise.
    pub fn find_by_addr(&self, addr: u64) -> (r: LoadInfo)
        ensures
            r == spec_find_by_addr(
                self.regions@,
                self.elf_list@,
                self.ta_uuid,
                self.tee_load_addr,
                addr,
            ),
    {
        broadcast use vstd::std_specs::hash::group_hash_axioms;

        let n = self.regions.len();
        let mut i: usize = 0;
        proof {
            assert(self.regions@.skip(0) =~= self.regions@);
        }
        while i < n
            invariant
                n == self.regions@.len(),
                i <= n,
                spec_find_by_addr(
                    self.regions@,
                    self.elf_list@,
                    self.ta_uuid,
                    self.tee_load_addr,
                    addr,
                ) == spec_find_by_addr(
                    self.regions@.skip(i as int),
                    self.elf_list@,
                    self.ta_uuid,
                    self.tee_load_addr,
                    addr,
                ),
            decreases n - i,
        {
            broadcast use vstd::std_specs::hash::group_hash_axioms;

            let region = self.regions[i];
            proof {
                assert(self.regions@.skip(i as int)[0] == region);
                assert(self.regions@.skip(i as int).drop_first() =~= self.regions@.skip(i + 1));
            }
            match region.elf_idx {
                Some(idx) => {
                    match self.elf_list.get(&idx) {
                        Some(elf) => {
                            if elf.uuid == self.ta_uuid && region.va <= addr && addr - region.va
                                < region.size as u64 {
                                return LoadInfo::TrustedApp(TaRegionInfo::from_parts(region, *elf));
                            }
                        },
                        None => {},
                    }
                },
                None => {},
            }
            proof {
                assert(!region_claims(region, self.elf_list@, self.ta_uuid, addr));
            }
            i = i + 1;
        }
        proof {
            assert(self.regions@.skip(n as int).len() == 0);
        }
        LoadInfo::Tee(TeeInfo { load_addr: self.tee_load_addr })
    }
}

} // verus!

verus! {

impl From<(RegionData, ElfInfo)> for TaRegionInfo {
    /// Combine a region-table entry with the module it belongs to.
    fn from(parts: (RegionData, ElfInfo)) -> (r: TaRegionInfo)
        ensures
            r == spec_ta_region(parts.0, parts.1),
    {
        TaRegionInfo::from_parts(parts.0, parts.1)
    }
}

impl vstd::std_specs::convert::FromSpecImpl<(RegionData, ElfInfo)> for TaRegionInfo {
    open spec fn obeys_from_spec() -> bool {
        true
    }

    open spec fn from_spec(parts: (RegionData, ElfInfo)) -> TaRegionInfo {
        spec_ta_region(parts.0, parts.1)
    }
}

} // verus!
