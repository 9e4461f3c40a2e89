use ftrace_tui::symbol_info::{
    ElfInfo, RegionData, RegionFlags, SymbolError, SymbolInfo, FLAG_EXEC, FLAG_READ, FLAG_SECURE,
    FLAG_WRITE,
};

const HEADER: &str = "TEE load address @ 0xe100000\n\
region   0: va 0x1000 pa 0x2000 size 0x100 flags r-x- [0]\n\
region   1: va 0x8000 pa 0x9000 size 0x2000 flags rw-s\n\
[0] 11111111-1111-1111-1111-111111111111 @ 0x1000\n\
Function graph for TA: 11111111-1111-1111-1111-111111111111 @ 1000\n";

fn ta_uuid() -> u128 {
    uuid::Uuid::parse_str("11111111-1111-1111-1111-111111111111")
        .unwrap()
        .as_u128()
}

#[test]
fn flags_from_str() {
    assert_eq!(RegionFlags::from_str("r-x-").unwrap().bits(), FLAG_READ | FLAG_EXEC);
    assert_eq!(
        RegionFlags::from_str("rwxs").unwrap().bits(),
        FLAG_READ | FLAG_WRITE | FLAG_EXEC | FLAG_SECURE
    );
    assert_eq!(RegionFlags::from_str("----").unwrap().bits(), 0);
    assert_eq!(RegionFlags::from_str("").unwrap().bits(), 0);
    assert_eq!(
        RegionFlags::from_str("rwq-").err(),
        Some(SymbolError::InvalidRegionFlags)
    );
}

#[test]
fn flags_queries() {
    let f = RegionFlags::from_str("rw--").unwrap();
    assert!(f.contains(FLAG_READ));
    assert!(f.contains(FLAG_WRITE));
    assert!(!f.contains(FLAG_EXEC));
    assert_eq!(RegionFlags::empty().bits(), 0);
}

#[test]
fn parse_full_header() {
    let info = SymbolInfo::from_str(HEADER).unwrap();
    assert_eq!(info.tee_load_addr, 0xe100000);

    assert_eq!(info.regions.len(), 2);
    let r0 = &info.regions[0];
    assert_eq!(r0.va, 0x1000);
    assert_eq!(r0.pa, 0x2000);
    assert_eq!(r0.size, 0x100);
    assert_eq!(r0.flags.bits(), FLAG_READ | FLAG_EXEC);
    assert_eq!(r0.elf_idx, Some(0));
    let r1 = &info.regions[1];
    assert_eq!(r1.va, 0x8000);
    assert_eq!(r1.size, 0x2000);
    assert_eq!(r1.flags.bits(), FLAG_READ | FLAG_WRITE | FLAG_SECURE);
    assert_eq!(r1.elf_idx, None);

    assert_eq!(info.elf_list.len(), 1);
    let e = info.elf_list.get(&0).unwrap();
    assert_eq!(e.idx, 0);
    assert_eq!(e.uuid, ta_uuid());
    assert_eq!(e.load_addr, 0x1000);

    assert_eq!(info.ta_uuid, ta_uuid());
    assert_eq!(info.ta_load_addr, 0x1000);
    assert_eq!(
        info.title,
        "Function graph for TA: 11111111-1111-1111-1111-111111111111 @ 1000"
    );
}

#[test]
fn parse_header_without_regions_or_modules() {
    let header = "TEE load address @ 0x100000\n\
Function graph for TA: 22222222-2222-2222-2222-222222222222 @ 8a000\n";
    let info = SymbolInfo::from_str(header).unwrap();
    assert_eq!(info.tee_load_addr, 0x100000);
    assert_eq!(info.regions.len(), 0);
    assert_eq!(info.elf_list.len(), 0);
    assert_eq!(info.ta_load_addr, 0x8a000);
}

#[test]
fn parse_empty_header() {
    assert_eq!(
        SymbolInfo::from_str("").err(),
        Some(SymbolError::InvalidRegionTable)
    );
}

#[test]
fn parse_first_line_without_load_address() {
    assert_eq!(
        SymbolInfo::from_str("something else\n").err(),
        Some(SymbolError::InvalidSymbolInfo)
    );
}

#[test]
fn parse_load_address_embedded_in_line() {
    // The load-address pattern may sit anywhere in the first line.
    let header = "D/TC:0 TEE load address @ 0xabc000\n\
Function graph for TA: 22222222-2222-2222-2222-222222222222 @ 1\n";
    let info = SymbolInfo::from_str(header).unwrap();
    assert_eq!(info.tee_load_addr, 0xabc000);
}

#[test]
fn parse_load_address_overflow() {
    assert_eq!(
        SymbolInfo::from_str("TEE load address @ 0x1ffffffffffffffff\n").err(),
        Some(SymbolError::InvalidSymbolInfo)
    );
}

#[test]
fn parse_malformed_region_line() {
    let header = "TEE load address @ 0x1000\n\
region oops\n";
    assert_eq!(
        SymbolInfo::from_str(header).err(),
        Some(SymbolError::InvalidRegionTable)
    );
}

#[test]
fn parse_region_bad_flag_character() {
    let header = "TEE load address @ 0x1000\n\
region   0: va 0x1 pa 0x2 size 0x3 flags rzx- [0]\n";
    assert_eq!(
        SymbolInfo::from_str(header).err(),
        Some(SymbolError::InvalidRegionTable)
    );
}

#[test]
fn parse_missing_function_graph_line() {
    let header = "TEE load address @ 0x1000\n";
    assert_eq!(
        SymbolInfo::from_str(header).err(),
        Some(SymbolError::InvalidRegionTable)
    );
}

#[test]
fn parse_bad_module_uuid() {
    let header = "TEE load address @ 0x1000\n\
[0] abcd-ef-1234 @ 0x1000\n\
Function graph for TA: 11111111-1111-1111-1111-111111111111 @ 1000\n";
    assert_eq!(
        SymbolInfo::from_str(header).err(),
        Some(SymbolError::UuidError)
    );
}

#[test]
fn parse_bad_trace_target_uuid() {
    let header = "TEE load address @ 0x1000\n\
Function graph for TA: 11111111 @ 1000\n";
    // A bare hexadecimal run is the accepted simple UUID form only at 32
    // digits; eight digits cannot parse as a UUID.
    assert_eq!(
        SymbolInfo::from_str(header).err(),
        Some(SymbolError::UuidError)
    );
}

#[test]
fn parse_duplicate_module_index_keeps_last() {
    let header = "TEE load address @ 0x1000\n\
[0] 11111111-1111-1111-1111-111111111111 @ 0x1000\n\
[0] 22222222-2222-2222-2222-222222222222 @ 0x2000\n\
Function graph for TA: 11111111-1111-1111-1111-111111111111 @ 1000\n";
    let info = SymbolInfo::from_str(header).unwrap();
    assert_eq!(info.elf_list.len(), 1);
    assert_eq!(info.elf_list.get(&0).unwrap().load_addr, 0x2000);
}

#[test]
fn parse_crlf_lines() {
    let header = "TEE load address @ 0x1000\r\n\
Function graph for TA: 33333333-3333-3333-3333-333333333333 @ 20\r\n";
    let info = SymbolInfo::from_str(header).unwrap();
    assert_eq!(info.tee_load_addr, 0x1000);
    assert_eq!(info.ta_load_addr, 0x20);
}

#[test]
fn parse_region_with_trailing_text() {
    let header = "TEE load address @ 0x1000\n\
region  12: va 0xa000 pa 0xb000 size 0x40 flags ---- (pad)\n\
Function graph for TA: 33333333-3333-3333-3333-333333333333 @ 20\n";
    let info = SymbolInfo::from_str(header).unwrap();
    assert_eq!(info.regions.len(), 1);
    assert_eq!(info.regions[0].va, 0xa000);
    assert_eq!(info.regions[0].elf_idx, None);
}

#[test]
fn parse_single_region_line() {
    let r = RegionData::from_str("region   3: va 0xc000 pa 0xd000 size 0x20 flags rwx- [7]").unwrap();
    assert_eq!(r.va, 0xc000);
    assert_eq!(r.pa, 0xd000);
    assert_eq!(r.size, 0x20);
    assert_eq!(r.flags.bits(), FLAG_READ | FLAG_WRITE | FLAG_EXEC);
    assert_eq!(r.elf_idx, Some(7));
    assert_eq!(
        RegionData::from_str("region: nothing").err(),
        Some(SymbolError::InvalidRegionTable)
    );
}

#[test]
fn parse_single_module_line() {
    let e = ElfInfo::from_str("  [2] 11111111-1111-1111-1111-111111111111 @ 0x5000").unwrap();
    assert_eq!(e.idx, 2);
    assert_eq!(e.uuid, ta_uuid());
    assert_eq!(e.load_addr, 0x5000);
    assert_eq!(
        ElfInfo::from_str("[] no-index @ 0x1").err(),
        Some(SymbolError::InvalidSymbolInfo)
    );
}
