use ftrace_tui::builder::build_tree;
use ftrace_tui::cli::Cli;
use ftrace_tui::format::{format_duration, self_time_of, TraceLine};
use ftrace_tui::ftrace::RawFtrace;
use ftrace_tui::region::{LoadInfo, TeeInfo};
use ftrace_tui::resolver::{
    recursive_resolve_symbol, resolve_symbol, CachedSymbolResolver, SymbolResolver,
};
use ftrace_tui::symbol_info::SymbolInfo;

const HEADER: &str = "TEE load address @ 0xe100000\n\
region   0: va 0x1000 pa 0x2000 size 0x100 flags r-x- [0]\n\
[0] 11111111-1111-1111-1111-111111111111 @ 0x1000\n\
Function graph for TA: 11111111-1111-1111-1111-111111111111 @ 1000\n";

fn word(depth: u64, payload: u64) -> RawFtrace {
    RawFtrace((depth << 56) | payload)
}

#[test]
fn concrete_scenario() {
    // Header, one start entry at 0x1008, one end entry of 500 ns: one
    // top-level node with that address and elapsed time, whose relative
    // offset against the module loaded at 0x1000 is 8.
    let info = SymbolInfo::from_str(HEADER).unwrap();
    let entries = vec![word(1, 0x1008), word(0, 500)];
    let tree = build_tree(&entries, String::from(HEADER)).unwrap();

    assert_eq!(tree.children().len(), 1);
    let node = &tree.children()[0];
    assert_eq!(node.func(), 0x1008);
    assert_eq!(node.time(), Some(500));

    let li = info.find_by_addr(node.func());
    match &li {
        LoadInfo::TrustedApp(ta) => {
            assert_eq!(ta.load_addr, 0x1000);
            assert_eq!(ta.uuid, info.ta_uuid);
            assert_eq!(ta.va, 0x1000);
            assert_eq!(ta.size, 0x100);
        }
        LoadInfo::Tee(_) => panic!("address belongs to the traced module"),
    }
    assert_eq!(li.calculate_reladdr(node.func()), Some(0x8));
}

#[test]
fn address_outside_module_goes_to_runtime() {
    let info = SymbolInfo::from_str(HEADER).unwrap();
    let li = info.find_by_addr(0x9000_0000);
    assert_eq!(li, LoadInfo::Tee(TeeInfo { load_addr: 0xe100000 }));
    assert!(li.is_tee());
}

#[test]
fn address_at_end_of_region_goes_to_runtime() {
    let info = SymbolInfo::from_str(HEADER).unwrap();
    // The region covers 0x1000..0x1100; its end is outside.
    assert!(!info.find_by_addr(0x10ff).is_tee());
    assert!(info.find_by_addr(0x1100).is_tee());
}

#[test]
fn offset_below_base_is_none() {
    let li = LoadInfo::Tee(TeeInfo { load_addr: 0x2000 });
    assert_eq!(li.calculate_reladdr(0x1fff), None);
    assert_eq!(li.calculate_reladdr(0), None);
}

#[test]
fn offset_at_base_is_zero() {
    let li = LoadInfo::Tee(TeeInfo { load_addr: 0x2000 });
    assert_eq!(li.calculate_reladdr(0x2000), Some(0));
    assert_eq!(li.calculate_reladdr(0x2008), Some(8));
}

#[test]
fn debug_object_filenames() {
    let info = SymbolInfo::from_str(HEADER).unwrap();
    let li = info.find_by_addr(0x1008);
    assert_eq!(li.filename(), "11111111-1111-1111-1111-111111111111.elf");
    let tee = LoadInfo::Tee(TeeInfo { load_addr: 0 });
    assert_eq!(tee.filename(), "tee.elf");
    assert_eq!(li.load_addr(), 0x1000);
}

#[test]
fn resolve_without_loaded_objects_is_unresolved() {
    let info = SymbolInfo::from_str(HEADER).unwrap();
    let resolver = SymbolResolver::new();
    assert_eq!(resolve_symbol(&resolver, &info, 0x1008), None);
    assert_eq!(resolve_symbol(&resolver, &info, 0x9000_0000), None);
}

#[test]
fn resolve_tree_without_objects_leaves_nodes_unresolved() {
    let info = SymbolInfo::from_str(HEADER).unwrap();
    let resolver = SymbolResolver::new();
    let entries = vec![word(1, 0x1008), word(0, 500)];
    let mut tree = build_tree(&entries, String::new()).unwrap();
    let mut node = tree.children_mut().remove(0);
    recursive_resolve_symbol(&resolver, &info, &mut node);
    assert!(node.symbol().is_none());
}

#[test]
fn loader_bookkeeping() {
    let info = SymbolInfo::from_str(HEADER).unwrap();
    let mut resolver = SymbolResolver::new();
    let tee = LoadInfo::Tee(TeeInfo { load_addr: 0x1000 });
    let ta = info.find_by_addr(0x1008);
    assert!(!resolver.has_loader(&tee));
    assert!(!resolver.has_loader(&ta));

    let loader = addr2line::Loader::new("/proc/self/exe").expect("own image loads");
    resolver.insert_loader(&tee, loader);
    assert!(resolver.has_loader(&tee));
    assert!(!resolver.has_loader(&ta));
}

#[test]
fn resolution_is_repeatable() {
    // Resolving the same address twice against the same loaded objects
    // gives the same answer.
    let info = SymbolInfo::from_str(HEADER).unwrap();
    let mut resolver = SymbolResolver::new();
    let tee = LoadInfo::Tee(TeeInfo { load_addr: 0 });
    let loader = addr2line::Loader::new("/proc/self/exe").expect("own image loads");
    resolver.insert_loader(&tee, loader);

    let first = resolver.resolve_symbol(&tee, 0x1000);
    let second = resolver.resolve_symbol(&tee, 0x1000);
    assert_eq!(first, second);
}

#[test]
fn cached_resolution_agrees_with_uncached() {
    let info = SymbolInfo::from_str(HEADER).unwrap();
    let mut resolver = SymbolResolver::new();
    let tee = LoadInfo::Tee(TeeInfo { load_addr: 0 });
    let loader = addr2line::Loader::new("/proc/self/exe").expect("own image loads");
    resolver.insert_loader(&tee, loader);

    let plain = resolve_symbol(&resolver, &info, 0x9000_0000);
    let mut cached = CachedSymbolResolver::new(resolver);
    let first = cached.resolve_symbol(&info, 0x9000_0000);
    let second = cached.resolve_symbol(&info, 0x9000_0000);
    assert_eq!(first, plain);
    assert_eq!(second, plain);
}

#[test]
fn cached_resolver_capacity_constructor() {
    let resolver = SymbolResolver::new();
    let mut cached = CachedSymbolResolver::with_capacity(resolver, 4);
    let info = SymbolInfo::from_str(HEADER).unwrap();
    assert_eq!(cached.resolve_symbol(&info, 0x1008), None);
}

#[test]
fn format_duration_units() {
    assert_eq!(format_duration(0), "0 ns");
    assert_eq!(format_duration(999), "999 ns");
    assert_eq!(format_duration(1_000), "  1.000 \u{b5}s");
    assert_eq!(format_duration(1_500), "  1.500 \u{b5}s");
    assert_eq!(format_duration(999_999), "999.999 \u{b5}s");
    assert_eq!(format_duration(1_000_000), "  1.000 ms");
    assert_eq!(format_duration(25_300_000), " 25.300 ms");
    assert_eq!(format_duration(2_000_000_000), "  2.000 s");
    assert_eq!(format_duration(123_456_789_012), "123.000 s");
}

#[test]
fn self_time_subtraction_saturates() {
    assert_eq!(self_time_of(100, 30), 70);
    assert_eq!(self_time_of(30, 100), 0);
    assert_eq!(self_time_of(5, 5), 0);
}

#[test]
fn trace_line_fields() {
    let line = TraceLine {
        addr: 0x1008,
        symbol: Some(String::from("f")),
        time: 100,
        self_time: 70,
        upper_time: 200,
    };
    assert_eq!(line.addr, 0x1008);
    assert_eq!(line.self_time, self_time_of(line.time, 30));
}

#[test]
fn cli_fields() {
    let cli = Cli::new(
        String::from("trace.bin"),
        vec![String::from("/debug"), String::from("tee.elf")],
    );
    assert_eq!(cli.ftrace_path, "trace.bin");
    assert_eq!(cli.elf.len(), 2);
}
