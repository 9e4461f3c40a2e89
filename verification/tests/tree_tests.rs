use ftrace_tui::builder::build_tree;
use ftrace_tui::ftrace::{FtraceError, RawFtrace};
use ftrace_tui::scan::{decode_entries, decode_entry};
use ftrace_tui::tree::{FtraceNode, FtraceTree};

fn word(depth: u64, payload: u64) -> RawFtrace {
    RawFtrace((depth << 56) | payload)
}

#[test]
fn entry_fields() {
    let e = word(3, 0x1234);
    assert_eq!(e.depth(), 3);
    assert_eq!(e.data(), 0x1234);
    assert!(e.is_start());
    assert!(!e.is_end());
    let end = word(0, 500);
    assert_eq!(end.depth(), 0);
    assert_eq!(end.data(), 500);
    assert!(end.is_end());
    assert!(!end.is_start());
    let all = RawFtrace(u64::MAX);
    assert_eq!(all.depth(), 0xff);
    assert_eq!(all.data(), 0x00ff_ffff_ffff_ffff);
}

#[test]
fn entry_conversions() {
    let e = RawFtrace::from(0x0100_0000_0000_2000u64);
    assert_eq!(e.depth(), 1);
    assert_eq!(u64::from(e), 0x0100_0000_0000_2000u64);
}

#[test]
fn decode_entry_little_endian() {
    let bytes = [0x00u8, 0x10, 0x00, 0x00, 0x00, 0x00, 0x00, 0x01];
    let e = decode_entry(&bytes);
    assert_eq!(e.depth(), 1);
    assert_eq!(e.data(), 0x1000);
}

#[test]
fn decode_entries_whole_section() {
    let bytes = [
        0x08u8, 0x10, 0x00, 0x00, 0x00, 0x00, 0x00, 0x01, 0xf4, 0x01, 0x00, 0x00, 0x00, 0x00,
        0x00, 0x00,
    ];
    let es = decode_entries(&bytes).unwrap();
    assert_eq!(es.len(), 2);
    assert_eq!(es[0].depth(), 1);
    assert_eq!(es[0].data(), 0x1008);
    assert_eq!(es[1].depth(), 0);
    assert_eq!(es[1].data(), 500);
}

#[test]
fn decode_entries_truncated() {
    let bytes = [0x01u8, 0x02, 0x03];
    assert_eq!(decode_entries(&bytes), Err(FtraceError::TruncatedEntry));
}

#[test]
fn build_round_trip_nesting() {
    // One outer call with one nested call: each elapsed time comes from
    // its own end entry, never a sibling's.
    let entries = vec![word(1, 0x1000), word(2, 0x2000), word(0, 30), word(0, 100)];
    let tree = build_tree(&entries, String::from("hdr")).unwrap();
    assert_eq!(tree.trace_info(), "hdr");
    assert_eq!(tree.children().len(), 1);
    let top = &tree.children()[0];
    assert_eq!(top.depth(), 1);
    assert_eq!(top.func(), 0x1000);
    assert_eq!(top.time(), Some(100));
    assert_eq!(top.children().len(), 1);
    let inner = &top.children()[0];
    assert_eq!(inner.depth(), 2);
    assert_eq!(inner.func(), 0x2000);
    assert_eq!(inner.time(), Some(30));
    assert_eq!(inner.children().len(), 0);
}

#[test]
fn build_sibling_order_kept() {
    let entries = vec![
        word(1, 0xa),
        word(0, 1),
        word(1, 0xb),
        word(0, 2),
        word(1, 0xc),
        word(0, 3),
    ];
    let tree = build_tree(&entries, String::new()).unwrap();
    assert_eq!(tree.children().len(), 3);
    assert_eq!(tree.children()[0].func(), 0xa);
    assert_eq!(tree.children()[1].func(), 0xb);
    assert_eq!(tree.children()[2].func(), 0xc);
    assert_eq!(tree.children()[0].time(), Some(1));
    assert_eq!(tree.children()[1].time(), Some(2));
    assert_eq!(tree.children()[2].time(), Some(3));
}

#[test]
fn build_depth_jump_inserts_placeholder() {
    // A start two levels deeper than the open call is repaired by nesting
    // under a placeholder node with address zero.
    let entries = vec![word(2, 0xaa), word(0, 1), word(0, 2)];
    let tree = build_tree(&entries, String::new()).unwrap();
    assert_eq!(tree.children().len(), 1);
    let ph = &tree.children()[0];
    assert_eq!(ph.depth(), 1);
    assert_eq!(ph.func(), 0);
    assert_eq!(ph.time(), Some(2));
    assert_eq!(ph.children().len(), 1);
    let real = &ph.children()[0];
    assert_eq!(real.depth(), 2);
    assert_eq!(real.func(), 0xaa);
    assert_eq!(real.time(), Some(1));
}

#[test]
fn build_end_without_open_is_depth_mismatch() {
    let entries = vec![word(0, 5)];
    assert_eq!(
        build_tree(&entries, String::new()).err(),
        Some(FtraceError::DepthMismatch)
    );
}

#[test]
fn build_start_at_open_depth_is_depth_mismatch() {
    // A start at the depth already open claims its parent ended early:
    // it must not silently attach to the wrong parent.
    let entries = vec![word(1, 0xa), word(1, 0xb)];
    assert_eq!(
        build_tree(&entries, String::new()).err(),
        Some(FtraceError::DepthMismatch)
    );
}

#[test]
fn build_start_above_open_depth_is_depth_mismatch() {
    let entries = vec![word(1, 0xa), word(2, 0xb), word(1, 0xc)];
    assert_eq!(
        build_tree(&entries, String::new()).err(),
        Some(FtraceError::DepthMismatch)
    );
}

#[test]
fn build_truncated_stream_is_premature_eof() {
    // A start never matched by an end must not come back as a tree with a
    // missing elapsed time.
    let entries = vec![word(1, 0xa)];
    assert_eq!(
        build_tree(&entries, String::new()).err(),
        Some(FtraceError::PrematureEof)
    );
}

#[test]
fn build_nested_truncation_is_premature_eof() {
    let entries = vec![word(1, 0xa), word(2, 0xb), word(0, 7)];
    assert_eq!(
        build_tree(&entries, String::new()).err(),
        Some(FtraceError::PrematureEof)
    );
}

#[test]
fn build_empty_stream_is_empty_tree() {
    let entries: Vec<RawFtrace> = Vec::new();
    let tree = build_tree(&entries, String::from("x")).unwrap();
    assert_eq!(tree.children().len(), 0);
}

#[test]
fn dfs_iter_preorder() {
    let entries = vec![
        word(1, 0x1),
        word(2, 0x2),
        word(3, 0x3),
        word(0, 1),
        word(0, 2),
        word(2, 0x4),
        word(0, 3),
        word(0, 4),
        word(1, 0x5),
        word(0, 5),
    ];
    let tree = build_tree(&entries, String::new()).unwrap();
    let mut it = tree.dfs_iter();
    let mut seen = Vec::new();
    while let Some(n) = it.next() {
        seen.push(n.func());
    }
    assert_eq!(seen, vec![0x1, 0x2, 0x3, 0x4, 0x5]);
    assert!(it.next().is_none());
}

#[test]
fn node_start_end_entry_kinds() {
    let n = FtraceNode::with_start(word(0, 5));
    assert_eq!(n.err(), Some(FtraceError::InvalidEntry));
    let mut n = FtraceNode::with_start(word(2, 0x77)).unwrap();
    assert_eq!(n.depth(), 2);
    assert_eq!(n.func(), 0x77);
    assert_eq!(n.time(), None);
    assert_eq!(n.end_with(word(1, 5)), Err(FtraceError::InvalidEntry));
    assert_eq!(n.time(), None);
    assert_eq!(n.end_with(word(0, 42)), Ok(()));
    assert_eq!(n.time(), Some(42));
}

#[test]
fn node_symbol_annotation() {
    let mut n = FtraceNode::new(1, 0x10, None);
    assert!(n.symbol().is_none());
    n.set_symbol(String::from("strip_tag"));
    assert_eq!(n.symbol(), Some("strip_tag"));
}

#[test]
fn tree_from_root_drops_synthetic_root() {
    let mut root = FtraceNode::new(0, 0, None);
    root.add_child(FtraceNode::new(1, 0xab, Some(9)));
    let tree = FtraceTree::from_root_node(String::from("t"), root);
    assert_eq!(tree.trace_info(), "t");
    assert_eq!(tree.children().len(), 1);
    assert_eq!(tree.children()[0].func(), 0xab);
}
