use ftrace_tui::ftrace::FtraceError;
use ftrace_tui::scan::{magic_bytes, MagicScanner};

fn magic() -> Vec<u8> {
    magic_bytes()
}

#[test]
fn magic_bytes_value() {
    assert_eq!(magic(), b"FTRACE\x00\x01".to_vec());
}

#[test]
fn scan_single_chunk() {
    let mut data = b"header text".to_vec();
    data.extend_from_slice(&magic());
    data.extend_from_slice(&[1, 2, 3, 4, 5, 6, 7, 8]);
    let mut sc = MagicScanner::new();
    sc.feed(&data);
    assert!(sc.found());
    let (header, rest) = sc.into_parts().unwrap();
    assert_eq!(header, "header text");
    assert_eq!(rest, vec![1, 2, 3, 4, 5, 6, 7, 8]);
}

#[test]
fn scan_many_small_chunks_matches_one_chunk() {
    // The marker must be found no matter how the chunk boundaries fall,
    // even split byte by byte.
    let mut data = b"abc".to_vec();
    data.extend_from_slice(&magic());
    data.extend_from_slice(b"XYZ");

    let mut one = MagicScanner::new();
    one.feed(&data);
    let (h1, r1) = one.into_parts().unwrap();

    let mut many = MagicScanner::new();
    for b in &data {
        many.feed(std::slice::from_ref(b));
    }
    let (h2, r2) = many.into_parts().unwrap();

    assert_eq!(h1, h2);
    assert_eq!(r1, r2);
    assert_eq!(h1, "abc");
    assert_eq!(r1, b"XYZ".to_vec());
}

#[test]
fn scan_prefix_of_magic_is_not_the_magic() {
    // A prefix of the marker inside the header must not be mistaken for
    // the marker itself.
    let mut data = b"xxFTRACE\x00yy".to_vec();
    data.extend_from_slice(&magic());
    let mut sc = MagicScanner::new();
    sc.feed(&data);
    let (header, rest) = sc.into_parts().unwrap();
    assert_eq!(header, "xxFTRACE\u{0}yy");
    assert_eq!(rest, Vec::<u8>::new());
}

#[test]
fn scan_magic_split_across_chunks() {
    let mut sc = MagicScanner::new();
    sc.feed(b"head");
    sc.feed(b"FTRA");
    assert!(!sc.found());
    sc.feed(b"CE\x00\x01tail");
    assert!(sc.found());
    let (header, rest) = sc.into_parts().unwrap();
    assert_eq!(header, "head");
    assert_eq!(rest, b"tail".to_vec());
}

#[test]
fn scan_bytes_after_magic_go_to_entries() {
    let mut sc = MagicScanner::new();
    let mut data = b"h".to_vec();
    data.extend_from_slice(&magic());
    sc.feed(&data);
    sc.feed(&[9, 9]);
    sc.feed(&[7]);
    let (_, rest) = sc.into_parts().unwrap();
    assert_eq!(rest, vec![9, 9, 7]);
}

#[test]
fn scan_missing_magic() {
    let mut sc = MagicScanner::new();
    sc.feed(b"no marker here at all");
    assert!(!sc.found());
    assert_eq!(sc.into_parts().err(), Some(FtraceError::MagicNotFound));
}

#[test]
fn scan_invalid_utf8_header() {
    let mut data = vec![0xffu8, 0xfe];
    data.extend_from_slice(&magic());
    let mut sc = MagicScanner::new();
    sc.feed(&data);
    assert!(sc.found());
    assert_eq!(sc.into_parts().err(), Some(FtraceError::EncodingError));
}

#[test]
fn scan_empty_header() {
    let mut sc = MagicScanner::new();
    sc.feed(&magic());
    let (header, rest) = sc.into_parts().unwrap();
    assert_eq!(header, "");
    assert_eq!(rest, Vec::<u8>::new());
}

#[test]
fn scan_finds_first_of_two_markers() {
    let mut data = b"A".to_vec();
    data.extend_from_slice(&magic());
    data.extend_from_slice(b"B");
    data.extend_from_slice(&magic());
    let mut sc = MagicScanner::new();
    sc.feed(&data);
    let (header, rest) = sc.into_parts().unwrap();
    assert_eq!(header, "A");
    let mut expected = b"B".to_vec();
    expected.extend_from_slice(&magic());
    assert_eq!(rest, expected);
}
