use cpplumber::catalog::{build_catalog, CatalogConfig, LiteralOccurrence};
use cpplumber::information_leak::InformationLeakDescription;
use cpplumber::scanner::{find_leaks_in_binary, find_pattern};

#[test]
fn find_pattern_reports_the_lowest_offset() {
    let mut buffer = vec![0u8; 100];
    buffer.extend_from_slice(b"needle");
    buffer.extend_from_slice(&[0u8; 20]);
    buffer.extend_from_slice(b"needle");
    assert_eq!(find_pattern(&buffer, &b"needle".to_vec()), Some(100));
}

#[test]
fn find_pattern_reports_absence_as_none() {
    let buffer = b"haystack without it".to_vec();
    assert_eq!(find_pattern(&buffer, &b"needle".to_vec()), None);
}

#[test]
fn find_pattern_never_matches_an_empty_needle() {
    let buffer = b"anything".to_vec();
    assert_eq!(find_pattern(&buffer, &Vec::new()), None);
}

#[test]
fn find_pattern_matches_at_the_edges() {
    let buffer = b"edge...edge".to_vec();
    assert_eq!(find_pattern(&buffer, &b"edge".to_vec()), Some(0));
    assert_eq!(find_pattern(&buffer, &b"e...e".to_vec()), Some(3));
    assert_eq!(find_pattern(&buffer, &b"longer than the haystack is".to_vec()), None);
}

#[test]
fn scanner_confirms_pattern_at_offset_100() {
    let mut buffer = vec![0u8; 100];
    buffer.extend_from_slice(b"c_string");
    let leak =
        InformationLeakDescription::new("\"c_string\"".to_string(), "a.cc".to_string(), 4).unwrap();
    let confirmed =
        find_leaks_in_binary(&"bin".to_string(), &buffer, &vec![leak]);
    assert_eq!(confirmed.len(), 1);
    assert_eq!(confirmed[0].leaked_information, "\"c_string\"");
    assert_eq!(confirmed[0].location.binary.offset, 100);
    assert_eq!(confirmed[0].location.binary.file, "bin");
    assert_eq!(confirmed[0].location.source.file, "a.cc");
    assert_eq!(confirmed[0].location.source.line, 4);
}

#[test]
fn scanner_omits_absent_patterns() {
    let buffer = vec![0u8; 64];
    let leak =
        InformationLeakDescription::new("\"c_string\"".to_string(), "a.cc".to_string(), 4).unwrap();
    let confirmed = find_leaks_in_binary(&"bin".to_string(), &buffer, &vec![leak]);
    assert_eq!(confirmed.len(), 0);
}

#[test]
fn scanner_skips_candidates_with_empty_bytes() {
    let buffer = b"whatever".to_vec();
    let leak = InformationLeakDescription::new("\"\"".to_string(), "a.cc".to_string(), 1).unwrap();
    assert_eq!(leak.bytes.len(), 0);
    let confirmed = find_leaks_in_binary(&"bin".to_string(), &buffer, &vec![leak]);
    assert_eq!(confirmed.len(), 0);
}

#[test]
fn end_to_end_catalog_and_scan_confirm_one_leak() {
    let mut buffer: Vec<u8> = (0..100u8).collect();
    buffer.extend_from_slice(&[0x63, 0x5F, 0x73, 0x74, 0x72, 0x69, 0x6E, 0x67]);
    let occs = vec![LiteralOccurrence {
        text: "\"c_string\"".to_string(),
        file: "main.cc".to_string(),
        line: 12,
        in_system_header: false,
    }];
    let cfg = CatalogConfig {
        include_system_headers: false,
        merge_duplicate_declarations: true,
    };
    let catalog = build_catalog(occs, cfg, &None);
    assert_eq!(catalog.len(), 1);
    assert_eq!(catalog[0].bytes, b"c_string".to_vec());
    let confirmed = find_leaks_in_binary(&"app.bin".to_string(), &buffer, &catalog);
    assert_eq!(confirmed.len(), 1);
    assert_eq!(confirmed[0].location.binary.offset, 100);
}
