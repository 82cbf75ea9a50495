use cpplumber::catalog::{CatalogConfig, LiteralOccurrence};
use cpplumber::information_leak::{
    BinaryLocation, ConfirmedLeak, LeakLocation, SourceLocation,
};
use cpplumber::pipeline::run_pipeline;
use cpplumber::report::{confirmed_leak_eq, confirmed_leak_le, dedup_confirmed_leaks, sort_confirmed_leaks};

fn occurrence(text: &str, file: &str, line: u32) -> LiteralOccurrence {
    LiteralOccurrence {
        text: text.to_string(),
        file: file.to_string(),
        line,
        in_system_header: false,
    }
}

fn confirmed(text: &str, source: &str, line: u32, binary: &str, offset: u64) -> ConfirmedLeak {
    ConfirmedLeak {
        leaked_information: text.to_string(),
        location: LeakLocation {
            source: SourceLocation {
                file: source.to_string(),
                line,
            },
            binary: BinaryLocation {
                file: binary.to_string(),
                offset,
            },
        },
    }
}

fn inputs() -> (Vec<LiteralOccurrence>, CatalogConfig, Vec<u8>) {
    let occs = vec![
        occurrence("\"beta\"", "b.cc", 2),
        occurrence("\"alpha\"", "a.cc", 1),
        occurrence("\"beta\"", "c.cc", 9),
        occurrence("\"missing\"", "a.cc", 5),
    ];
    let cfg = CatalogConfig {
        include_system_headers: false,
        merge_duplicate_declarations: false,
    };
    let mut buffer = vec![0u8; 10];
    buffer.extend_from_slice(b"alpha");
    buffer.extend_from_slice(&[0u8; 5]);
    buffer.extend_from_slice(b"beta");
    (occs, cfg, buffer)
}

#[test]
fn pipeline_orders_confirmed_leaks_and_merges_equal_ones() {
    let (occs, cfg, buffer) = inputs();
    let leaks = run_pipeline(occs, cfg, &None, &"bin".to_string(), &buffer);
    // "alpha" sorts before "beta"; the two distinct "beta" declarations both
    // confirm at the same offset and stay distinct (their source fields
    // differ); "missing" is absent.
    assert_eq!(leaks.len(), 3);
    assert_eq!(leaks[0].leaked_information, "\"alpha\"");
    assert_eq!(leaks[0].location.binary.offset, 10);
    assert_eq!(leaks[1].leaked_information, "\"beta\"");
    assert_eq!(leaks[1].location.source.file, "b.cc");
    assert_eq!(leaks[2].leaked_information, "\"beta\"");
    assert_eq!(leaks[2].location.source.file, "c.cc");
    assert_eq!(leaks[2].location.binary.offset, 20);
}

#[test]
fn pipeline_is_idempotent_on_unchanged_inputs() {
    let (occs1, cfg, buffer) = inputs();
    let (occs2, _, _) = inputs();
    let first = run_pipeline(occs1, cfg, &None, &"bin".to_string(), &buffer);
    let second = run_pipeline(occs2, cfg, &None, &"bin".to_string(), &buffer);
    assert_eq!(first.len(), second.len());
    for k in 0..first.len() {
        assert!(confirmed_leak_eq(&first[k], &second[k]));
    }
}

#[test]
fn reporting_order_is_text_then_offset_then_paths() {
    let a = confirmed("\"a\"", "s.cc", 1, "bin", 50);
    let b = confirmed("\"b\"", "s.cc", 1, "bin", 2);
    assert!(confirmed_leak_le(&a, &b));
    assert!(!confirmed_leak_le(&b, &a));

    let early = confirmed("\"a\"", "s.cc", 1, "bin", 2);
    assert!(confirmed_leak_le(&early, &a));
    assert!(!confirmed_leak_le(&a, &early));

    let same = confirmed("\"a\"", "s.cc", 1, "bin", 50);
    assert!(confirmed_leak_le(&a, &same));
    assert!(confirmed_leak_le(&same, &a));
}

#[test]
fn sort_and_dedup_collapse_equal_leaks() {
    let leaks = vec![
        confirmed("\"b\"", "s.cc", 1, "bin", 7),
        confirmed("\"a\"", "s.cc", 1, "bin", 9),
        confirmed("\"b\"", "s.cc", 1, "bin", 7),
    ];
    let sorted = sort_confirmed_leaks(leaks);
    assert_eq!(sorted.len(), 3);
    assert_eq!(sorted[0].leaked_information, "\"a\"");
    let unique = dedup_confirmed_leaks(&sorted);
    assert_eq!(unique.len(), 2);
    assert_eq!(unique[0].leaked_information, "\"a\"");
    assert_eq!(unique[1].leaked_information, "\"b\"");
    assert_eq!(unique[1].location.binary.offset, 7);
}

#[test]
fn pipeline_merge_mode_reports_one_leak_per_text() {
    let occs = vec![
        occurrence("\"beta\"", "b.cc", 2),
        occurrence("\"beta\"", "c.cc", 9),
    ];
    let cfg = CatalogConfig {
        include_system_headers: false,
        merge_duplicate_declarations: true,
    };
    let mut buffer = vec![0u8; 3];
    buffer.extend_from_slice(b"beta");
    let leaks = run_pipeline(occs, cfg, &None, &"bin".to_string(), &buffer);
    assert_eq!(leaks.len(), 1);
    assert_eq!(leaks[0].location.source.file, "b.cc");
    assert_eq!(leaks[0].location.binary.offset, 3);
}
