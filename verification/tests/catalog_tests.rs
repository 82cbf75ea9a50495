use cpplumber::catalog::{build_catalog, filter_suppressed_artifacts, CatalogConfig, LiteralOccurrence};
use cpplumber::information_leak::InformationLeakDescription;
use cpplumber::suppressions::{
    artifact_suppressed, file_suppressed, filter_suppressed_files, CompileCommand, Suppressions,
};

fn occurrence(text: &str, file: &str, line: u32, in_system_header: bool) -> LiteralOccurrence {
    LiteralOccurrence {
        text: text.to_string(),
        file: file.to_string(),
        line,
        in_system_header,
    }
}

fn config(merge: bool) -> CatalogConfig {
    CatalogConfig {
        include_system_headers: false,
        merge_duplicate_declarations: merge,
    }
}

#[test]
fn merge_keeps_only_first_duplicate_declaration() {
    let occs = vec![
        occurrence("\"c_string\"", "a.cc", 3, false),
        occurrence("\"c_string\"", "b.cc", 7, false),
    ];
    let catalog = build_catalog(occs, config(true), &None);
    assert_eq!(catalog.len(), 1);
    assert_eq!(catalog[0].leaked_information, "\"c_string\"");
    assert_eq!(catalog[0].declaration_metadata.0, "a.cc");
    assert_eq!(catalog[0].declaration_metadata.1, 3);
}

#[test]
fn no_merge_keeps_every_duplicate_declaration() {
    let occs = vec![
        occurrence("\"c_string\"", "a.cc", 3, false),
        occurrence("\"c_string\"", "b.cc", 7, false),
    ];
    let catalog = build_catalog(occs, config(false), &None);
    assert_eq!(catalog.len(), 2);
    assert_eq!(catalog[0].declaration_metadata.0, "a.cc");
    assert_eq!(catalog[1].declaration_metadata.0, "b.cc");
}

#[test]
fn suppressed_file_contributes_no_leaks() {
    let sup = Some(Suppressions {
        files: vec!["*.cc".to_string()],
        artifacts: vec![],
    });
    let occs = vec![
        occurrence("\"c_string\"", "main.cc", 1, false),
        occurrence("\"kept\"", "main.h", 2, false),
    ];
    let catalog = build_catalog(occs, config(false), &sup);
    assert_eq!(catalog.len(), 1);
    assert_eq!(catalog[0].leaked_information, "\"kept\"");
}

#[test]
fn suppressed_artifact_is_excluded_wherever_declared() {
    let sup = Some(Suppressions {
        files: vec![],
        artifacts: vec!["\"secret\"".to_string()],
    });
    let occs = vec![
        occurrence("\"secret\"", "a.cc", 1, false),
        occurrence("\"secret\"", "b.h", 2, false),
        occurrence("\"kept\"", "a.cc", 3, false),
    ];
    let catalog = build_catalog(occs, config(false), &sup);
    assert_eq!(catalog.len(), 1);
    assert_eq!(catalog[0].leaked_information, "\"kept\"");
}

#[test]
fn system_header_occurrences_follow_the_switch() {
    let occs = vec![
        occurrence("\"sys\"", "sys.h", 1, true),
        occurrence("\"own\"", "own.cc", 2, false),
    ];
    let catalog = build_catalog(occs, config(false), &None);
    assert_eq!(catalog.len(), 1);
    assert_eq!(catalog[0].leaked_information, "\"own\"");

    let occs = vec![
        occurrence("\"sys\"", "sys.h", 1, true),
        occurrence("\"own\"", "own.cc", 2, false),
    ];
    let all = CatalogConfig {
        include_system_headers: true,
        merge_duplicate_declarations: false,
    };
    let catalog = build_catalog(occs, all, &None);
    assert_eq!(catalog.len(), 2);
}

#[test]
fn untranscodable_occurrence_is_dropped_without_failing_the_run() {
    let occs = vec![
        occurrence("\"bad\\\"", "a.cc", 1, false),
        occurrence("\"good\"", "a.cc", 2, false),
    ];
    let catalog = build_catalog(occs, config(false), &None);
    assert_eq!(catalog.len(), 1);
    assert_eq!(catalog[0].leaked_information, "\"good\"");
}

#[test]
fn catalog_entries_carry_transcoded_bytes() {
    let occs = vec![occurrence("L\"ab\"", "a.cc", 1, false)];
    let catalog = build_catalog(occs, config(false), &None);
    assert_eq!(catalog[0].bytes, vec![0x61, 0x00, 0x62, 0x00]);
}

#[test]
fn leak_description_construction_transcodes() {
    let leak =
        InformationLeakDescription::new("\"c_string\"".to_string(), "x.cc".to_string(), 9).unwrap();
    assert_eq!(leak.bytes, b"c_string".to_vec());
    assert_eq!(leak.leaked_information, "\"c_string\"");
    assert_eq!(leak.declaration_metadata, ("x.cc".to_string(), 9));
    assert!(InformationLeakDescription::new("\"bad\\\"".to_string(), "x.cc".to_string(), 1)
        .is_err());
}

#[test]
fn leak_identity_is_the_literal_text_alone() {
    let a = InformationLeakDescription::new("\"same\"".to_string(), "a.cc".to_string(), 1).unwrap();
    let b = InformationLeakDescription::new("\"same\"".to_string(), "b.cc".to_string(), 9).unwrap();
    let c = InformationLeakDescription::new("\"other\"".to_string(), "a.cc".to_string(), 1)
        .unwrap();
    assert!(a == b);
    assert!(a != c);
}

#[test]
fn file_suppression_uses_glob_matching() {
    let sup = Some(Suppressions {
        files: vec!["src/**/*.cc".to_string(), "exact.h".to_string()],
        artifacts: vec![],
    });
    assert!(file_suppressed(&sup, "src/deep/dir/x.cc"));
    assert!(file_suppressed(&sup, "exact.h"));
    assert!(!file_suppressed(&sup, "src/deep/dir/x.h"));
    assert!(!file_suppressed(&None, "src/deep/dir/x.cc"));
}

#[test]
fn artifact_suppression_is_exact_text_equality() {
    let sup = Some(Suppressions {
        files: vec![],
        artifacts: vec!["\"secret\"".to_string()],
    });
    assert!(artifact_suppressed(&sup, &"\"secret\"".to_string()));
    assert!(!artifact_suppressed(&sup, &"\"secret2\"".to_string()));
    assert!(!artifact_suppressed(&None, &"\"secret\"".to_string()));
}

#[test]
fn suppressed_compile_commands_are_filtered_out() {
    let sup = Some(Suppressions {
        files: vec!["/proj/skip/*".to_string()],
        artifacts: vec![],
    });
    let cmds = vec![
        CompileCommand {
            directory: "/proj/skip".to_string(),
            filename: "a.cc".to_string(),
            arguments: vec![],
        },
        CompileCommand {
            directory: "/proj/keep".to_string(),
            filename: "b.cc".to_string(),
            arguments: vec!["-DX".to_string()],
        },
    ];
    let kept = filter_suppressed_files(cmds, &sup);
    assert_eq!(kept.len(), 1);
    assert_eq!(kept[0].filename, "b.cc");
}

#[test]
fn artifact_filter_drops_only_suppressed_leaks() {
    let sup = Some(Suppressions {
        files: vec![],
        artifacts: vec!["\"secret\"".to_string()],
    });
    let leaks = vec![
        InformationLeakDescription::new("\"secret\"".to_string(), "a.cc".to_string(), 1).unwrap(),
        InformationLeakDescription::new("\"kept\"".to_string(), "a.cc".to_string(), 2).unwrap(),
    ];
    let kept = filter_suppressed_artifacts(leaks, &sup);
    assert_eq!(kept.len(), 1);
    assert_eq!(kept[0].leaked_information, "\"kept\"");
}
