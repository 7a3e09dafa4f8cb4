use mops_cli::imports::{
    import_line_path, parse_import_line, ImportError, MotokoImport, Scanner,
};
use mops_cli::principal::{is_valid_principal, principal_from_text};

#[test]
fn parse_library_import_keeps_top_level_name() {
    match parse_import_line("mo:base/Array", false) {
        Ok(MotokoImport::Lib(name)) => assert_eq!(name, "base"),
        other => panic!("unexpected {:?}", other),
    }
    match parse_import_line("mo:splay", false) {
        Ok(MotokoImport::Lib(name)) => assert_eq!(name, "splay"),
        other => panic!("unexpected {:?}", other),
    }
}

#[test]
fn parse_canister_import() {
    match parse_import_line("canister:ledger", false) {
        Ok(MotokoImport::Canister(name)) => assert_eq!(name, "ledger"),
        other => panic!("unexpected {:?}", other),
    }
}

#[test]
fn parse_external_canister_import_canonicalizes_id() {
    // Parsing is case-insensitive; the canonical text is lower case.
    match parse_import_line("ic:AAAAA-AA", false) {
        Ok(MotokoImport::Ic(id)) => assert_eq!(id, "aaaaa-aa"),
        other => panic!("unexpected {:?}", other),
    }
}

#[test]
fn parse_bad_principal_fails() {
    match parse_import_line("ic:not-a-principal", false) {
        Err(ImportError::BadPrincipal(_)) => {}
        other => panic!("unexpected {:?}", other),
    }
}

#[test]
fn parse_local_import_requires_existing_file() {
    match parse_import_line("lib /tmp/proj/lib.mo", true) {
        Ok(MotokoImport::Local(p)) => assert_eq!(p, "/tmp/proj/lib.mo"),
        other => panic!("unexpected {:?}", other),
    }
    match parse_import_line("lib /tmp/proj/lib.mo", false) {
        Err(ImportError::FileNotFound(p)) => assert_eq!(p, "/tmp/proj/lib.mo"),
        other => panic!("unexpected {:?}", other),
    }
}

#[test]
fn parse_unresolved_and_unknown_lines() {
    match parse_import_line("justaname", false) {
        Err(ImportError::Unresolved(u)) => assert_eq!(u, "justaname"),
        other => panic!("unexpected {:?}", other),
    }
    match parse_import_line("weird:thing", false) {
        Err(ImportError::Unknown(u)) => assert_eq!(u, "weird:thing"),
        other => panic!("unexpected {:?}", other),
    }
}

#[test]
fn import_line_path_extracts_trailing_path() {
    assert_eq!(
        import_line_path("lib /tmp/a.mo").as_deref(),
        Some("/tmp/a.mo")
    );
    assert!(import_line_path("mo:base").is_none());
}

#[test]
fn principal_round_trip_and_rejection() {
    assert_eq!(
        principal_from_text("aaaaa-aa").as_deref(),
        Some("aaaaa-aa")
    );
    assert!(is_valid_principal("AAAAA-AA"));
    assert!(!is_valid_principal("zzz"));
    assert!(!is_valid_principal(""));
}

#[test]
fn scanner_never_revisits_a_file() {
    // Two files importing each other: the walk terminates and hands each
    // file out exactly once.
    let mut scanner = Scanner::new("/p/a.mo".to_string());
    let first = scanner.next_file().expect("entry pending");
    assert_eq!(first, "/p/a.mo");
    scanner
        .provide_deps(vec![
            ("x /p/b.mo".to_string(), true),
            ("mo:base/List".to_string(), false),
        ])
        .expect("lines parse");
    let second = scanner.next_file().expect("b pending");
    assert_eq!(second, "/p/b.mo");
    // b imports a again: the cycle is cut by the visited set.
    scanner
        .provide_deps(vec![("y /p/a.mo".to_string(), true)])
        .expect("lines parse");
    assert!(scanner.next_file().is_none());
    assert_eq!(scanner.imports.len(), 1);
    match &scanner.imports[0] {
        MotokoImport::Lib(name) => assert_eq!(name, "base"),
        other => panic!("unexpected {:?}", other),
    }
}

#[test]
fn scanner_collects_each_import_once() {
    let mut scanner = Scanner::new("/p/a.mo".to_string());
    let _ = scanner.next_file();
    scanner
        .provide_deps(vec![
            ("mo:base/List".to_string(), false),
            ("mo:base/Array".to_string(), false),
            ("canister:ledger".to_string(), false),
        ])
        .expect("lines parse");
    // Both library lines name the same top-level package.
    assert_eq!(scanner.imports.len(), 2);
}

#[test]
fn scanner_reports_first_bad_line() {
    let mut scanner = Scanner::new("/p/a.mo".to_string());
    let _ = scanner.next_file();
    let r = scanner.provide_deps(vec![
        ("mo:base".to_string(), false),
        ("nonsense".to_string(), false),
    ]);
    match r {
        Err(ImportError::Unresolved(u)) => assert_eq!(u, "nonsense"),
        other => panic!("unexpected {:?}", other),
    }
}
