use mops_cli::lock::{CanisterInfo, Mops};
use mops_cli::manifest::{
    classify_dep, manifest_from_raw, CanisterRule, ManifestError, RawDep, RawManifest,
};
use mops_cli::sync::{ManifestEdit, SyncError, Synchronizer};

fn raw(name: &str, value: &str, is_path: bool) -> RawDep {
    RawDep {
        name: name.to_string(),
        value: value.to_string(),
        value_is_path: is_path,
    }
}

#[test]
fn dependency_classification() {
    match classify_dep(raw("candy", "https://github.com/a/b#v1", false)) {
        Mops::Repo { name, repo } => {
            assert_eq!(name, "candy");
            assert_eq!(repo, "https://github.com/a/b#v1");
        }
        other => panic!("unexpected {:?}", other),
    }
    match classify_dep(raw("mylib", "./lib", true)) {
        Mops::Local { name, path } => {
            assert_eq!(name, "mylib");
            assert_eq!(path, "./lib");
        }
        other => panic!("unexpected {:?}", other),
    }
    match classify_dep(raw("base", "0.7.3", false)) {
        Mops::Mops { name, version } => {
            assert_eq!(name, "base");
            assert_eq!(version, "0.7.3");
        }
        other => panic!("unexpected {:?}", other),
    }
}

fn canister(id: Option<&str>, candid: Option<&str>, output: Option<&str>) -> CanisterInfo {
    CanisterInfo {
        canister_id: id.map(str::to_string),
        name: None,
        candid: candid.map(str::to_string),
        output: output.map(str::to_string),
    }
}

#[test]
fn manifest_validation_accepts_both_declaration_shapes() {
    let m = RawManifest {
        version: Some("1.0.0".to_string()),
        deps: vec![raw("base", "0.7.3", false)],
        canisters: vec![
            canister(Some("aaaaa-aa"), None, None),
            canister(None, Some("/i.did"), Some("/out.mo")),
        ],
    };
    let cfg = manifest_from_raw(m).expect("valid manifest");
    assert_eq!(cfg.version.as_deref(), Some("1.0.0"));
    assert_eq!(cfg.dependencies.len(), 1);
    assert_eq!(cfg.canisters.len(), 2);
}

#[test]
fn manifest_validation_rejects_bad_canisters() {
    let cases = [
        (canister(None, None, None), CanisterRule::NeedIdOrCandid),
        (canister(None, Some("/i.did"), None), CanisterRule::NeedOutput),
        (
            canister(Some("aaaaa-aa"), None, Some("/out.mo")),
            CanisterRule::OutputForbidden,
        ),
    ];
    for (bad, want) in cases {
        let m = RawManifest { version: None, deps: Vec::new(), canisters: vec![bad] };
        match manifest_from_raw(m) {
            Err(ManifestError::BadCanister { rule, .. }) => assert_eq!(rule, want),
            other => panic!("unexpected {:?}", other),
        }
    }
}

#[test]
fn synchronizer_accumulates_unknown_libraries() {
    // Failures are collected: both unresolved names come back in one error,
    // and the successful pin still produced its edit.
    let mut sync = Synchronizer::new();
    sync.lib_import("base".to_string(), true, None);
    sync.lib_import("known".to_string(), false, Some("1.2.3".to_string()));
    sync.lib_import("ghost1".to_string(), false, None);
    sync.lib_import("ghost2".to_string(), false, None);
    assert_eq!(sync.edits.len(), 1);
    match sync.finish() {
        Err(SyncError::UnresolvedLibraries(names)) => {
            assert_eq!(names, vec!["ghost1".to_string(), "ghost2".to_string()]);
        }
        other => panic!("unexpected {:?}", other),
    }
}

#[test]
fn synchronizer_requires_canister_declarations() {
    let mut sync = Synchronizer::new();
    assert!(sync.canister_import("declared".to_string(), true).is_ok());
    match sync.canister_import("ledger".to_string(), false) {
        Err(SyncError::MissingCanisterDeclaration(n)) => assert_eq!(n, "ledger"),
        other => panic!("unexpected {:?}", other),
    }
}

#[test]
fn synchronizer_stubs_external_canisters() {
    let mut sync = Synchronizer::new();
    sync.ic_import("aaaaa-aa".to_string(), true);
    sync.ic_import("rrkah-fqaaa-aaaaa-aaaaq-cai".to_string(), false);
    let edits = sync.finish().expect("nothing unresolved");
    assert_eq!(edits.len(), 1);
    match &edits[0] {
        ManifestEdit::AddCanisterStub { id } => {
            assert_eq!(id, "rrkah-fqaaa-aaaaa-aaaaq-cai")
        }
        other => panic!("unexpected {:?}", other),
    }
}
