use mops_cli::binary::{
    archive_name, update_after_latest, update_plan, version_token, Fmt, LatestOutcome, Moc,
    UpdateStep,
};
use mops_cli::env::{
    build_artifact_path, choose_build_name, guess_build_name, guess_main_file, mops_lock_path,
    mops_toml_path, target_idl_path, EnvError,
};
use mops_cli::github::RepoInfo;
use mops_cli::lock::{Canister, Package};
use mops_cli::moc_args::{idl_file_path, moc_actor_args, moc_package_args, BuildArg};

#[test]
fn main_file_guess_order() {
    assert_eq!(guess_main_file(true, true).unwrap(), "main.mo");
    assert_eq!(guess_main_file(true, false).unwrap(), "main.mo");
    assert_eq!(guess_main_file(false, true).unwrap(), "Main.mo");
    assert_eq!(guess_main_file(false, false), Err(EnvError::NoMainFile));
}

#[test]
fn well_known_paths() {
    assert_eq!(mops_toml_path("/proj"), "/proj/mops.toml");
    assert_eq!(mops_lock_path("/proj"), "/proj/mops.lock");
    assert_eq!(target_idl_path("/proj"), "/proj/target/idl");
    assert_eq!(build_artifact_path("/proj", "app"), "/proj/target/app/app.wasm");
}

#[test]
fn build_name_guesses() {
    assert_eq!(
        guess_build_name("/home/u/proj/main.mo").as_deref(),
        Some("proj")
    );
    assert_eq!(
        guess_build_name("/home/u/proj/Main.mo").as_deref(),
        Some("proj")
    );
    assert_eq!(
        guess_build_name("/home/u/proj/hello.mo").as_deref(),
        Some("hello")
    );
    assert_eq!(guess_build_name("main.mo"), None);
    assert_eq!(
        choose_build_name(Some("given".to_string()), Some("guess".to_string())),
        "given"
    );
    assert_eq!(choose_build_name(None, Some("guess".to_string())), "guess");
    assert_eq!(choose_build_name(None, None), "wasm");
}

#[test]
fn binary_paths_and_urls() {
    let moc = Moc { binary_path: "/cache/bin".to_string(), expect_version: None };
    assert_eq!(moc.name(), "moc");
    assert_eq!(moc.repo(), "dfinity/motoko");
    assert_eq!(moc.get_path(), "/cache/bin/moc");
    assert_eq!(
        moc.release_url("Linux", "0.9.8"),
        "https://github.com/dfinity/motoko/releases/download/0.9.8/motoko-Linux-x86_64-0.9.8.tar.gz"
    );
    let fmt = Fmt { binary_path: "/cache/bin".to_string(), expect_version: None };
    assert_eq!(fmt.name(), "mo-fmt");
    assert_eq!(
        fmt.release_url("linux", "0.2.0"),
        "https://github.com/dfinity/prettier-plugin-motoko/releases/download/v0.2.0/mo-fmt-linux.tar.gz"
    );
    assert_eq!(archive_name("moc", "0.9.8"), "moc-0.9.8.tar.gz");
}

#[test]
fn update_decisions() {
    // A pin that is not the current version downloads outright.
    match update_plan("0.9.0", &Some("0.9.8".to_string()), false) {
        UpdateStep::Download { version } => assert_eq!(version, "0.9.8"),
        other => panic!("unexpected {:?}", other),
    }
    // Pinned and current: quiet unless the latest was asked for.
    assert!(matches!(
        update_plan("0.9.8", &Some("0.9.8".to_string()), false),
        UpdateStep::Nothing
    ));
    match update_plan("0.9.8", &Some("0.9.8".to_string()), true) {
        UpdateStep::CheckLatest { pinned: Some(p) } => assert_eq!(p, "0.9.8"),
        other => panic!("unexpected {:?}", other),
    }
    // Unpinned, installed, not asked for latest: nothing.
    assert!(matches!(update_plan("0.9.8", &None, false), UpdateStep::Nothing));
    // Unpinned and missing: the latest must be looked up.
    assert!(matches!(
        update_plan("", &None, false),
        UpdateStep::CheckLatest { pinned: None }
    ));

    match update_after_latest("0.9.8", true, Some("0.9.8".to_string()), "0.9.9".to_string()) {
        LatestOutcome::ReportPinned { latest, pinned } => {
            assert_eq!(latest, "0.9.9");
            assert_eq!(pinned, "0.9.8");
        }
        other => panic!("unexpected {:?}", other),
    }
    match update_after_latest("0.9.8", false, None, "0.9.9".to_string()) {
        LatestOutcome::Download { version } => assert_eq!(version, "0.9.9"),
        other => panic!("unexpected {:?}", other),
    }
    assert!(matches!(
        update_after_latest("0.9.9", true, None, "0.9.9".to_string()),
        LatestOutcome::ReportUpToDate
    ));
}

#[test]
fn version_tokens() {
    assert_eq!(
        version_token("Motoko compiler 0.9.8 (source abc)", 2).as_deref(),
        Some("0.9.8")
    );
    assert_eq!(version_token("mo-fmt 0.2.0", 1).as_deref(), Some("0.2.0"));
    assert_eq!(version_token("  spaced   out  ", 1).as_deref(), Some("out"));
    assert!(version_token("one", 1).is_none());
    assert!(version_token("", 0).is_none());
}

#[test]
fn compiler_arguments_from_lock() {
    let pkgs = vec![Package {
        name: "base".to_string(),
        version: Some("0.7.3".to_string()),
        source: "aaaaa-aa".to_string(),
        base_dir: "src".to_string(),
        repo: None,
        dependencies: Vec::new(),
    }];
    let args = moc_package_args(&pkgs, "/cache");
    assert_eq!(
        args,
        vec![
            "--package".to_string(),
            "base".to_string(),
            "/cache/mops/base-0.7.3/src".to_string(),
        ]
    );

    let cans = vec![
        Canister {
            canister_id: Some("aaaaa-aa".to_string()),
            name: Some("mgmt".to_string()),
            timestamp: None,
            output: None,
            candid: "/i.did".to_string(),
        },
        Canister {
            canister_id: None,
            name: Some("types".to_string()),
            timestamp: None,
            output: Some("/o.mo".to_string()),
            candid: "/t.did".to_string(),
        },
    ];
    let actor_args = moc_actor_args(&cans, "/proj/target/idl");
    assert_eq!(
        actor_args,
        vec![
            "--actor-idl".to_string(),
            "/proj/target/idl".to_string(),
            "--actor-alias".to_string(),
            "mgmt".to_string(),
            "aaaaa-aa".to_string(),
        ]
    );
    assert!(moc_actor_args(&Vec::new(), "/idl").is_empty());
    assert_eq!(idl_file_path("/idl", "aaaaa-aa"), "/idl/aaaaa-aa.did");

    let arg = BuildArg {
        main: None,
        name: None,
        lock: false,
        print_source_on_error: false,
        extra_args: Vec::new(),
    };
    assert!(!arg.lock);
}

#[test]
fn repo_info_fields_carry_through() {
    let ri = RepoInfo {
        repo: "a/b".to_string(),
        tag: "main".to_string(),
        commit: "0123456789abcdef".to_string(),
        base_dir: "src".to_string(),
    };
    assert_eq!(ri.repo, "a/b");
}
