use mops_cli::github::RepoInfo;
use mops_cli::lock::{Canister, CanisterInfo, Mops, Package};

fn registry_pkg() -> Package {
    Package {
        name: "base".to_string(),
        version: Some("0.7.3".to_string()),
        source: "rrkah-fqaaa-aaaaa-aaaaq-cai".to_string(),
        base_dir: "src".to_string(),
        repo: None,
        dependencies: Vec::new(),
    }
}

fn repo_pkg() -> Package {
    Package {
        name: "candy".to_string(),
        version: Some("0.3.0".to_string()),
        source: "github".to_string(),
        base_dir: "src".to_string(),
        repo: Some(RepoInfo {
            repo: "icdevsorg/candy_library".to_string(),
            tag: "v0.3.0".to_string(),
            commit: "907a4e7363aac6c6a4e114ebc73e3d3f21e138af".to_string(),
            base_dir: "src".to_string(),
        }),
        dependencies: Vec::new(),
    }
}

fn local_pkg() -> Package {
    Package {
        name: "mylib".to_string(),
        version: None,
        source: "file:///home/user/mylib".to_string(),
        base_dir: "src".to_string(),
        repo: None,
        dependencies: Vec::new(),
    }
}

#[test]
fn registry_key_path_and_done_file() {
    let p = registry_pkg();
    assert_eq!(p.get_key(), "base-0.7.3");
    assert_eq!(p.get_path(), "mops/base-0.7.3");
    assert_eq!(p.get_done_file(), "DONE");
}

#[test]
fn repo_key_path_and_done_file() {
    let p = repo_pkg();
    assert_eq!(
        p.get_key(),
        "candy-icdevsorg/candy_library-907a4e7363aac6c6a4e114ebc73e3d3f21e138af"
    );
    assert_eq!(p.get_path(), "git/icdevsorg-candy_library/907a4e73");
    assert_eq!(p.get_done_file(), "DONE-src");
}

#[test]
fn local_key_path_and_done_file() {
    let p = local_pkg();
    assert_eq!(p.get_key(), "mylib-/home/user/mylib");
    assert_eq!(p.get_path(), "/home/user/mylib");
    assert_eq!(p.get_done_file(), "");
}

#[test]
fn canister_key_prefers_name_then_id_then_output() {
    let mk = |name: Option<&str>, id: Option<&str>, output: Option<&str>| Canister {
        canister_id: id.map(str::to_string),
        name: name.map(str::to_string),
        timestamp: None,
        output: output.map(str::to_string),
        candid: String::new(),
    };
    assert_eq!(mk(Some("ledger"), Some("x"), Some("y")).get_key(), "ledger");
    assert_eq!(mk(None, Some("x"), Some("y")).get_key(), "x");
    assert_eq!(mk(None, None, Some("y")).get_key(), "y");
}

#[test]
fn no_need_to_update_rules() {
    let recorded = Canister {
        canister_id: Some("aaaaa-aa".to_string()),
        name: None,
        timestamp: Some("ts".to_string()),
        output: None,
        candid: "service {}".to_string(),
    };
    // A live fetch is recorded and the declaration stays id-backed: kept.
    let id_backed = CanisterInfo {
        canister_id: Some("aaaaa-aa".to_string()),
        name: None,
        candid: None,
        output: None,
    };
    assert!(recorded.no_need_to_update(&id_backed));

    // The declaration switches to a static interface: refreshed.
    let static_decl = CanisterInfo {
        canister_id: Some("aaaaa-aa".to_string()),
        name: None,
        candid: Some("/p/i.did".to_string()),
        output: None,
    };
    assert!(!recorded.no_need_to_update(&static_decl));

    // A different id: refreshed.
    let other_id = CanisterInfo {
        canister_id: Some("rrkah-fqaaa-aaaaa-aaaaq-cai".to_string()),
        name: None,
        candid: None,
        output: None,
    };
    assert!(!recorded.no_need_to_update(&other_id));

    // A static record is kept only while the declared interface is unchanged.
    let static_record = Canister {
        canister_id: None,
        name: Some("t".to_string()),
        timestamp: None,
        output: Some("/out".to_string()),
        candid: "/p/i.did".to_string(),
    };
    let same = CanisterInfo {
        canister_id: None,
        name: Some("t".to_string()),
        candid: Some("/p/i.did".to_string()),
        output: Some("/out".to_string()),
    };
    let moved = CanisterInfo {
        canister_id: None,
        name: Some("t".to_string()),
        candid: Some("/p/other.did".to_string()),
        output: Some("/out".to_string()),
    };
    assert!(static_record.no_need_to_update(&same));
    assert!(!static_record.no_need_to_update(&moved));
}

#[test]
fn display_keys_join_name_and_request() {
    assert_eq!(
        Mops::Mops { name: "base".to_string(), version: "0.7.3".to_string() }.get_display_key(),
        "base-0.7.3"
    );
    assert_eq!(
        Mops::Repo {
            name: "candy".to_string(),
            repo: "https://github.com/a/b".to_string()
        }
        .get_display_key(),
        "candy-https://github.com/a/b"
    );
    assert_eq!(
        Mops::Local { name: "l".to_string(), path: "/p".to_string() }.get_display_key(),
        "l-/p"
    );
}
