use mops_cli::fetch::{fetch_plan, outdated_pins, registry_pins, ChunkBuffer, FetchError};
use mops_cli::github::RepoInfo;
use mops_cli::lock::Package;

#[test]
fn chunks_reassemble_in_index_order() {
    // A file cut into chunks, arriving out of order, reassembles to the
    // original bytes.
    let content: Vec<u8> = (0u8..=200).collect();
    let chunks: Vec<Vec<u8>> = vec![
        content[0..50].to_vec(),
        content[50..51].to_vec(),
        content[51..170].to_vec(),
        content[170..].to_vec(),
    ];
    let mut buf = ChunkBuffer::new(chunks.len());
    assert!(!buf.is_complete());
    for idx in [2usize, 0, 3, 1] {
        buf.store(idx, chunks[idx].clone());
    }
    assert!(buf.is_complete());
    assert_eq!(buf.assemble(), content);
}

#[test]
fn storing_twice_keeps_the_last_chunk() {
    let mut buf = ChunkBuffer::new(1);
    buf.store(0, vec![1, 2]);
    buf.store(0, vec![3]);
    assert_eq!(buf.assemble(), vec![3]);
}

fn registry_pkg(name: &str, ver: &str, storage: &str) -> Package {
    Package {
        name: name.to_string(),
        version: Some(ver.to_string()),
        source: storage.to_string(),
        base_dir: "src".to_string(),
        repo: None,
        dependencies: Vec::new(),
    }
}

fn repo_pkg() -> Package {
    Package {
        name: "candy".to_string(),
        version: None,
        source: "github".to_string(),
        base_dir: "src".to_string(),
        repo: Some(RepoInfo {
            repo: "a/b".to_string(),
            tag: "main".to_string(),
            commit: "aaaabbbbccccdddd".to_string(),
            base_dir: "src".to_string(),
        }),
        dependencies: Vec::new(),
    }
}

fn local_pkg() -> Package {
    Package {
        name: "l".to_string(),
        version: None,
        source: "file:///p".to_string(),
        base_dir: "src".to_string(),
        repo: None,
        dependencies: Vec::new(),
    }
}

#[test]
fn plan_skips_done_and_local_packages() {
    let pkgs = vec![
        registry_pkg("base", "0.7.3", "aaaaa-aa"),
        registry_pkg("done", "1.0.0", "aaaaa-aa"),
        repo_pkg(),
        local_pkg(),
    ];
    let done = vec![false, true, false, false];
    let plan = fetch_plan(&pkgs, &done).expect("storage ids are valid");
    assert_eq!(plan.registry.len(), 1);
    assert_eq!(plan.registry[0].name, "base");
    assert_eq!(plan.registry[0].version, "0.7.3");
    assert_eq!(plan.registry[0].path, "mops/base-0.7.3");
    assert_eq!(plan.repos.len(), 1);
    assert_eq!(plan.repos[0].info.commit, "aaaabbbbccccdddd");
    assert_eq!(plan.repos[0].path, "git/a-b/aaaabbbb");
}

#[test]
fn plan_rejects_invalid_storage_ids() {
    let pkgs = vec![registry_pkg("base", "0.7.3", "not-a-principal")];
    match fetch_plan(&pkgs, &vec![false]) {
        Err(FetchError::InvalidStorage(s)) => assert_eq!(s, "not-a-principal"),
        other => panic!("unexpected {:?}", other),
    }
    // Already-fetched packages are not validated again.
    let plan = fetch_plan(&pkgs, &vec![true]).expect("skipped");
    assert!(plan.registry.is_empty());
}

#[test]
fn outdated_report_names_only_moved_pins() {
    let pkgs = vec![
        registry_pkg("base", "0.7.3", "aaaaa-aa"),
        repo_pkg(),
        registry_pkg("prim", "0.1.0", "aaaaa-aa"),
    ];
    let pins = registry_pins(&pkgs);
    assert_eq!(
        pins,
        vec![
            ("base".to_string(), "0.7.3".to_string()),
            ("prim".to_string(), "0.1.0".to_string()),
        ]
    );
    let latest = vec!["0.8.0".to_string(), "0.1.0".to_string()];
    let outdated = outdated_pins(&pins, &latest);
    assert_eq!(
        outdated,
        vec![("base".to_string(), "0.7.3".to_string(), "0.8.0".to_string())]
    );
}
