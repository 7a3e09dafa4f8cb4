use mops_cli::github::{
    motoko_files, parse_github_url_parts, Asset, ReleaseInfo, RepoInfo, TreeEntry,
};

#[test]
fn parse_full_url_with_dir_tag_and_commit() {
    let p = parse_github_url_parts(
        "https://github.com/icdevsorg/candy_library#v0.3.0@907a4e7363aac6c6a4e114ebc73e3d3f21e138af",
    )
    .expect("url parses");
    assert_eq!(p.repo, "icdevsorg/candy_library");
    assert_eq!(p.tag.as_deref(), Some("v0.3.0"));
    assert_eq!(
        p.commit.as_deref(),
        Some("907a4e7363aac6c6a4e114ebc73e3d3f21e138af")
    );
    assert_eq!(p.base_dir, "src");
}

#[test]
fn parse_url_with_base_dir() {
    let p = parse_github_url_parts("https://github.com/owner/repo/lib").expect("url parses");
    assert_eq!(p.repo, "owner/repo");
    assert_eq!(p.base_dir, "lib");
    assert!(p.tag.is_none());
    assert!(p.commit.is_none());
}

#[test]
fn parse_url_ref_attaches_to_the_repo_segment() {
    // A ref suffix is read off the repository segment; a third segment is
    // the source subdirectory, taken verbatim.
    let p = parse_github_url_parts("https://github.com/owner/repo#v1.0.0/lib")
        .expect("url parses");
    assert_eq!(p.repo, "owner/repo");
    assert_eq!(p.tag.as_deref(), Some("v1.0.0"));
    assert!(p.commit.is_none());
    assert_eq!(p.base_dir, "lib");
}

#[test]
fn parse_git_suffix_and_bare_url() {
    let p = parse_github_url_parts("https://github.com/chenyan2002/motoko-splay.git")
        .expect("url parses");
    assert_eq!(p.repo, "chenyan2002/motoko-splay");
    assert!(p.tag.is_none());
    assert!(p.commit.is_none());
    assert_eq!(p.base_dir, "src");
}

#[test]
fn parse_rejects_other_hosts_and_bare_owners() {
    assert!(parse_github_url_parts("https://gitlab.com/a/b").is_none());
    assert!(parse_github_url_parts("https://github.com/owner-only").is_none());
}

#[test]
fn done_file_flattens_base_dir() {
    let ri = RepoInfo {
        repo: "a/b".to_string(),
        tag: "main".to_string(),
        commit: "0123456789abcdef".to_string(),
        base_dir: "src/lib".to_string(),
    };
    assert_eq!(ri.get_done_file(), "DONE-src-lib");
}

#[test]
fn guess_version_reads_the_tag() {
    let ri = RepoInfo {
        repo: "a/b".to_string(),
        tag: "v0.3.0".to_string(),
        commit: "0123456789abcdef".to_string(),
        base_dir: "src".to_string(),
    };
    assert_eq!(ri.guess_version().as_deref(), Some("0.3.0"));
}

#[test]
fn tree_filter_keeps_package_sources_in_order() {
    let entries = vec![
        TreeEntry { path: "src/A.mo".to_string(), kind: "blob".to_string() },
        TreeEntry { path: "src/sub".to_string(), kind: "tree".to_string() },
        TreeEntry { path: "src/sub/B.mo".to_string(), kind: "blob".to_string() },
        TreeEntry { path: "test/T.mo".to_string(), kind: "blob".to_string() },
        TreeEntry { path: "src/README.md".to_string(), kind: "blob".to_string() },
    ];
    let files = motoko_files(&entries, "src");
    assert_eq!(files, vec!["src/A.mo".to_string(), "src/sub/B.mo".to_string()]);
}

#[test]
fn asset_size_finds_the_matching_url() {
    let info = ReleaseInfo {
        tag_name: "v1.0.0".to_string(),
        assets: vec![
            Asset { size: 10, browser_download_url: "https://x/a".to_string() },
            Asset { size: 20, browser_download_url: "https://x/b".to_string() },
        ],
    };
    assert_eq!(info.get_asset_size("https://x/b"), Some(20));
    assert_eq!(info.get_asset_size("https://x/c"), None);
}
