use mops_cli::lock::{Mops, Package};
use mops_cli::mops::DependencyV2;
use mops_cli::resolver::{
    resolve_versions, Ask, RegistryDetails, ResolveError, Resolver,
};

fn dep(name: &str, version: &str) -> DependencyV2 {
    DependencyV2 {
        name: name.to_string(),
        repo: String::new(),
        version: version.to_string(),
    }
}

fn details(storage: &str, deps: Vec<DependencyV2>) -> RegistryDetails {
    RegistryDetails {
        storage: storage.to_string(),
        base_dir: "src".to_string(),
        dependencies: deps,
    }
}

fn registry_req(name: &str, version: &str) -> Mops {
    Mops::Mops { name: name.to_string(), version: version.to_string() }
}

/// Drives a resolver whose requirements are all registry requirements,
/// answering each ask from the given metadata table.
fn run_registry(
    resolver: &mut Resolver,
    table: &[(&str, &str, Vec<DependencyV2>)],
) -> usize {
    let mut calls = 0;
    loop {
        match resolver.next_ask().expect("no resolution error") {
            None => return calls,
            Some(Ask::Registry { name, version }) => {
                calls += 1;
                let row = table
                    .iter()
                    .find(|(n, v, _)| *n == name && *v == version)
                    .expect("registry knows the package");
                resolver.answer_registry(details("rrkah-fqaaa-aaaaa-aaaaq-cai", row.2.clone()));
            }
            Some(other) => panic!("unexpected ask {:?}", other),
        }
    }
}

#[test]
fn scenario_two_package_closure() {
    // A manifest pinning base@0.7.3, whose metadata names prim@0.1.0: the
    // lockfile holds exactly those two, and base lists prim.
    let mut resolver = Resolver::new(Vec::new(), vec![registry_req("base", "0.7.3")]);
    let calls = run_registry(
        &mut resolver,
        &[
            ("base", "0.7.3", vec![dep("prim", "0.1.0")]),
            ("prim", "0.1.0", vec![]),
        ],
    );
    assert_eq!(calls, 2);
    let out = resolver.finalize().expect("no conflict");
    assert_eq!(out.len(), 2);
    assert_eq!(out[0].name, "base");
    assert_eq!(out[0].version.as_deref(), Some("0.7.3"));
    assert_eq!(out[0].dependencies, vec!["prim-0.1.0".to_string()]);
    assert_eq!(out[1].name, "prim");
    assert_eq!(out[1].version.as_deref(), Some("0.1.0"));
    assert!(out[1].dependencies.is_empty());
}

#[test]
fn scenario_diamond_keeps_higher_version() {
    // A needs C@1.0.0 and B needs C@2.0.0: only C@2.0.0 is retained, and
    // both A's and B's dependency keys point at the retained entry.
    let mut resolver = Resolver::new(
        Vec::new(),
        vec![registry_req("A", "1.0.0"), registry_req("B", "1.0.0")],
    );
    run_registry(
        &mut resolver,
        &[
            ("A", "1.0.0", vec![dep("C", "1.0.0")]),
            ("B", "1.0.0", vec![dep("C", "2.0.0")]),
            ("C", "1.0.0", vec![]),
            ("C", "2.0.0", vec![]),
        ],
    );
    let out = resolver.finalize().expect("versions are comparable");
    let names: Vec<&str> = out.iter().map(|p| p.name.as_str()).collect();
    assert_eq!(names, vec!["A", "B", "C"]);
    let c = &out[2];
    assert_eq!(c.version.as_deref(), Some("2.0.0"));
    assert_eq!(out[0].dependencies, vec!["C-2.0.0".to_string()]);
    assert_eq!(out[1].dependencies, vec!["C-2.0.0".to_string()]);
}

#[test]
fn warm_lockfile_issues_no_registry_calls() {
    // First pass builds the closure; a second pass seeded with it resolves
    // the unchanged manifest without a single ask, and reproduces the
    // lockfile exactly.
    let mut first = Resolver::new(Vec::new(), vec![registry_req("base", "0.7.3")]);
    let table = [
        ("base", "0.7.3", vec![dep("prim", "0.1.0")]),
        ("prim", "0.1.0", vec![]),
    ];
    run_registry(&mut first, &table);
    let lock = first.finalize().expect("no conflict");

    let seed: Vec<Package> = lock.iter().map(clone_package).collect();
    let mut second = Resolver::new(seed, vec![registry_req("base", "0.7.3")]);
    let calls = run_registry(&mut second, &table);
    assert_eq!(calls, 0, "a warm lockfile answers every requirement");
    let again = second.finalize().expect("no conflict");
    assert_eq!(render(&lock), render(&again));
}

fn clone_package(p: &Package) -> Package {
    Package {
        name: p.name.clone(),
        version: p.version.clone(),
        source: p.source.clone(),
        base_dir: p.base_dir.clone(),
        repo: p.repo.clone(),
        dependencies: p.dependencies.clone(),
    }
}

/// A deterministic rendering of the fields the lockfile serializes.
fn render(pkgs: &[Package]) -> String {
    let mut s = String::new();
    for p in pkgs {
        s.push_str(&p.name);
        s.push('|');
        s.push_str(p.version.as_deref().unwrap_or(""));
        s.push('|');
        s.push_str(&p.source);
        s.push('|');
        s.push_str(&p.base_dir);
        s.push('|');
        for d in &p.dependencies {
            s.push_str(d);
            s.push(',');
        }
        s.push('\n');
    }
    s
}

#[test]
fn conflict_prefers_higher_in_both_orders() {
    let mk = |v: &str, src: &str| Package {
        name: "pkg".to_string(),
        version: Some(v.to_string()),
        source: src.to_string(),
        base_dir: "src".to_string(),
        repo: None,
        dependencies: Vec::new(),
    };
    for (a, b) in [("1.0.0", "2.0.0"), ("2.0.0", "1.0.0")] {
        let out = resolve_versions(vec![mk(a, "s1"), mk(b, "s2")]).expect("comparable");
        assert_eq!(out.len(), 1);
        assert_eq!(out[0].version.as_deref(), Some("2.0.0"));
    }
}

#[test]
fn incomparable_versions_are_a_hard_conflict() {
    // A local package has no version: sharing a name with a registry
    // package is reported verbatim, nothing is picked silently.
    let local = Package {
        name: "pkg".to_string(),
        version: None,
        source: "file:///tmp/pkg".to_string(),
        base_dir: "src".to_string(),
        repo: None,
        dependencies: Vec::new(),
    };
    let registry = Package {
        name: "pkg".to_string(),
        version: Some("1.0.0".to_string()),
        source: "rrkah-fqaaa-aaaaa-aaaaq-cai".to_string(),
        base_dir: "src".to_string(),
        repo: None,
        dependencies: Vec::new(),
    };
    match resolve_versions(vec![local, registry]) {
        Err(ResolveError::VersionConflict(a, b)) => {
            assert_eq!(a.source, "file:///tmp/pkg");
            assert_eq!(b.version.as_deref(), Some("1.0.0"));
        }
        other => panic!("unexpected {:?}", other),
    }
}

#[test]
fn vcs_ref_pins_to_commit_and_stays_pinned() {
    // A dependency pinned only by tag resolves to the commit the host
    // reports; an unchanged tag on the next run yields the identical
    // commit without re-adding anything; a moved tag re-pins.
    let url = "https://github.com/owner/repo#v1.2.0";
    let commit1 = "1111111111111111111111111111111111111111";
    let commit2 = "2222222222222222222222222222222222222222";

    let resolve_once = |seed: Vec<Package>, commit: &str| -> Vec<Package> {
        let mut r = Resolver::new(
            seed,
            vec![Mops::Repo { name: "candy".to_string(), repo: url.to_string() }],
        );
        loop {
            match r.next_ask().expect("url parses") {
                None => break,
                Some(Ask::RepoResolve { parts, .. }) => {
                    assert_eq!(parts.tag.as_deref(), Some("v1.2.0"));
                    assert!(parts.commit.is_none());
                    // The tag is already pinned; only the commit is looked up.
                    if let Some(ask) =
                        r.answer_repo_resolved("ignored".to_string(), commit.to_string())
                    {
                        match ask {
                            Ask::RepoManifest { info, .. } => {
                                assert_eq!(info.tag, "v1.2.0");
                                assert_eq!(info.commit, commit);
                                r.answer_repo_manifest(None).expect("no manifest to reject");
                            }
                            other => panic!("unexpected ask {:?}", other),
                        }
                    }
                }
                Some(other) => panic!("unexpected ask {:?}", other),
            }
        }
        r.finalize().expect("no conflict")
    };

    let lock1 = resolve_once(Vec::new(), commit1);
    assert_eq!(lock1.len(), 1);
    let repo = lock1[0].repo.as_ref().expect("repo package");
    assert_eq!(repo.commit, commit1);
    // The version is guessed from the tag, the checkout having no manifest.
    assert_eq!(lock1[0].version.as_deref(), Some("1.2.0"));

    // Unchanged upstream: the same commit is kept and nothing is duplicated.
    let seed: Vec<Package> = lock1.iter().map(clone_package).collect();
    let lock2 = resolve_once(seed, commit1);
    assert_eq!(lock2.len(), 1);
    assert_eq!(lock2[0].repo.as_ref().unwrap().commit, commit1);

    // Moved tag: the next run re-pins to the new commit, superseding the
    // stale checkout.
    let seed: Vec<Package> = lock1.iter().map(clone_package).collect();
    let lock3 = resolve_once(seed, commit2);
    assert_eq!(lock3.len(), 1);
    assert_eq!(lock3[0].repo.as_ref().unwrap().commit, commit2);
}

#[test]
fn same_vcs_reference_resolves_once() {
    // The same repository reference reached through two requirements ends
    // up as exactly one resolved package.
    let url = "https://github.com/owner/repo#v1.0.0";
    let commit = "3333333333333333333333333333333333333333";
    let mut r = Resolver::new(
        Vec::new(),
        vec![
            Mops::Repo { name: "lib".to_string(), repo: url.to_string() },
            Mops::Repo { name: "lib".to_string(), repo: url.to_string() },
        ],
    );
    let mut resolved_asks = 0;
    loop {
        match r.next_ask().expect("url parses") {
            None => break,
            Some(Ask::RepoResolve { .. }) => {
                resolved_asks += 1;
                if let Some(Ask::RepoManifest { .. }) =
                    r.answer_repo_resolved("v1.0.0".to_string(), commit.to_string())
                {
                    r.answer_repo_manifest(None).expect("nothing to reject");
                }
            }
            Some(other) => panic!("unexpected ask {:?}", other),
        }
    }
    // Both requirements consult the host (the commit is how identity is
    // known), but only one package is ever inserted.
    assert_eq!(resolved_asks, 2);
    let out = r.finalize().expect("no conflict");
    assert_eq!(out.len(), 1);
    assert_eq!(out[0].repo.as_ref().unwrap().commit, commit);
}

#[test]
fn invalid_repository_url_is_reported() {
    let mut r = Resolver::new(
        Vec::new(),
        vec![Mops::Repo { name: "x".to_string(), repo: "https://example.com/a/b".to_string() }],
    );
    match r.next_ask() {
        Err(ResolveError::InvalidUrl(u)) => assert_eq!(u, "https://example.com/a/b"),
        other => panic!("unexpected {:?}", other),
    }
}

#[test]
fn local_requirement_resolves_through_canonical_path() {
    let mut r = Resolver::new(
        Vec::new(),
        vec![Mops::Local { name: "mylib".to_string(), path: "./lib".to_string() }],
    );
    match r.next_ask().expect("ok") {
        Some(Ask::LocalCanonical { name, path }) => {
            assert_eq!(name, "mylib");
            assert_eq!(path, "./lib");
        }
        other => panic!("unexpected {:?}", other),
    }
    match r.answer_local_canonical("/abs/lib".to_string()) {
        Some(Ask::LocalManifest { canonical, .. }) => assert_eq!(canonical, "/abs/lib"),
        other => panic!("unexpected {:?}", other),
    }
    r.answer_local_manifest(None).expect("nothing to reject");
    let out = r.finalize().expect("no conflict");
    assert_eq!(out.len(), 1);
    assert_eq!(out[0].source, "file:///abs/lib");
    assert_eq!(out[0].base_dir, "src");
    assert!(out[0].version.is_none());
}

#[test]
fn registry_dependency_with_empty_version_becomes_repo_requirement() {
    let mut r = Resolver::new(Vec::new(), vec![registry_req("app", "1.0.0")]);
    match r.next_ask().expect("ok") {
        Some(Ask::Registry { .. }) => {
            r.answer_registry(details(
                "rrkah-fqaaa-aaaaa-aaaaq-cai",
                vec![DependencyV2 {
                    name: "fork".to_string(),
                    repo: "https://github.com/owner/fork".to_string(),
                    version: String::new(),
                }],
            ));
        }
        other => panic!("unexpected {:?}", other),
    }
    match r.next_ask().expect("url parses") {
        Some(Ask::RepoResolve { name, parts }) => {
            assert_eq!(name, "fork");
            assert_eq!(parts.repo, "owner/fork");
            assert!(parts.tag.is_none());
        }
        other => panic!("unexpected {:?}", other),
    }
}
