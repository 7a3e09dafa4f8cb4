//! Materializing resolved packages: which packages still need fetching and
//! by which backend, and the reassembly of a file downloaded in chunks.

use vstd::prelude::*;

use crate::github::RepoInfo;
use crate::lock::{Package, PackageType};
use crate::principal::{is_valid_principal, principal_of_text};

verus! {

/// The concatenation of a list of chunks, in index order.
pub open spec fn concat_chunks(chunks: Seq<Seq<u8>>) -> Seq<u8>
    decreases chunks.len(),
{
    if chunks.len() == 0 {
        Seq::empty()
    } else {
        concat_chunks(chunks.drop_last()) + chunks.last()
    }
}

/// The contents a buffer's filled slots will assemble to.
pub open spec fn assembled(slots: Seq<Option<Vec<u8>>>) -> Seq<u8>
    decreases slots.len(),
{
    if slots.len() == 0 {
        Seq::empty()
    } else {
        assembled(slots.drop_last()) + match slots.last() {
            Some(v) => v@,
            None => Seq::empty(),
        }
    }
}

/// A file being reassembled from a fixed number of chunks that may arrive in
/// any order: slot `i` holds chunk `i` once it has arrived.
pub struct ChunkBuffer {
    pub slots: Vec<Option<Vec<u8>>>,
}

impl ChunkBuffer {
    /// An empty buffer awaiting `chunk_count` chunks.
    pub fn new(chunk_count: usize) -> (r: ChunkBuffer)
        ensures
            r.slots@.len() == chunk_count,
            forall|i: int| 0 <= i < chunk_count ==> (#[trigger] r.slots@[i]) is None,
    {
        let mut slots: Vec<Option<Vec<u8>>> = Vec::new();
        let mut i: usize = 0;
        while i < chunk_count
            invariant
                i <= chunk_count,
                slots@.len() == i,
                forall|j: int| 0 <= j < i ==> (#[trigger] slots@[j]) is None,
            decreases chunk_count - i,
        {
            slots.push(None);
            i = i + 1;
        }
        ChunkBuffer { slots }
    }

    /// Stores the chunk with index `idx`, whenever it arrives: only slot
    /// `idx` changes, regardless of which chunks arrived before it.
    pub fn store(&mut self, idx: usize, data: Vec<u8>)
        requires
            idx < old(self).slots@.len(),
        ensures
            final(self).slots@ == old(self).slots@.update(idx as int, Some(data)),
    {
        let _ = self.slots.remove(idx);
        self.slots.insert(idx, Some(data));
        proof {
            assert(self.slots@ =~= old(self).slots@.update(idx as int, Some(data)));
        }
    }

    /// Whether every chunk has arrived.
    pub fn is_complete(&self) -> (r: bool)
        ensures
            r == (forall|i: int| 0 <= i < self.slots@.len() ==> (#[trigger] self.slots@[i]) is Some),
    {
        let mut i: usize = 0;
        while i < self.slots.len()
            invariant
                i <= self.slots@.len(),
                forall|j: int| 0 <= j < i ==> (#[trigger] self.slots@[j]) is Some,
            decreases self.slots@.len() - i,
        {
            if self.slots[i].is_none() {
                return false;
            }
            i = i + 1;
        }
        true
    }

    /// Concatenates the chunks strictly in index order, whatever order they
    /// were stored in.
    pub fn assemble(self) -> (r: Vec<u8>)
        requires
            forall|i: int| 0 <= i < self.slots@.len() ==> (#[trigger] self.slots@[i]) is Some,
        ensures
            r@ == assembled(self.slots@),
    {
        let ghost all = self.slots@;
        let mut out: Vec<u8> = Vec::new();
        let mut rest = self.slots;
        let n_total = rest.len();
        let mut k: usize = 0;
        proof {
            assert(all.len() == n_total);
            assert(all.subrange(0, 0) =~= Seq::<Option<Vec<u8>>>::empty());
        }
        while rest.len() > 0
            invariant
                all.len() <= usize::MAX,
                forall|i: int| 0 <= i < all.len() ==> (#[trigger] all[i]) is Some,
                k + rest@.len() == all.len(),
                rest@ == all.skip(k as int),
                out@ == assembled(all.subrange(0, k as int)),
        decreases rest@.len(),
        {
            let chunk = rest.remove(0);
            proof {
                assert(chunk == all[k as int]);
                assert(rest@ =~= all.skip(k + 1));
            }
            match chunk {
                Some(mut data) => {
                    let ghost dv = data@;
                    out.append(&mut data);
                    proof {
                        assert(all.subrange(0, k + 1).drop_last() =~= all.subrange(0, k as int));
                        assert(all.subrange(0, k + 1).last() == all[k as int]);
                        assert(out@ == assembled(all.subrange(0, k + 1)));
                    }
                },
                None => {
                    proof {
                        assert(false);
                    }
                },
            }
            k = k + 1;
        }
        proof {
            assert(all.subrange(0, all.len() as int) =~= all);
        }
        out
    }
}

/// Chunk reassembly round trip: a file cut into chunks whose concatenation
/// is the original content, stored into a buffer at their indices in any
/// order, assembles to content identical to the original.
pub proof fn lemma_chunk_round_trip(slots: Seq<Option<Vec<u8>>>, chunks: Seq<Seq<u8>>, content: Seq<u8>)
    requires
        slots.len() == chunks.len(),
        forall|i: int|
            0 <= i < slots.len() ==> ((#[trigger] slots[i]) matches Some(v) && v@ == chunks[i]),
        concat_chunks(chunks) == content,
    ensures
        assembled(slots) == content,
    decreases slots.len(),
{
    if slots.len() > 0 {
        lemma_chunk_round_trip(slots.drop_last(), chunks.drop_last(), concat_chunks(chunks.drop_last()));
    }
}

/// A registry fetch still to perform: the package's name, exact version,
/// storage locator and cache subdirectory.
#[derive(Debug)]
pub struct RegistryFetch {
    pub name: String,
    pub version: String,
    pub storage: String,
    pub path: String,
}

/// A repository fetch still to perform: the pinned checkout and the cache
/// subdirectory.
#[derive(Debug)]
pub struct RepoFetch {
    pub info: RepoInfo,
    pub path: String,
}

/// The work one pass over the lockfile leaves: registry and repository
/// fetches are independent batches; packages whose completion marker exists,
/// and local packages, need nothing.
#[derive(Debug)]
pub struct FetchPlan {
    pub registry: Vec<RegistryFetch>,
    pub repos: Vec<RepoFetch>,
}

/// Why planning fails: a registry package whose storage locator is not a
/// valid principal.
#[derive(Debug)]
pub enum FetchError {
    InvalidStorage(String),
}

/// The registry fetches a package list demands, as view tuples of
/// (name, version, storage, cache path), skipping packages already fetched.
pub open spec fn registry_fetches(pkgs: Seq<Package>, done: Seq<bool>) -> Seq<
    (Seq<char>, Seq<char>, Seq<char>, Seq<char>),
>
    decreases pkgs.len(),
{
    if pkgs.len() == 0 {
        Seq::empty()
    } else {
        let rest = registry_fetches(pkgs.drop_last(), done.drop_last());
        let p = pkgs.last();
        if !done[pkgs.len() - 1] && p.spec_is_registry() {
            rest + seq![(p.name@, p.version->0@, p.source@, p.spec_path())]
        } else {
            rest
        }
    }
}

/// The repository fetches a package list demands, as view tuples of
/// (repo, tag, commit, base dir, cache path), skipping packages already
/// fetched.
pub open spec fn repo_fetches(pkgs: Seq<Package>, done: Seq<bool>) -> Seq<
    (Seq<char>, Seq<char>, Seq<char>, Seq<char>, Seq<char>),
>
    decreases pkgs.len(),
{
    if pkgs.len() == 0 {
        Seq::empty()
    } else {
        let rest = repo_fetches(pkgs.drop_last(), done.drop_last());
        let p = pkgs.last();
        if !done[pkgs.len() - 1] && p.spec_is_repo() {
            rest + seq![
                (
                    p.repo->0.repo@,
                    p.repo->0.tag@,
                    p.repo->0.commit@,
                    p.repo->0.base_dir@,
                    p.spec_path(),
                ),
            ]
        } else {
            rest
        }
    }
}

/// The view of a registry fetch list.
pub open spec fn registry_fetch_views(v: Seq<RegistryFetch>) -> Seq<
    (Seq<char>, Seq<char>, Seq<char>, Seq<char>),
> {
    v.map_values(|t: RegistryFetch| (t.name@, t.version@, t.storage@, t.path@))
}

/// The view of a repository fetch list.
pub open spec fn repo_fetch_views(v: Seq<RepoFetch>) -> Seq<
    (Seq<char>, Seq<char>, Seq<char>, Seq<char>, Seq<char>),
> {
    v.map_values(
        |t: RepoFetch| (t.info.repo@, t.info.tag@, t.info.commit@, t.info.base_dir@, t.path@),
    )
}

/// Plans the fetch pass over the lockfile's packages. `done[i]` says whether
/// package `i`'s completion marker already exists; such packages, and local
/// packages, are skipped, so a retry only repeats the packages that failed.
/// Fails on the first not-yet-fetched registry package whose storage locator
/// is not a valid principal.
#[verifier::loop_isolation(false)]
pub fn fetch_plan(pkgs: &Vec<Package>, done: &Vec<bool>) -> (r: Result<FetchPlan, FetchError>)
    requires
        crate::resolver::all_wf(pkgs@),
        done@.len() == pkgs@.len(),
    ensures
        match r {
            Ok(plan) => {
                &&& registry_fetch_views(plan.registry@) == registry_fetches(pkgs@, done@)
                &&& repo_fetch_views(plan.repos@) == repo_fetches(pkgs@, done@)
                &&& forall|i: int|
                    0 <= i < plan.registry@.len() ==> principal_of_text(
                        (#[trigger] plan.registry@[i]).storage@,
                    ) is Some
            },
            Err(e) => e matches FetchError::InvalidStorage(s) && exists|i: int|
                {
                    &&& 0 <= i < pkgs@.len()
                    &&& !done@[i]
                    &&& (#[trigger] pkgs@[i]).spec_is_registry()
                    &&& s@ == pkgs@[i].source@
                    &&& principal_of_text(s@) is None
                },
        },
{
    let mut registry: Vec<RegistryFetch> = Vec::new();
    let mut repos: Vec<RepoFetch> = Vec::new();
    let mut i: usize = 0;
    proof {
        assert(pkgs@.subrange(0, 0) =~= Seq::<Package>::empty());
        assert(done@.subrange(0, 0) =~= Seq::<bool>::empty());
        assert(registry_fetch_views(registry@) =~~= registry_fetches(
            pkgs@.subrange(0, 0),
            done@.subrange(0, 0),
        ));
        assert(repo_fetch_views(repos@) =~~= repo_fetches(
            pkgs@.subrange(0, 0),
            done@.subrange(0, 0),
        ));
    }
    while i < pkgs.len()
        invariant
            i <= pkgs@.len(),
            registry_fetch_views(registry@) == registry_fetches(
                pkgs@.subrange(0, i as int),
                done@.subrange(0, i as int),
            ),
            repo_fetch_views(repos@) == repo_fetches(
                pkgs@.subrange(0, i as int),
                done@.subrange(0, i as int),
            ),
            forall|w: int|
                0 <= w < registry@.len() ==> principal_of_text(
                    (#[trigger] registry@[w]).storage@,
                ) is Some,
        decreases pkgs@.len() - i,
    {
        let p = &pkgs[i];
        proof {
            assert(pkgs@.subrange(0, i + 1).drop_last() =~= pkgs@.subrange(0, i as int));
            assert(done@.subrange(0, i + 1).drop_last() =~= done@.subrange(0, i as int));
            assert(pkgs@.subrange(0, i + 1).last() == pkgs@[i as int]);
        }
        let ghost reg_before = registry@;
        let ghost repo_before = repos@;
        if !done[i] {
            let path = p.get_path();
            match p.get_type() {
                PackageType::Mops { .. } => {
                    if !is_valid_principal(p.source.as_str()) {
                        return Err(FetchError::InvalidStorage(p.source.clone()));
                    }
                    let version = match &p.version {
                        Some(v) => v.clone(),
                        None => {
                            proof {
                                assert(false);
                            }
                            unreached()
                        },
                    };
                    registry.push(
                        RegistryFetch {
                            name: p.name.clone(),
                            version,
                            storage: p.source.clone(),
                            path,
                        },
                    );
                    proof {
                        assert(registry_fetch_views(registry@) =~~= registry_fetch_views(
                            reg_before,
                        ) + seq![
                            (
                                pkgs@[i as int].name@,
                                pkgs@[i as int].version->0@,
                                pkgs@[i as int].source@,
                                pkgs@[i as int].spec_path(),
                            ),
                        ]);
                    }
                },
                PackageType::Repo(ri) => {
                    let info = RepoInfo {
                        repo: ri.repo.clone(),
                        tag: ri.tag.clone(),
                        commit: ri.commit.clone(),
                        base_dir: ri.base_dir.clone(),
                    };
                    repos.push(RepoFetch { info, path });
                    proof {
                        assert(repo_fetch_views(repos@) =~~= repo_fetch_views(repo_before) + seq![
                            (
                                pkgs@[i as int].repo->0.repo@,
                                pkgs@[i as int].repo->0.tag@,
                                pkgs@[i as int].repo->0.commit@,
                                pkgs@[i as int].repo->0.base_dir@,
                                pkgs@[i as int].spec_path(),
                            ),
                        ]);
                    }
                },
                PackageType::Local(_) => {},
            }
        }
        i = i + 1;
    }
    proof {
        assert(pkgs@.subrange(0, pkgs@.len() as int) =~= pkgs@);
        assert(done@.subrange(0, done@.len() as int) =~= done@);
    }
    Ok(FetchPlan { registry, repos })
}

/// The (name, pinned version) pairs of the registry packages of a lockfile,
/// in order: the packages whose upstream may have moved ahead.
pub open spec fn registry_pin_views(pkgs: Seq<Package>) -> Seq<(Seq<char>, Seq<char>)>
    decreases pkgs.len(),
{
    if pkgs.len() == 0 {
        Seq::empty()
    } else {
        let rest = registry_pin_views(pkgs.drop_last());
        let p = pkgs.last();
        if p.spec_is_registry() {
            rest + seq![(p.name@, p.version->0@)]
        } else {
            rest
        }
    }
}

/// Selects the registry packages' (name, pinned version) pairs, in order.
#[verifier::loop_isolation(false)]
pub fn registry_pins(pkgs: &Vec<Package>) -> (r: Vec<(String, String)>)
    requires
        crate::resolver::all_wf(pkgs@),
    ensures
        crate::resolver::assoc_views(r@) == registry_pin_views(pkgs@),
{
    let mut out: Vec<(String, String)> = Vec::new();
    let mut i: usize = 0;
    proof {
        assert(pkgs@.subrange(0, 0) =~= Seq::<Package>::empty());
        assert(crate::resolver::assoc_views(out@) =~~= registry_pin_views(pkgs@.subrange(0, 0)));
    }
    while i < pkgs.len()
        invariant
            i <= pkgs@.len(),
            crate::resolver::assoc_views(out@) == registry_pin_views(pkgs@.subrange(0, i as int)),
        decreases pkgs@.len() - i,
    {
        let p = &pkgs[i];
        proof {
            assert(pkgs@.subrange(0, i + 1).drop_last() =~= pkgs@.subrange(0, i as int));
            assert(pkgs@.subrange(0, i + 1).last() == pkgs@[i as int]);
        }
        let ghost before = out@;
        match p.get_type() {
            PackageType::Mops { .. } => {
                let version = match &p.version {
                    Some(v) => v.clone(),
                    None => {
                        proof {
                            assert(false);
                        }
                        unreached()
                    },
                };
                out.push((p.name.clone(), version));
                proof {
                    assert(crate::resolver::assoc_views(out@) =~~= crate::resolver::assoc_views(
                        before,
                    ) + seq![(pkgs@[i as int].name@, pkgs@[i as int].version->0@)]);
                }
            },
            _ => {},
        }
        i = i + 1;
    }
    proof {
        assert(pkgs@.subrange(0, pkgs@.len() as int) =~= pkgs@);
    }
    out
}

/// The pins whose latest registry version differs from the pinned one, as
/// (name, pinned, latest), in order.
pub open spec fn outdated_views(
    pins: Seq<(Seq<char>, Seq<char>)>,
    latest: Seq<Seq<char>>,
) -> Seq<(Seq<char>, Seq<char>, Seq<char>)>
    decreases pins.len(),
{
    if pins.len() == 0 {
        Seq::empty()
    } else {
        let rest = outdated_views(pins.drop_last(), latest.drop_last());
        if latest.last() != pins.last().1 {
            rest + seq![(pins.last().0, pins.last().1, latest.last())]
        } else {
            rest
        }
    }
}

/// Pairs each registry pin with the latest version the registry reports and
/// keeps those that differ: the packages an update would change.
#[verifier::loop_isolation(false)]
pub fn outdated_pins(pins: &Vec<(String, String)>, latest: &Vec<String>) -> (r: Vec<
    (String, String, String),
>)
    requires
        latest@.len() == pins@.len(),
    ensures
        r@.map_values(|t: (String, String, String)| (t.0@, t.1@, t.2@)) == outdated_views(
            crate::resolver::assoc_views(pins@),
            latest@.map_values(|s: String| s@),
        ),
{
    let ghost pv = crate::resolver::assoc_views(pins@);
    let ghost lv = latest@.map_values(|s: String| s@);
    let mut out: Vec<(String, String, String)> = Vec::new();
    let mut i: usize = 0;
    proof {
        assert(pv.subrange(0, 0) =~= Seq::<(Seq<char>, Seq<char>)>::empty());
        assert(out@.map_values(|t: (String, String, String)| (t.0@, t.1@, t.2@)) =~~=
            outdated_views(pv.subrange(0, 0), lv.subrange(0, 0)));
    }
    while i < pins.len()
        invariant
            i <= pins@.len(),
            out@.map_values(|t: (String, String, String)| (t.0@, t.1@, t.2@)) == outdated_views(
                pv.subrange(0, i as int),
                lv.subrange(0, i as int),
            ),
        decreases pins@.len() - i,
    {
        proof {
            assert(pv.subrange(0, i + 1).drop_last() =~= pv.subrange(0, i as int));
            assert(lv.subrange(0, i + 1).drop_last() =~= lv.subrange(0, i as int));
            assert(pv.subrange(0, i + 1).last() == pv[i as int]);
            assert(lv.subrange(0, i + 1).last() == lv[i as int]);
        }
        let ghost before = out@;
        if !crate::strutil::str_eq(latest[i].as_str(), pins[i].1.as_str()) {
            out.push((pins[i].0.clone(), pins[i].1.clone(), latest[i].clone()));
            proof {
                assert(out@.map_values(|t: (String, String, String)| (t.0@, t.1@, t.2@)) =~~=
                    before.map_values(|t: (String, String, String)| (t.0@, t.1@, t.2@)) + seq![
                    (pv[i as int].0, pv[i as int].1, lv[i as int]),
                ]);
            }
        }
        i = i + 1;
    }
    proof {
        assert(pv.subrange(0, pv.len() as int) =~= pv);
        assert(lv.subrange(0, lv.len() as int) =~= lv);
    }
    out
}

} // verus!
