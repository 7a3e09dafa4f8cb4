//! The dependency resolver: a sequential state machine that expands a
//! manifest's requirements into a deduplicated closure of resolved packages.
//!
//! The machine owns every decision: deduplication keys, the pending queue,
//! package construction and conflict resolution. What it cannot compute —
//! registry metadata, repository refs and file contents, filesystem paths —
//! it requests through [`Ask`] values; the caller performs the request and
//! hands the answer back. A caller that answers truthfully gets exactly the
//! closure this module's contracts describe.

use vstd::prelude::*;
use vstd::string::*;

use crate::github::{parse_github_url_parts, spec_parse_github_url, RepoInfo, UrlParts};
use crate::lock::{Mops, Package};
use crate::manifest::{spec_classify, ManifestError, RawManifest};
use crate::mops::DependencyV2;
use crate::strutil::{
    dash_join, lex_le_transitive, lex_lt, lex_lt_asymmetric, lex_lt_connected,
    lex_lt_transitive, str_eq, str_lt,
};
use crate::version::guessed_version;

verus! {

/// Every package is well-formed.
pub open spec fn all_wf(s: Seq<Package>) -> bool {
    forall|i: int| 0 <= i < s.len() ==> (#[trigger] s[i]).wf()
}

/// No two packages share a deduplication key.
pub open spec fn unique_keys(s: Seq<Package>) -> bool {
    forall|i: int, j: int|
        0 <= i < j < s.len() ==> (#[trigger] s[i]).spec_key() != (#[trigger] s[j]).spec_key()
}

/// The packages are ordered by deduplication key.
pub open spec fn sorted_keys(s: Seq<Package>) -> bool {
    forall|i: int, j: int|
        0 <= i < j < s.len() ==> !lex_lt(
            (#[trigger] s[j]).spec_key(),
            (#[trigger] s[i]).spec_key(),
        )
}

/// Some package carries the key `k`.
pub open spec fn has_key(s: Seq<Package>, k: Seq<char>) -> bool {
    exists|i: int| 0 <= i < s.len() && (#[trigger] s[i]).spec_key() == k
}

/// Decides `has_key(v@, k@)`.
fn closure_has_key(v: &Vec<Package>, k: &str) -> (r: bool)
    requires
        all_wf(v@),
    ensures
        r == has_key(v@, k@),
{
    let mut i: usize = 0;
    while i < v.len()
        invariant
            all_wf(v@),
            i <= v@.len(),
            forall|j: int| 0 <= j < i ==> (#[trigger] v@[j]).spec_key() != k@,
        decreases v@.len() - i,
    {
        let key = v[i].get_key();
        if str_eq(key.as_str(), k) {
            return true;
        }
        i = i + 1;
    }
    false
}

/// Inserts a fresh package at its ordered position.
fn closure_insert(v: &mut Vec<Package>, p: Package)
    requires
        all_wf(old(v)@),
        unique_keys(old(v)@),
        sorted_keys(old(v)@),
        p.wf(),
        !has_key(old(v)@, p.spec_key()),
    ensures
        all_wf(final(v)@),
        unique_keys(final(v)@),
        sorted_keys(final(v)@),
        exists|k: int| 0 <= k <= old(v)@.len() && final(v)@ == old(v)@.insert(k, p),
{
    let key = p.get_key();
    let ghost kv = p.spec_key();
    let i = find_insert_pos(v, key.as_str());
    let ghost pos = i as int;
    let ghost before = v@;
    v.insert(i, p);
    proof {
        assert(v@ == before.insert(pos, p));
        assert forall|a: int| 0 <= a < v@.len() implies v@[a] == (if a < pos {
            before[a]
        } else if a == pos {
            p
        } else {
            before[a - 1]
        }) by {
            assert(v@ =~= before.subrange(0, pos) + seq![p] + before.skip(pos));
        }
        // Entries before the insertion point precede `p`; entries from the
        // insertion point on do not precede it.
        assert forall|a: int, b: int| 0 <= a < b < v@.len() implies !lex_lt(
            (#[trigger] v@[b]).spec_key(),
            (#[trigger] v@[a]).spec_key(),
        ) by {
            if a < pos && b == pos {
                lex_lt_asymmetric(v@[a].spec_key(), kv);
            } else if a == pos && b > pos {
                lex_le_transitive(kv, before[pos].spec_key(), v@[b].spec_key());
            }
        }
        assert forall|a: int, b: int| 0 <= a < b < v@.len() implies (
        #[trigger] v@[a]).spec_key() != (#[trigger] v@[b]).spec_key() by {
            if a == pos && b > pos {
                assert(before[b - 1].spec_key() != kv);
            } else if b == pos && a < pos {
                assert(before[a].spec_key() != kv);
            }
        }
    }
}

/// Whether `p` survives re-pinning `name`'s checkout of `repo` to `commit`:
/// everything does except that name's checkouts of the same repository at
/// other commits.
pub open spec fn survives_repin(p: Package, name: Seq<char>, repo: Seq<char>, commit: Seq<char>) -> bool {
    !(p.name@ == name && p.spec_is_repo() && p.repo->0.repo@ == repo && p.repo->0.commit@
        != commit)
}

/// Removes the packages a re-pin supersedes: `name`'s checkouts of `repo`
/// pinned at a commit other than `commit`.
#[verifier::loop_isolation(false)]
fn closure_remove_superseded(v: &mut Vec<Package>, name: &str, repo: &str, commit: &str)
    requires
        all_wf(old(v)@),
        unique_keys(old(v)@),
        sorted_keys(old(v)@),
    ensures
        all_wf(final(v)@),
        unique_keys(final(v)@),
        sorted_keys(final(v)@),
        final(v)@ == old(v)@.filter(|p: Package| survives_repin(p, name@, repo@, commit@)),
        forall|k: Seq<char>| has_key(final(v)@, k) ==> has_key(old(v)@, k),
{
    let ghost pred = |p: Package| survives_repin(p, name@, repo@, commit@);
    let ghost all = v@;
    let mut i: usize = 0;
    let ghost mut j: int = 0;
    proof {
        assert(all.subrange(0, 0).filter(pred) =~= Seq::<Package>::empty());
        assert(v@ =~= all.subrange(0, 0).filter(pred) + all.skip(0));
    }
    loop
        invariant
            all_wf(v@),
            unique_keys(v@),
            sorted_keys(v@),
            0 <= j <= all.len(),
            i <= v@.len(),
            v@ == all.subrange(0, j).filter(pred) + all.skip(j),
            i as int == all.subrange(0, j).filter(pred).len(),
        decreases all.len() - j,
    {
        if i == v.len() {
            proof {
                assert(all.skip(j).len() == 0);
                assert(all.subrange(0, j) =~= all);
                assert forall|k: Seq<char>| has_key(v@, k) implies has_key(all, k) by {
                    if has_key(v@, k) {
                        let a = choose|a: int| 0 <= a < v@.len() && v@[a].spec_key() == k;
                        lemma_filter_element_of(all, pred, a);
                        let w = choose|w: int| 0 <= w < all.len() && all[w] == v@[a];
                        assert(all[w].spec_key() == k);
                    }
                }
            }
            return ;
        }
        proof {
            assert(v@[i as int] == all.skip(j)[0]);
            assert(all.skip(j)[0] == all[j]);
        }
        let p = &v[i];
        let keep = {
            let same_name = str_eq(p.name.as_str(), name);
            match &p.repo {
                Some(ri) => {
                    let is_repo_pkg = {
                        proof {
                            reveal_strlit("file://");
                            reveal_strlit("github");
                        }
                        !crate::strutil::starts_with(p.source.as_str(), "file://") && str_eq(
                            p.source.as_str(),
                            "github",
                        )
                    };
                    !(same_name && is_repo_pkg && str_eq(ri.repo.as_str(), repo) && !str_eq(
                        ri.commit.as_str(),
                        commit,
                    ))
                },
                None => true,
            }
        };
        proof {
            assert(keep == pred(all[j]));
            assert(all.subrange(0, j + 1) =~= all.subrange(0, j) + seq![all[j]]);
            Seq::<Package>::filter_distributes_over_add(all.subrange(0, j), seq![all[j]], pred);
            reveal_with_fuel(Seq::<Package>::filter, 2);
            if keep {
                assert(seq![all[j]].filter(pred) =~= seq![all[j]]);
            } else {
                assert(seq![all[j]].filter(pred) =~= Seq::<Package>::empty());
            }
        }
        if keep {
            proof {
                assert(v@ =~= all.subrange(0, j + 1).filter(pred) + all.skip(j + 1));
            }
            i = i + 1;
        } else {
            let ghost bv = v@;
            let _ = v.remove(i);
            proof {
                assert(v@ =~= bv.subrange(0, i as int) + bv.skip(i + 1));
                assert forall|a: int| 0 <= a < v@.len() implies v@[a] == (if a < i as int {
                    bv[a]
                } else {
                    bv[a + 1]
                }) by {}
                assert forall|a: int, b: int| 0 <= a < b < v@.len() implies {
                    &&& (#[trigger] v@[a]).spec_key() != (#[trigger] v@[b]).spec_key()
                    &&& !lex_lt(v@[b].spec_key(), v@[a].spec_key())
                } by {
                    let aa = if a < i as int {
                        a
                    } else {
                        a + 1
                    };
                    let bb = if b < i as int {
                        b
                    } else {
                        b + 1
                    };
                    assert(v@[a] == bv[aa]);
                    assert(v@[b] == bv[bb]);
                }
                assert(v@ =~= all.subrange(0, j + 1).filter(pred) + all.skip(j + 1));
            }
        }
        proof {
            j = j + 1;
        }
    }
}

/// An element of a filtered sequence is an element of the original.
proof fn lemma_filter_element_of(s: Seq<Package>, pred: spec_fn(Package) -> bool, i: int)
    requires
        0 <= i < s.filter(pred).len(),
    ensures
        exists|w: int| 0 <= w < s.len() && s[w] == s.filter(pred)[i],
    decreases s.len(),
{
    reveal_with_fuel(Seq::<Package>::filter, 2);
    if s.len() > 0 {
        let fd = s.drop_last().filter(pred);
        if i < fd.len() {
            lemma_filter_element_of(s.drop_last(), pred, i);
            let w = choose|w: int| 0 <= w < s.drop_last().len() && s.drop_last()[w] == fd[i];
            assert(s[w] == s.filter(pred)[i]);
        } else {
            assert(s[s.len() - 1] == s.filter(pred)[i]);
        }
    }
}

/// The ordered position at which a package with key `key` belongs: every
/// entry before it strictly precedes `key`.
fn find_insert_pos(v: &Vec<Package>, key: &str) -> (r: usize)
    requires
        all_wf(v@),
    ensures
        r <= v@.len(),
        forall|j: int| 0 <= j < r ==> lex_lt((#[trigger] v@[j]).spec_key(), key@),
        r < v@.len() ==> !lex_lt(v@[r as int].spec_key(), key@),
{
    let mut i: usize = 0;
    loop
        invariant
            all_wf(v@),
            i <= v@.len(),
            forall|j: int| 0 <= j < i ==> lex_lt((#[trigger] v@[j]).spec_key(), key@),
        decreases v@.len() - i,
    {
        if i == v.len() {
            return i;
        }
        let cur = v[i].get_key();
        if !str_lt(cur.as_str(), key) {
            return i;
        }
        i = i + 1;
    }
}

/// What the resolver needs the caller to do next.
#[derive(Debug)]
pub enum Ask {
    /// Fetch `name@version`'s metadata from the registry.
    Registry { name: String, version: String },
    /// Resolve the parsed URL's missing ref and commit against the host.
    RepoResolve { name: String, parts: UrlParts },
    /// Fetch the manifest of the pinned checkout, if the repository has one.
    RepoManifest { name: String, info: RepoInfo },
    /// Canonicalize the local path.
    LocalCanonical { name: String, path: String },
    /// Read the manifest under the canonical path, if there is one.
    LocalManifest { name: String, canonical: String },
}

/// The answer the machine is waiting for, with what it needs to act on it.
#[derive(Debug)]
pub enum Waiting {
    Idle,
    Registry { name: String, version: String },
    RepoResolve { name: String, parts: UrlParts },
    RepoManifest { name: String, info: RepoInfo },
    LocalCanonical { name: String, path: String },
    LocalManifest { name: String, canonical: String },
}

/// Why a resolution pass fails.
#[derive(Debug)]
pub enum ResolveError {
    /// A requirement's repository URL is not well formed.
    InvalidUrl(String),
    /// A fetched manifest is invalid.
    Manifest(ManifestError),
    /// Two packages share a name without comparable versions; both entries
    /// are reported.
    VersionConflict(Package, Package),
}

/// A registry requirement whose key is already resolved: popping it needs no
/// backend call.
pub open spec fn skippable(m: Mops, resolved: Seq<Package>) -> bool {
    m matches Mops::Mops { name, version } && has_key(resolved, name@ + seq!['-'] + version@)
}

/// The key a repository requirement resolves to once its commit is known.
pub open spec fn repo_key(name: Seq<char>, repo: Seq<char>, commit: Seq<char>) -> Seq<char> {
    name + seq!['-'] + repo + seq!['-'] + commit
}

/// The dependency-resolution state machine.
pub struct Resolver {
    /// The closure built so far, ordered by deduplication key.
    pub resolved: Vec<Package>,
    /// Requirements still to process, front first.
    pub queue: Vec<Mops>,
    /// The outstanding request, if any.
    pub waiting: Waiting,
    /// Display key to requirement name, recorded as requirements are
    /// enqueued; drives the final dependency-key rewrite.
    pub dep_names: Vec<(String, String)>,
}

impl Resolver {
    /// The machine's invariant: the closure is well-formed, each key owned
    /// by exactly one package (keys, once inserted, are never overwritten),
    /// and an outstanding request is only ever made for an unresolved key.
    pub open spec fn inv(self) -> bool {
        &&& all_wf(self.resolved@)
        &&& unique_keys(self.resolved@)
        &&& sorted_keys(self.resolved@)
        &&& match self.waiting {
            Waiting::Idle => true,
            Waiting::Registry { name, version } => !has_key(
                self.resolved@,
                name@ + seq!['-'] + version@,
            ),
            Waiting::RepoResolve { .. } => true,
            Waiting::RepoManifest { name, info } => !has_key(
                self.resolved@,
                repo_key(name@, info.repo@, info.commit@),
            ) && info.commit@.len() >= 8,
            Waiting::LocalCanonical { .. } => true,
            Waiting::LocalManifest { name, canonical } => !has_key(
                self.resolved@,
                name@ + seq!['-'] + canonical@,
            ),
        }
    }

    /// Starts a pass: the prior lockfile's packages seed the closure, the
    /// manifest's requirements seed the queue.
    pub fn new(seed: Vec<Package>, deps: Vec<Mops>) -> (r: Resolver)
        requires
            all_wf(seed@),
        ensures
            r.inv(),
            r.waiting is Idle,
            r.queue@ == deps@,
            r.dep_names@.len() == 0,
            // every seeded key is present, and nothing else is
            forall|j: int| 0 <= j < seed@.len() ==> has_key(
                r.resolved@,
                (#[trigger] seed@[j]).spec_key(),
            ),
            forall|i: int| 0 <= i < r.resolved@.len() ==> seed@.contains(#[trigger] r.resolved@[i]),
    {
        let mut resolved: Vec<Package> = Vec::new();
        let mut rest = seed;
        let ghost all = rest@;
        let mut k: usize = 0;
        let n_total = rest.len();
        proof {
            assert(all.len() == n_total);
        }
        while rest.len() > 0
            invariant
                all.len() <= usize::MAX,
                all_wf(all),
                k + rest@.len() == all.len(),
                rest@ == all.skip(k as int),
                all_wf(resolved@),
                unique_keys(resolved@),
                sorted_keys(resolved@),
                forall|j: int| 0 <= j < k ==> has_key(
                    resolved@,
                    (#[trigger] all[j]).spec_key(),
                ),
                forall|i: int| 0 <= i < resolved@.len() ==> all.contains(
                    #[trigger] resolved@[i],
                ),
            decreases rest@.len(),
        {
            let p = rest.remove(0);
            proof {
                assert(p == all[k as int]);
                assert(rest@ =~= all.skip(k + 1));
            }
            let ghost before = resolved@;
            let key = p.get_key();
            if !closure_has_key(&resolved, key.as_str()) {
                closure_insert(&mut resolved, p);
                proof {
                    let kk = choose|kk: int|
                        0 <= kk <= before.len() && resolved@ == before.insert(kk, p);
                    assert forall|j: int| 0 <= j < k + 1 implies has_key(
                        resolved@,
                        (#[trigger] all[j]).spec_key(),
                    ) by {
                        if j < k {
                            let w = choose|w: int|
                                0 <= w < before.len() && before[w].spec_key()
                                    == all[j].spec_key();
                            if w < kk {
                                assert(resolved@[w] == before[w]);
                            } else {
                                assert(resolved@[w + 1] == before[w]);
                            }
                        } else {
                            assert(resolved@[kk] == p);
                        }
                    }
                    assert forall|i: int| 0 <= i < resolved@.len() implies all.contains(
                        #[trigger] resolved@[i],
                    ) by {
                        if i < kk {
                            assert(resolved@[i] == before[i]);
                        } else if i > kk {
                            assert(resolved@[i] == before[i - 1]);
                        } else {
                            assert(all[k as int] == p);
                        }
                    }
                }
            }
            k = k + 1;
        }
        Resolver { resolved, queue: deps, waiting: Waiting::Idle, dep_names: Vec::new() }
    }

    /// Advances past requirements that are already resolved and returns the
    /// next request the caller must answer, or `None` when the queue is
    /// done. Skipping costs no backend call, and only registry requirements
    /// whose exact key is already in the closure are skipped.
    pub fn next_ask(&mut self) -> (r: Result<Option<Ask>, ResolveError>)
        requires
            old(self).inv(),
            old(self).waiting is Idle,
        ensures
            final(self).inv(),
            final(self).resolved == old(self).resolved,
            final(self).dep_names == old(self).dep_names,
            match r {
                Ok(opt) => match opt {
                    None => {
                        &&& final(self).waiting is Idle
                        &&& final(self).queue@.len() == 0
                        &&& forall|j: int|
                            0 <= j < old(self).queue@.len() ==> skippable(
                                #[trigger] old(self).queue@[j],
                                old(self).resolved@,
                            )
                    },
                    Some(ask) => exists|k: int|
                        {
                            &&& 0 <= k < old(self).queue@.len()
                            &&& (forall|j: int|
                                0 <= j < k ==> skippable(
                                    #[trigger] old(self).queue@[j],
                                    old(self).resolved@,
                                ))
                            &&& final(self).queue@ == old(self).queue@.skip(k + 1)
                            &&& ask_for(ask, final(self).waiting, old(self).queue@[k], old(self).resolved@)
                        },
                },
                Err(e) => {
                    &&& final(self).waiting is Idle
                    &&& e matches ResolveError::InvalidUrl(u) && exists|k: int|
                        #![trigger old(self).queue@.skip(k + 1)]
                        {
                            &&& 0 <= k < old(self).queue@.len()
                            &&& (forall|j: int|
                                0 <= j < k ==> skippable(
                                    #[trigger] old(self).queue@[j],
                                    old(self).resolved@,
                                ))
                            &&& final(self).queue@ == old(self).queue@.skip(k + 1)
                            &&& old(self).queue@[k as int] matches Mops::Repo { name, repo }
                                && spec_parse_github_url(repo@) is None && u@ == repo@
                        }
                },
            },
            // Idempotence: a queue of already-resolved registry requirements
            // asks nothing and leaves the closure untouched.
            (forall|j: int|
                0 <= j < old(self).queue@.len() ==> skippable(
                    #[trigger] old(self).queue@[j],
                    old(self).resolved@,
                )) ==> (r matches Ok(opt) && opt is None),
    {
        let ghost q0 = self.queue@;
        let ghost mut k: int = 0;
        proof {
            assert(q0.skip(0) =~= q0);
        }
        loop
            invariant
                self.inv(),
                self.waiting is Idle,
                self.resolved == old(self).resolved,
                self.dep_names == old(self).dep_names,
                q0 == old(self).queue@,
                0 <= k <= q0.len(),
                self.queue@ == q0.skip(k),
                forall|j: int| 0 <= j < k ==> skippable(#[trigger] q0[j], old(self).resolved@),
            decreases self.queue@.len(),
        {
            if self.queue.len() == 0 {
                proof {
                    assert(q0.skip(k).len() == 0);
                }
                return Ok(None);
            }
            let m = self.queue.remove(0);
            proof {
                assert(m == q0[k]);
                assert(self.queue@ =~= q0.skip(k + 1));
            }
            match m {
                Mops::Mops { name, version } => {
                    let key = dash_join(name.as_str(), version.as_str());
                    if closure_has_key(&self.resolved, key.as_str()) {
                        proof {
                            k = k + 1;
                        }
                    } else {
                        self.waiting = Waiting::Registry {
                            name: name.clone(),
                            version: version.clone(),
                        };
                        return Ok(Some(Ask::Registry { name, version }));
                    }
                },
                Mops::Repo { name, repo } => {
                    match parse_github_url_parts(repo.as_str()) {
                        None => {
                            return Err(ResolveError::InvalidUrl(repo));
                        },
                        Some(parts) => {
                            let parts2 = dup_parts(&parts);
                            self.waiting = Waiting::RepoResolve { name: name.clone(), parts: parts2 };
                            return Ok(Some(Ask::RepoResolve { name, parts }));
                        },
                    }
                },
                Mops::Local { name, path } => {
                    self.waiting = Waiting::LocalCanonical { name: name.clone(), path: path.clone() };
                    return Ok(Some(Ask::LocalCanonical { name, path }));
                },
            }
        }
    }

    /// Appends requirements to the queue, in order, recording each one's
    /// display key and name; returns the display keys.
    fn enqueue_mops(&mut self, deps: Vec<Mops>) -> (keys: Vec<String>)
        ensures
            final(self).resolved == old(self).resolved,
            final(self).waiting == old(self).waiting,
            final(self).queue@ == old(self).queue@ + deps@,
            assoc_views(final(self).dep_names@) == assoc_views(old(self).dep_names@) + deps@.map_values(
                |m: Mops| (m.spec_display_key(), m.spec_name()),
            ),
            keys.deep_view() == deps@.map_values(|m: Mops| m.spec_display_key()),
    {
        let mut keys: Vec<String> = Vec::new();
        let mut rest = deps;
        let ghost all = rest@;
        let n_total = rest.len();
        let mut k: usize = 0;
        proof {
            assert(all.len() == n_total);
            assert(keys.deep_view() =~~= all.subrange(0, 0).map_values(
                |m: Mops| m.spec_display_key(),
            ));
            assert(self.queue@ =~= old(self).queue@ + all.subrange(0, 0));
            assert(assoc_views(self.dep_names@) =~~= assoc_views(old(self).dep_names@)
                + all.subrange(0, 0).map_values(|m: Mops| (m.spec_display_key(), m.spec_name())));
        }
        while rest.len() > 0
            invariant
                all.len() <= usize::MAX,
                k + rest@.len() == all.len(),
                rest@ == all.skip(k as int),
                self.resolved == old(self).resolved,
                self.waiting == old(self).waiting,
                self.queue@ == old(self).queue@ + all.subrange(0, k as int),
                assoc_views(self.dep_names@) =~~= assoc_views(old(self).dep_names@) + all.subrange(
                    0,
                    k as int,
                ).map_values(|m: Mops| (m.spec_display_key(), m.spec_name())),
                keys.deep_view() =~~= all.subrange(0, k as int).map_values(
                    |m: Mops| m.spec_display_key(),
                ),
            decreases rest@.len(),
        {
            let m = rest.remove(0);
            proof {
                assert(m == all[k as int]);
                assert(rest@ =~= all.skip(k + 1));
            }
            let key = m.get_display_key();
            let name = mops_name(&m);
            let ghost keyv = key@;
            let ghost namev = name@;
            let ghost keys_before = keys.deep_view();
            let ghost names_before = assoc_views(self.dep_names@);
            keys.push(key.clone());
            self.dep_names.push((key, name));
            self.queue.push(m);
            proof {
                assert(keys.deep_view() =~~= keys_before + seq![keyv]);
                assert(assoc_views(self.dep_names@) =~~= names_before + seq![(keyv, namev)]);
                assert(all.subrange(0, k + 1) =~= all.subrange(0, k as int) + seq![
                    all[k as int],
                ]);
                assert(all.subrange(0, k + 1).map_values(|m: Mops| m.spec_display_key()) =~~=
                    all.subrange(0, k as int).map_values(|m: Mops| m.spec_display_key()) + seq![
                    all[k as int].spec_display_key(),
                ]);
                assert(all.subrange(0, k + 1).map_values(
                    |m: Mops| (m.spec_display_key(), m.spec_name()),
                ) =~~= all.subrange(0, k as int).map_values(
                    |m: Mops| (m.spec_display_key(), m.spec_name()),
                ) + seq![(all[k as int].spec_display_key(), all[k as int].spec_name())]);
                assert(self.queue@ =~= old(self).queue@ + all.subrange(0, k + 1));
                assert(assoc_views(self.dep_names@) =~~= assoc_views(old(self).dep_names@)
                    + all.subrange(0, k + 1).map_values(
                    |m: Mops| (m.spec_display_key(), m.spec_name()),
                ));
                assert(keys.deep_view() =~~= all.subrange(0, k + 1).map_values(
                    |m: Mops| m.spec_display_key(),
                ));
            }
            k = k + 1;
        }
        proof {
            assert(all.subrange(0, all.len() as int) =~= all);
            assert(self.queue@ =~= old(self).queue@ + all);
        }
        keys
    }

    /// Answers a registry request with the package's metadata: the package
    /// joins the closure under its key, and each of its dependencies joins
    /// the back of the queue, a repository requirement where the registry
    /// left the version empty and a registry requirement otherwise.
    pub fn answer_registry(&mut self, details: RegistryDetails)
        requires
            old(self).inv(),
            old(self).waiting matches Waiting::Registry { .. },
            registry_source_ok(details.storage@),
        ensures
            final(self).inv(),
            final(self).waiting is Idle,
            ({
                let w = old(self).waiting;
                w matches Waiting::Registry { name, version } ==> {
                    let reqs = details.dependencies@.map_values(
                        |d: DependencyV2| spec_requirement_of(d),
                    );
                    &&& final(self).queue@ == old(self).queue@ + reqs
                    &&& assoc_views(final(self).dep_names@) == assoc_views(old(self).dep_names@)
                        + reqs.map_values(|m: Mops| (m.spec_display_key(), m.spec_name()))
                    &&& exists|k: int|
                        {
                            &&& 0 <= k <= old(self).resolved@.len()
                            &&& final(self).resolved@ == old(self).resolved@.insert(
                                k,
                                final(self).resolved@[k],
                            )
                            &&& registry_package_ok(final(self).resolved@[k], name@, version@, details)
                        }
                }
            }),
    {
        let (name, version) = match &self.waiting {
            Waiting::Registry { name, version } => (name.clone(), version.clone()),
            _ => {
                proof {
                    assert(false);
                }
                unreached()
            },
        };
        let ghost dv = details.dependencies@;
        let reqs = requirements_of(details.dependencies);
        let keys = self.enqueue_mops(reqs);
        proof {
            assert(keys.deep_view() =~~= dv.map_values(
                |d: DependencyV2| spec_requirement_of(d).spec_display_key(),
            ));
        }
        let pkg = Package {
            name,
            version: Some(version),
            source: details.storage,
            base_dir: details.base_dir,
            repo: None,
            dependencies: keys,
        };
        let ghost pkgv = pkg;
        let ghost before = self.resolved@;
        proof {
            reveal_strlit("file://");
            reveal_strlit("github");
            assert(pkg.spec_is_registry());
            assert(pkg.wf());
        }
        closure_insert(&mut self.resolved, pkg);
        self.waiting = Waiting::Idle;
        proof {
            let k = choose|k: int|
                0 <= k <= before.len() && self.resolved@ == before.insert(k, pkgv);
            assert(self.resolved@ =~= before.subrange(0, k) + seq![pkgv] + before.skip(k));
            assert(self.resolved@[k] == pkgv);
        }
    }

    /// Answers a ref-resolution request with the resolved ref and commit; a
    /// ref or commit the URL already pinned stays as pinned. When the
    /// checkout's key is already in the closure the requirement is dropped;
    /// otherwise the machine asks for the checkout's own manifest, and the
    /// re-pinned ref supersedes this name's checkouts of the same repository
    /// at other commits, which leave the closure.
    pub fn answer_repo_resolved(&mut self, tag: String, commit: String) -> (r: Option<Ask>)
        requires
            old(self).inv(),
            old(self).waiting matches Waiting::RepoResolve { parts, .. } && (match parts.commit {
                Some(c) => c@.len() >= 8,
                None => commit@.len() >= 8,
            }),
        ensures
            final(self).inv(),
            final(self).queue == old(self).queue,
            final(self).dep_names == old(self).dep_names,
            ({
                let w = old(self).waiting;
                w matches Waiting::RepoResolve { name, parts } ==> {
                    let tag_r = if parts.tag is Some {
                        parts.tag->0@
                    } else {
                        tag@
                    };
                    let commit_r = if parts.commit is Some {
                        parts.commit->0@
                    } else {
                        commit@
                    };
                    let key = repo_key(name@, parts.repo@, commit_r);
                    if has_key(old(self).resolved@, key) {
                        r is None && final(self).waiting is Idle && final(self).resolved == old(
                            self,
                        ).resolved
                    } else {
                        &&& final(self).resolved@ == old(self).resolved@.filter(
                            |p: Package| survives_repin(p, name@, parts.repo@, commit_r),
                        )
                        &&& r matches Some(ask) && ask matches Ask::RepoManifest {
                            name: an,
                            info,
                        } && an@ == name@ && repo_info_matches(
                            info,
                            parts.repo@,
                            tag_r,
                            commit_r,
                            parts.base_dir@,
                        )
                        &&& final(self).waiting matches Waiting::RepoManifest { name: wn, info: wi }
                            && wn@ == name@ && repo_info_matches(
                            wi,
                            parts.repo@,
                            tag_r,
                            commit_r,
                            parts.base_dir@,
                        )
                    }
                }
            }),
    {
        let (name, repo, base_dir, tag_f, commit_f) = match &self.waiting {
            Waiting::RepoResolve { name, parts } => {
                let tag_f = match &parts.tag {
                    Some(t) => t.clone(),
                    None => tag,
                };
                let commit_f = match &parts.commit {
                    Some(c) => c.clone(),
                    None => commit,
                };
                (name.clone(), parts.repo.clone(), parts.base_dir.clone(), tag_f, commit_f)
            },
            _ => {
                proof {
                    assert(false);
                }
                unreached()
            },
        };
        let head = dash_join(name.as_str(), repo.as_str());
        let key = dash_join(head.as_str(), commit_f.as_str());
        if closure_has_key(&self.resolved, key.as_str()) {
            self.waiting = Waiting::Idle;
            None
        } else {
            closure_remove_superseded(
                &mut self.resolved,
                name.as_str(),
                repo.as_str(),
                commit_f.as_str(),
            );
            let info = RepoInfo { repo, tag: tag_f, commit: commit_f, base_dir };
            let info2 = dup_repo_info(&info);
            self.waiting = Waiting::RepoManifest { name: name.clone(), info: info2 };
            Some(Ask::RepoManifest { name, info })
        }
    }

    /// Answers a repository-manifest request: the checkout joins the closure
    /// under its key, its manifest's requirements (if it has a manifest)
    /// join the queue, and its version comes from that manifest or, failing
    /// that, is guessed from the ref name. Fails exactly when the fetched
    /// manifest is invalid, leaving the machine untouched.
    pub fn answer_repo_manifest(&mut self, m: Option<RawManifest>) -> (r: Result<
        (),
        ResolveError,
    >)
        requires
            old(self).inv(),
            old(self).waiting matches Waiting::RepoManifest { .. },
        ensures
            final(self).inv(),
            match r {
                Ok(()) => ({
                    let w = old(self).waiting;
                    w matches Waiting::RepoManifest { name, info } ==> {
                        let reqs = manifest_reqs(m);
                        let version_r = repo_version(m, info.tag@);
                        &&& final(self).waiting is Idle
                        &&& final(self).queue@ == old(self).queue@ + reqs
                        &&& assoc_views(final(self).dep_names@) == assoc_views(old(self).dep_names@)
                            + reqs.map_values(|q: Mops| (q.spec_display_key(), q.spec_name()))
                        &&& exists|k: int|
                            {
                                &&& 0 <= k <= old(self).resolved@.len()
                                &&& final(self).resolved@ == old(self).resolved@.insert(
                                    k,
                                    final(self).resolved@[k],
                                )
                                &&& repo_package_ok(
                                    final(self).resolved@[k],
                                    name@,
                                    version_r,
                                    info,
                                    reqs,
                                )
                            }
                    }
                }),
                Err(e) => {
                    &&& *final(self) == *old(self)
                    &&& e matches ResolveError::Manifest(_)
                    &&& m matches Some(raw) && !crate::manifest::spec_canisters_ok(raw.canisters@)
                },
            },
    {
        let (name, info) = match &self.waiting {
            Waiting::RepoManifest { name, info } => (name.clone(), dup_repo_info(info)),
            _ => {
                proof {
                    assert(false);
                }
                unreached()
            },
        };
        let (version0, deps) = match m {
            Some(raw) => {
                match crate::manifest::manifest_from_raw(raw) {
                    Ok(cfg) => (cfg.version, cfg.dependencies),
                    Err(e) => {
                        return Err(ResolveError::Manifest(e));
                    },
                }
            },
            None => (None, Vec::new()),
        };
        let version = match version0 {
            Some(v) => Some(v),
            None => info.guess_version(),
        };
        let ghost reqs = deps@;
        let keys = self.enqueue_mops(deps);
        let pkg = Package {
            name,
            version,
            source: "github".to_owned(),
            base_dir: info.base_dir.clone(),
            repo: Some(info),
            dependencies: keys,
        };
        let ghost pkgv = pkg;
        let ghost before = self.resolved@;
        proof {
            reveal_strlit("file://");
            reveal_strlit("github");
            assert(!pkg.spec_is_local());
            assert(pkg.spec_is_repo());
            assert(pkg.wf());
        }
        closure_insert(&mut self.resolved, pkg);
        self.waiting = Waiting::Idle;
        proof {
            let k = choose|k: int|
                0 <= k <= before.len() && self.resolved@ == before.insert(k, pkgv);
            assert(self.resolved@ =~= before.subrange(0, k) + seq![pkgv] + before.skip(k));
            assert(self.resolved@[k] == pkgv);
        }
        Ok(())
    }

    /// Answers a canonicalization request with the canonical path. When the
    /// local package's key is already in the closure the requirement is
    /// dropped; otherwise the machine asks for the manifest under that path.
    pub fn answer_local_canonical(&mut self, canonical: String) -> (r: Option<Ask>)
        requires
            old(self).inv(),
            old(self).waiting matches Waiting::LocalCanonical { .. },
        ensures
            final(self).inv(),
            final(self).resolved == old(self).resolved,
            final(self).queue == old(self).queue,
            final(self).dep_names == old(self).dep_names,
            ({
                let w = old(self).waiting;
                w matches Waiting::LocalCanonical { name, path } ==> {
                    let key = name@ + seq!['-'] + canonical@;
                    if has_key(old(self).resolved@, key) {
                        r is None && final(self).waiting is Idle
                    } else {
                        &&& r matches Some(ask) && ask matches Ask::LocalManifest {
                            name: an,
                            canonical: ac,
                        } && an@ == name@ && ac@ == canonical@
                        &&& final(self).waiting matches Waiting::LocalManifest {
                            name: wn,
                            canonical: wc,
                        } && wn@ == name@ && wc@ == canonical@
                    }
                }
            }),
    {
        let name = match &self.waiting {
            Waiting::LocalCanonical { name, .. } => name.clone(),
            _ => {
                proof {
                    assert(false);
                }
                unreached()
            },
        };
        let key = dash_join(name.as_str(), canonical.as_str());
        if closure_has_key(&self.resolved, key.as_str()) {
            self.waiting = Waiting::Idle;
            None
        } else {
            self.waiting = Waiting::LocalManifest {
                name: name.clone(),
                canonical: canonical.clone(),
            };
            Some(Ask::LocalManifest { name, canonical })
        }
    }

    /// Answers a local-manifest request: the local package joins the closure
    /// under its key, with the manifest's requirements (if the path has a
    /// manifest) enqueued and its version taken from that manifest. Fails
    /// exactly when the manifest is invalid, leaving the machine untouched.
    pub fn answer_local_manifest(&mut self, m: Option<RawManifest>) -> (r: Result<
        (),
        ResolveError,
    >)
        requires
            old(self).inv(),
            old(self).waiting matches Waiting::LocalManifest { .. },
        ensures
            final(self).inv(),
            match r {
                Ok(()) => ({
                    let w = old(self).waiting;
                    w matches Waiting::LocalManifest { name, canonical } ==> {
                        let reqs = manifest_reqs(m);
                        let version_r = match m {
                            Some(raw) => raw.version.deep_view(),
                            None => None,
                        };
                        &&& final(self).waiting is Idle
                        &&& final(self).queue@ == old(self).queue@ + reqs
                        &&& assoc_views(final(self).dep_names@) == assoc_views(old(self).dep_names@)
                            + reqs.map_values(|q: Mops| (q.spec_display_key(), q.spec_name()))
                        &&& exists|k: int|
                            {
                                &&& 0 <= k <= old(self).resolved@.len()
                                &&& final(self).resolved@ == old(self).resolved@.insert(
                                    k,
                                    final(self).resolved@[k],
                                )
                                &&& local_package_ok(
                                    final(self).resolved@[k],
                                    name@,
                                    version_r,
                                    canonical@,
                                    reqs,
                                )
                            }
                    }
                }),
                Err(e) => {
                    &&& *final(self) == *old(self)
                    &&& e matches ResolveError::Manifest(_)
                    &&& m matches Some(raw) && !crate::manifest::spec_canisters_ok(raw.canisters@)
                },
            },
    {
        let (name, canonical) = match &self.waiting {
            Waiting::LocalManifest { name, canonical } => (name.clone(), canonical.clone()),
            _ => {
                proof {
                    assert(false);
                }
                unreached()
            },
        };
        let (version, deps) = match m {
            Some(raw) => {
                match crate::manifest::manifest_from_raw(raw) {
                    Ok(cfg) => (cfg.version, cfg.dependencies),
                    Err(e) => {
                        return Err(ResolveError::Manifest(e));
                    },
                }
            },
            None => (None, Vec::new()),
        };
        let keys = self.enqueue_mops(deps);
        let mut source: String = "file://".to_owned();
        source.append(canonical.as_str());
        let pkg = Package {
            name,
            version,
            source,
            base_dir: "src".to_owned(),
            repo: None,
            dependencies: keys,
        };
        let ghost pkgv = pkg;
        let ghost before = self.resolved@;
        proof {
            reveal_strlit("file://");
            assert("file://"@.is_prefix_of(pkg.source@)) by {
                assert(pkg.source@.subrange(0, 7) =~= "file://"@);
            }
            assert(pkg.spec_is_local());
            assert(pkg.spec_local_path() =~= canonical@);
            assert(pkg.spec_local_path() == canonical@);
        }
        closure_insert(&mut self.resolved, pkg);
        self.waiting = Waiting::Idle;
        proof {
            let k = choose|k: int|
                0 <= k <= before.len() && self.resolved@ == before.insert(k, pkgv);
            assert(self.resolved@ =~= before.subrange(0, k) + seq![pkgv] + before.skip(k));
            assert(self.resolved@[k] == pkgv);
        }
        Ok(())
    }
}

/// One registry dependency as a requirement: a repository requirement where
/// the version is empty, a registry requirement otherwise.
pub open spec fn spec_requirement_of(d: DependencyV2) -> Mops {
    if d.version@.len() == 0 {
        Mops::Repo { name: d.name, repo: d.repo }
    } else {
        Mops::Mops { name: d.name, version: d.version }
    }
}

/// Converts a registry dependency list into requirements, in order.
pub fn requirements_of(deps: Vec<DependencyV2>) -> (r: Vec<Mops>)
    ensures
        r@ == deps@.map_values(|d: DependencyV2| spec_requirement_of(d)),
{
    let mut out: Vec<Mops> = Vec::new();
    let mut rest = deps;
    let ghost all = rest@;
    let n_total = rest.len();
    let mut k: usize = 0;
    proof {
        assert(all.len() == n_total);
        assert(out@ =~= all.subrange(0, 0).map_values(|d: DependencyV2| spec_requirement_of(d)));
    }
    while rest.len() > 0
        invariant
            all.len() <= usize::MAX,
            k + rest@.len() == all.len(),
            rest@ == all.skip(k as int),
            out@ =~= all.subrange(0, k as int).map_values(
                |d: DependencyV2| spec_requirement_of(d),
            ),
        decreases rest@.len(),
    {
        let d = rest.remove(0);
        proof {
            assert(d == all[k as int]);
            assert(rest@ =~= all.skip(k + 1));
        }
        if d.version.as_str().is_empty() {
            out.push(Mops::Repo { name: d.name, repo: d.repo });
        } else {
            out.push(Mops::Mops { name: d.name, version: d.version });
        }
        proof {
            assert(out@ =~= all.subrange(0, k + 1).map_values(
                |d: DependencyV2| spec_requirement_of(d),
            ));
        }
        k = k + 1;
    }
    proof {
        assert(all.subrange(0, all.len() as int) =~= all);
    }
    out
}

/// What a registry answer carries: the package's storage locator, its source
/// base directory, and its dependency list.
#[derive(Debug)]
pub struct RegistryDetails {
    pub storage: String,
    pub base_dir: String,
    pub dependencies: Vec<DependencyV2>,
}

/// A registry storage locator is never mistaken for another source kind.
pub open spec fn registry_source_ok(s: Seq<char>) -> bool {
    !("file://"@.is_prefix_of(s)) && s != "github"@
}

/// The package a registry answer resolves to.
pub open spec fn registry_package_ok(
    p: Package,
    name: Seq<char>,
    version: Seq<char>,
    details: RegistryDetails,
) -> bool {
    &&& p.name@ == name
    &&& p.version.deep_view() == Some(version)
    &&& p.source@ == details.storage@
    &&& p.base_dir@ == details.base_dir@
    &&& p.repo is None
    &&& p.dependencies.deep_view() == details.dependencies@.map_values(
        |d: DependencyV2| spec_requirement_of(d).spec_display_key(),
    )
}

/// The fields of a resolved checkout.
pub open spec fn repo_info_matches(
    ri: RepoInfo,
    repo: Seq<char>,
    tag: Seq<char>,
    commit: Seq<char>,
    base_dir: Seq<char>,
) -> bool {
    ri.repo@ == repo && ri.tag@ == tag && ri.commit@ == commit && ri.base_dir@ == base_dir
}

/// The requirements a fetched manifest contributes: its classified
/// dependency entries, or none when there is no manifest.
pub open spec fn manifest_reqs(m: Option<RawManifest>) -> Seq<Mops> {
    match m {
        Some(raw) => raw.deps@.map_values(|d: crate::manifest::RawDep| spec_classify(d)),
        None => Seq::empty(),
    }
}

/// The version a repository package records: its own manifest's version when
/// stated, else the version guessed from the ref name.
pub open spec fn repo_version(m: Option<RawManifest>, tag: Seq<char>) -> Option<Seq<char>> {
    let own = match m {
        Some(raw) => raw.version.deep_view(),
        None => None,
    };
    if own is Some {
        own
    } else {
        guessed_version(tag)
    }
}

/// The package a repository answer resolves to.
pub open spec fn repo_package_ok(
    p: Package,
    name: Seq<char>,
    version: Option<Seq<char>>,
    info: RepoInfo,
    reqs: Seq<Mops>,
) -> bool {
    &&& p.name@ == name
    &&& p.version.deep_view() == version
    &&& p.source@ == "github"@
    &&& p.base_dir@ == info.base_dir@
    &&& p.repo matches Some(ri) && ri.repo@ == info.repo@ && ri.tag@ == info.tag@ && ri.commit@
        == info.commit@ && ri.base_dir@ == info.base_dir@
    &&& p.dependencies.deep_view() == reqs.map_values(|q: Mops| q.spec_display_key())
}

/// The package a local answer resolves to.
pub open spec fn local_package_ok(
    p: Package,
    name: Seq<char>,
    version: Option<Seq<char>>,
    canonical: Seq<char>,
    reqs: Seq<Mops>,
) -> bool {
    &&& p.name@ == name
    &&& p.version.deep_view() == version
    &&& p.source@ == "file://"@ + canonical
    &&& p.base_dir@ == "src"@
    &&& p.repo is None
    &&& p.dependencies.deep_view() == reqs.map_values(|q: Mops| q.spec_display_key())
}

/// How a request corresponds to the queue item it was made for.
pub open spec fn ask_for(ask: Ask, w: Waiting, m: Mops, resolved: Seq<Package>) -> bool {
    match m {
        Mops::Mops { name, version } => {
            &&& !skippable(m, resolved)
            &&& ask matches Ask::Registry { name: an, version: av } && an@ == name@ && av@
                == version@
            &&& w matches Waiting::Registry { name: wn, version: wv } && wn@ == name@ && wv@
                == version@
        },
        Mops::Repo { name, repo } => {
            &&& spec_parse_github_url(repo@) matches Some(pv)
            &&& (ask matches Ask::RepoResolve { name: an, parts } && an@ == name@ && Some(parts@)
                == spec_parse_github_url(repo@))
            &&& (w matches Waiting::RepoResolve { name: wn, parts: wp } && wn@ == name@ && Some(
                wp@,
            ) == spec_parse_github_url(repo@))
        },
        Mops::Local { name, path } => {
            &&& ask matches Ask::LocalCanonical { name: an, path: ap } && an@ == name@ && ap@
                == path@
            &&& w matches Waiting::LocalCanonical { name: wn, path: wp } && wn@ == name@ && wp@
                == path@
        },
    }
}

/// The views of the display-key/name association list.
pub open spec fn assoc_views(s: Seq<(String, String)>) -> Seq<(Seq<char>, Seq<char>)> {
    s.map_values(|e: (String, String)| (e.0@, e.1@))
}

/// Copies the parsed pieces of a URL.
fn dup_parts(p: &UrlParts) -> (r: UrlParts)
    ensures
        r == *p,
{
    UrlParts {
        repo: p.repo.clone(),
        tag: crate::manifest::opt_clone(&p.tag),
        commit: crate::manifest::opt_clone(&p.commit),
        base_dir: p.base_dir.clone(),
    }
}

/// Copies a checkout description.
fn dup_repo_info(ri: &RepoInfo) -> (r: RepoInfo)
    ensures
        r == *ri,
{
    RepoInfo {
        repo: ri.repo.clone(),
        tag: ri.tag.clone(),
        commit: ri.commit.clone(),
        base_dir: ri.base_dir.clone(),
    }
}

/// The requirement's name, as an owned string.
fn mops_name(m: &Mops) -> (r: String)
    ensures
        r@ == m.spec_name(),
{
    match m {
        Mops::Mops { name, .. } => name.clone(),
        Mops::Repo { name, .. } => name.clone(),
        Mops::Local { name, .. } => name.clone(),
    }
}

/// Index of the first package named `name` at or after position `i`.
pub open spec fn find_name_from(acc: Seq<Package>, name: Seq<char>, i: int) -> Option<int>
    decreases acc.len() - i,
{
    if i < 0 || i >= acc.len() {
        None
    } else if acc[i].name@ == name {
        Some(i)
    } else {
        find_name_from(acc, name, i + 1)
    }
}

/// Index of the first package named `name`.
pub open spec fn find_name(acc: Seq<Package>, name: Seq<char>) -> Option<int> {
    find_name_from(acc, name, 0)
}

/// The ordered position a package named `name` belongs at, scanning from `i`.
pub open spec fn name_pos_from(acc: Seq<Package>, name: Seq<char>, i: int) -> int
    decreases acc.len() - i,
{
    if i < 0 || i >= acc.len() {
        i
    } else if lex_lt(name, acc[i].name@) {
        i
    } else {
        name_pos_from(acc, name, i + 1)
    }
}

/// Both packages carry versions that parse as semantic versions.
pub open spec fn comparable(e: Package, p: Package) -> bool {
    &&& e.version is Some && crate::version::semver_of(e.version->0@) is Some
    &&& p.version is Some && crate::version::semver_of(p.version->0@) is Some
}

/// The later package carries the strictly higher version.
pub open spec fn prefers_new(e: Package, p: Package) -> bool
    recommends
        comparable(e, p),
{
    crate::version::semver_tuple_lt(
        crate::version::semver_of(e.version->0@)->0,
        crate::version::semver_of(p.version->0@)->0,
    )
}

/// How one package enters the per-name set: a fresh name is inserted at its
/// ordered position; a name already present keeps the higher of the two
/// versions, and is a conflict when either version fails to parse.
pub open spec fn resolve_step(acc: Seq<Package>, p: Package) -> Result<
    Seq<Package>,
    (Package, Package),
> {
    match find_name(acc, p.name@) {
        Some(i) => {
            if !comparable(acc[i], p) {
                Err((acc[i], p))
            } else if prefers_new(acc[i], p) {
                Ok(acc.update(i, p))
            } else {
                Ok(acc)
            }
        },
        None => Ok(acc.insert(name_pos_from(acc, p.name@, 0), p)),
    }
}

/// Conflict resolution over a whole closure, in order: the result maps each
/// name to the single package that wins it, ordered by name; an incomparable
/// pair of same-name packages is reported verbatim and nothing is chosen.
pub open spec fn spec_resolve(pkgs: Seq<Package>) -> Result<Seq<Package>, (Package, Package)>
    decreases pkgs.len(),
{
    if pkgs.len() == 0 {
        Ok(Seq::empty())
    } else {
        match spec_resolve(pkgs.drop_last()) {
            Ok(acc) => resolve_step(acc, pkgs.last()),
            Err(e) => Err(e),
        }
    }
}

/// Index of the first package named `name`.
fn find_name_exec(acc: &Vec<Package>, name: &str) -> (r: Option<usize>)
    ensures
        match r {
            Some(i) => find_name(acc@, name@) == Some(i as int) && i < acc@.len()
                && acc@[i as int].name@ == name@,
            None => find_name(acc@, name@) is None,
        },
{
    let mut i: usize = 0;
    loop
        invariant
            i <= acc@.len(),
            find_name(acc@, name@) == find_name_from(acc@, name@, i as int),
        decreases acc@.len() - i,
    {
        if i == acc.len() {
            return None;
        }
        if str_eq(acc[i].name.as_str(), name) {
            return Some(i);
        }
        i = i + 1;
    }
}

/// The ordered position a package named `name` belongs at.
fn name_pos_exec(acc: &Vec<Package>, name: &str) -> (r: usize)
    ensures
        r as int == name_pos_from(acc@, name@, 0),
        r <= acc@.len(),
{
    let mut i: usize = 0;
    loop
        invariant
            i <= acc@.len(),
            name_pos_from(acc@, name@, 0) == name_pos_from(acc@, name@, i as int),
        decreases acc@.len() - i,
    {
        if i == acc.len() {
            return i;
        }
        if str_lt(name, acc[i].name.as_str()) {
            return i;
        }
        i = i + 1;
    }
}

/// Settles version conflicts: groups the closure's packages by name, in
/// order, keeps the strictly higher version of any two sharing a name, and
/// fails — reporting both entries — as soon as two sharing a name cannot be
/// compared. The result carries one package per name, ordered by name.
#[verifier::loop_isolation(false)]
pub fn resolve_versions(pkgs: Vec<Package>) -> (r: Result<Vec<Package>, ResolveError>)
    requires
        all_wf(pkgs@),
    ensures
        match r {
            Ok(out) => spec_resolve(pkgs@) == Ok::<Seq<Package>, (Package, Package)>(out@)
                && all_wf(out@),
            Err(e) => e matches ResolveError::VersionConflict(a, b) && spec_resolve(pkgs@)
                == Err::<Seq<Package>, (Package, Package)>((a, b)),
        },
{
    let ghost all = pkgs@;
    let mut acc: Vec<Package> = Vec::new();
    let mut rest = pkgs;
    let n_total = rest.len();
    let mut k: usize = 0;
    proof {
        assert(rest@ == all);
        assert(all.len() == n_total);
        assert(all.subrange(0, 0) =~= Seq::<Package>::empty());
    }
    while rest.len() > 0
        invariant
            all.len() <= usize::MAX,
            all_wf(all),
            k + rest@.len() == all.len(),
            rest@ == all.skip(k as int),
            all_wf(acc@),
            spec_resolve(all.subrange(0, k as int)) == Ok::<Seq<Package>, (Package, Package)>(
                acc@,
            ),
        decreases rest@.len(),
    {
        let p = rest.remove(0);
        proof {
            assert(p == all[k as int]);
            assert(rest@ =~= all.skip(k + 1));
            assert(all.subrange(0, k + 1).drop_last() =~= all.subrange(0, k as int));
            assert(all.subrange(0, k + 1).last() == p);
        }
        let ghost acc0 = acc@;
        match find_name_exec(&acc, p.name.as_str()) {
            Some(i) => {
                let e_parsed = match &acc[i].version {
                    Some(v) => crate::version::parse_version(v.as_str()),
                    None => None,
                };
                let p_parsed = match &p.version {
                    Some(v) => crate::version::parse_version(v.as_str()),
                    None => None,
                };
                match (e_parsed, p_parsed) {
                    (Some(ev), Some(pv)) => {
                        proof {
                            assert(comparable(acc0[i as int], p));
                        }
                        if crate::version::version_lt(&ev, &pv) {
                            proof {
                                assert(prefers_new(acc0[i as int], p));
                            }
                            let _loser = acc.remove(i);
                            acc.insert(i, p);
                            proof {
                                assert(acc@ =~= acc0.update(i as int, p));
                            }
                        } else {
                            proof {
                                assert(!prefers_new(acc0[i as int], p));
                            }
                        }
                    },
                    _ => {
                        let e = acc.remove(i);
                        proof {
                            assert(!comparable(e, p));
                            assert(spec_resolve(all.subrange(0, k + 1)) == Err::<
                                Seq<Package>,
                                (Package, Package),
                            >((e, p)));
                            lemma_resolve_err_persists(all, k + 1, (e, p));
                            assert(spec_resolve(all) == Err::<Seq<Package>, (Package, Package)>(
                                (e, p),
                            ));
                        }
                        return Err(ResolveError::VersionConflict(e, p));
                    },
                }
            },
            None => {
                let pos = name_pos_exec(&acc, p.name.as_str());
                acc.insert(pos, p);
            },
        }
        k = k + 1;
    }
    proof {
        assert(all.subrange(0, all.len() as int) =~= all);
    }
    Ok(acc)
}

/// Once conflict resolution fails on a prefix, it fails on the whole
/// closure, with the same pair.
proof fn lemma_resolve_err_persists(all: Seq<Package>, k: int, e: (Package, Package))
    requires
        0 <= k <= all.len(),
        spec_resolve(all.subrange(0, k)) == Err::<Seq<Package>, (Package, Package)>(e),
    ensures
        spec_resolve(all) == Err::<Seq<Package>, (Package, Package)>(e),
    decreases all.len() - k,
{
    if k == all.len() {
        assert(all.subrange(0, k) =~= all);
    } else {
        assert(all.subrange(0, k + 1).drop_last() =~= all.subrange(0, k));
        lemma_resolve_err_persists(all, k + 1, e);
    }
}

/// The name a display key was recorded under, scanning from `i`.
pub open spec fn lookup_from(
    names: Seq<(Seq<char>, Seq<char>)>,
    k: Seq<char>,
    i: int,
) -> Option<Seq<char>>
    decreases names.len() - i,
{
    if i < 0 || i >= names.len() {
        None
    } else if names[i].0 == k {
        Some(names[i].1)
    } else {
        lookup_from(names, k, i + 1)
    }
}

/// What a recorded dependency key is replaced by: the deduplication key of
/// the retained package carrying the name the dependency was requested
/// under; a key recorded for no requirement of this pass (one written by an
/// earlier pass) stays as it is.
pub open spec fn rewritten_key(
    base: Seq<Package>,
    names: Seq<(Seq<char>, Seq<char>)>,
    dep: Seq<char>,
) -> Seq<char> {
    match lookup_from(names, dep, 0) {
        Some(n) => match find_name(base, n) {
            Some(i) => base[i].spec_key(),
            None => dep,
        },
        None => dep,
    }
}

/// `b` is `a` with each dependency key rewritten against `base`.
pub open spec fn deps_rewritten(
    base: Seq<Package>,
    names: Seq<(Seq<char>, Seq<char>)>,
    a: Package,
    b: Package,
) -> bool {
    &&& b.name == a.name
    &&& b.version == a.version
    &&& b.source == a.source
    &&& b.base_dir == a.base_dir
    &&& b.repo == a.repo
    &&& b.dependencies.deep_view() == a.dependencies.deep_view().map_values(
        |d: Seq<char>| rewritten_key(base, names, d),
    )
}

/// The name a display key was recorded under.
fn lookup_name_exec(names: &Vec<(String, String)>, k: &str) -> (r: Option<String>)
    ensures
        match r {
            Some(n) => lookup_from(assoc_views(names@), k@, 0) == Some(n@),
            None => lookup_from(assoc_views(names@), k@, 0) is None,
        },
{
    let mut i: usize = 0;
    loop
        invariant
            i <= names@.len(),
            lookup_from(assoc_views(names@), k@, 0) == lookup_from(
                assoc_views(names@),
                k@,
                i as int,
            ),
        decreases names@.len() - i,
    {
        if i == names.len() {
            return None;
        }
        if str_eq(names[i].0.as_str(), k) {
            return Some(names[i].1.clone());
        }
        i = i + 1;
    }
}

/// Rewrites every package's dependency keys against the retained closure:
/// each key recorded during this pass becomes the deduplication key of the
/// retained package of the name it was requested under.
fn rewrite_dependency_keys(pkgs: Vec<Package>, names: &Vec<(String, String)>) -> (r: Vec<
    Package,
>)
    requires
        all_wf(pkgs@),
    ensures
        r@.len() == pkgs@.len(),
        forall|i: int|
            0 <= i < pkgs@.len() ==> deps_rewritten(
                pkgs@,
                assoc_views(names@),
                pkgs@[i],
                #[trigger] r@[i],
            ),
{
    let ghost base = pkgs@;
    let ghost nv = assoc_views(names@);
    // First compute each package's rewritten dependency list, reading the
    // whole closure; then rebuild the packages around the new lists.
    let mut newdeps: Vec<Vec<String>> = Vec::new();
    let mut i: usize = 0;
    while i < pkgs.len()
        invariant
            all_wf(pkgs@),
            base == pkgs@,
            nv == assoc_views(names@),
            i <= pkgs@.len(),
            newdeps@.len() == i,
            forall|a: int|
                0 <= a < i ==> (#[trigger] newdeps@[a]).deep_view()
                    == pkgs@[a].dependencies.deep_view().map_values(
                    |d: Seq<char>| rewritten_key(base, nv, d),
                ),
        decreases pkgs@.len() - i,
    {
        let deps = &pkgs[i].dependencies;
        let mut nd: Vec<String> = Vec::new();
        let mut j: usize = 0;
        while j < deps.len()
            invariant
                all_wf(pkgs@),
                base == pkgs@,
                nv == assoc_views(names@),
                i < pkgs@.len(),
                deps == &pkgs[i as int].dependencies,
                j <= deps@.len(),
                nd.deep_view() =~~= deps.deep_view().subrange(0, j as int).map_values(
                    |d: Seq<char>| rewritten_key(base, nv, d),
                ),
            decreases deps@.len() - j,
        {
            let dep = &deps[j];
            proof {
                assert(deps.deep_view()[j as int] == deps@[j as int]@);
            }
            let replaced: String = match lookup_name_exec(names, dep.as_str()) {
                Some(n) => match find_name_exec(&pkgs, n.as_str()) {
                    Some(w) => pkgs[w].get_key(),
                    None => dep.clone(),
                },
                None => dep.clone(),
            };
            proof {
                assert(replaced@ == rewritten_key(base, nv, deps.deep_view()[j as int]));
            }
            let ghost nd_before = nd.deep_view();
            nd.push(replaced);
            proof {
                assert(nd.deep_view() =~~= nd_before + seq![replaced@]);
                assert(deps.deep_view().subrange(0, j + 1) =~= deps.deep_view().subrange(
                    0,
                    j as int,
                ) + seq![deps.deep_view()[j as int]]);
                assert(nd.deep_view() =~~= deps.deep_view().subrange(0, j + 1).map_values(
                    |d: Seq<char>| rewritten_key(base, nv, d),
                ));
            }
            j = j + 1;
        }
        proof {
            assert(deps.deep_view().subrange(0, deps.deep_view().len() as int)
                =~= deps.deep_view());
        }
        newdeps.push(nd);
        i = i + 1;
    }
    let mut out: Vec<Package> = Vec::new();
    let mut rest = pkgs;
    let mut nrest = newdeps;
    let mut k: usize = 0;
    while rest.len() > 0
        invariant
            base.len() <= usize::MAX,
            k + rest@.len() == base.len(),
            rest@ == base.skip(k as int),
            nrest@.len() == rest@.len(),
            forall|a: int|
                0 <= a < nrest@.len() ==> (#[trigger] nrest@[a]).deep_view() == base[k
                    + a].dependencies.deep_view().map_values(
                    |d: Seq<char>| rewritten_key(base, nv, d),
                ),
            out@.len() == k,
            forall|a: int|
                0 <= a < k ==> deps_rewritten(base, nv, base[a], #[trigger] out@[a]),
        decreases rest@.len(),
    {
        let p = rest.remove(0);
        let nd = nrest.remove(0);
        proof {
            assert(p == base[k as int]);
            assert(rest@ =~= base.skip(k + 1));
        }
        out.push(
            Package {
                name: p.name,
                version: p.version,
                source: p.source,
                base_dir: p.base_dir,
                repo: p.repo,
                dependencies: nd,
            },
        );
        k = k + 1;
    }
    out
}

impl Resolver {
    /// Ends the pass: conflicts are settled in key order, and the retained
    /// packages' dependency keys are rewritten to the deduplication keys of
    /// the retained packages they refer to. The result is the lockfile's
    /// package list, one package per name, ordered by name.
    pub fn finalize(self) -> (r: Result<Vec<Package>, ResolveError>)
        requires
            self.inv(),
            self.waiting is Idle,
            self.queue@.len() == 0,
        ensures
            match r {
                Ok(out) => exists|mid: Seq<Package>|
                    {
                        &&& spec_resolve(self.resolved@) == Ok::<
                            Seq<Package>,
                            (Package, Package),
                        >(mid)
                        &&& out@.len() == mid.len()
                        &&& forall|i: int|
                            0 <= i < mid.len() ==> deps_rewritten(
                                mid,
                                assoc_views(self.dep_names@),
                                mid[i],
                                #[trigger] out@[i],
                            )
                    },
                Err(e) => e matches ResolveError::VersionConflict(a, b) && spec_resolve(
                    self.resolved@,
                ) == Err::<Seq<Package>, (Package, Package)>((a, b)),
            },
    {
        let mid = match resolve_versions(self.resolved) {
            Ok(mid) => mid,
            Err(e) => {
                return Err(e);
            },
        };
        let out = rewrite_dependency_keys(mid, &self.dep_names);
        Ok(out)
    }
}

/// Deduplication-key stability: in every state the machine reaches, a
/// deduplication key is owned by at most one resolved package, so the same
/// reference reached along two paths resolves to exactly one entry.
pub proof fn lemma_key_owned_once(r: Resolver, i: int, j: int)
    requires
        r.inv(),
        0 <= i < j < r.resolved@.len(),
    ensures
        r.resolved@[i].spec_key() != r.resolved@[j].spec_key(),
{
}

/// No two packages share a name.
pub open spec fn unique_names(s: Seq<Package>) -> bool {
    forall|i: int, j: int|
        0 <= i < j < s.len() ==> (#[trigger] s[i]).name@ != (#[trigger] s[j]).name@
}

/// The packages are in strictly ascending name order.
pub open spec fn names_strictly_sorted(s: Seq<Package>) -> bool {
    forall|i: int, j: int|
        0 <= i < j < s.len() ==> lex_lt((#[trigger] s[i]).name@, (#[trigger] s[j]).name@)
}

proof fn find_name_from_ensures(acc: Seq<Package>, name: Seq<char>, i: int)
    requires
        0 <= i <= acc.len(),
    ensures
        match find_name_from(acc, name, i) {
            Some(k) => i <= k < acc.len() && acc[k].name@ == name,
            None => forall|j: int| i <= j < acc.len() ==> (#[trigger] acc[j]).name@ != name,
        },
    decreases acc.len() - i,
{
    if i < acc.len() && acc[i].name@ != name {
        find_name_from_ensures(acc, name, i + 1);
    }
}

proof fn name_pos_from_ensures(acc: Seq<Package>, name: Seq<char>, i: int)
    requires
        0 <= i <= acc.len(),
    ensures
        ({
            let r = name_pos_from(acc, name, i);
            &&& i <= r <= acc.len()
            &&& forall|j: int| i <= j < r ==> !lex_lt(name, (#[trigger] acc[j]).name@)
            &&& r < acc.len() ==> lex_lt(name, acc[r as int].name@)
        }),
    decreases acc.len() - i,
{
    if i < acc.len() && !lex_lt(name, acc[i].name@) {
        name_pos_from_ensures(acc, name, i + 1);
    }
}

/// Conflict resolution of a closure whose packages already carry distinct
/// names — a warm lockfile — keeps exactly those packages and regroups them
/// into ascending name order: a pass over a settled closure loses nothing,
/// picks nothing, and orders its output deterministically.
pub proof fn lemma_resolve_regroups(pkgs: Seq<Package>)
    requires
        unique_names(pkgs),
    ensures
        spec_resolve(pkgs) matches Ok(out) && {
            &&& out.len() == pkgs.len()
            &&& (forall|x: Package| out.contains(x) <==> pkgs.contains(x))
            &&& names_strictly_sorted(out)
        },
    decreases pkgs.len(),
{
    if pkgs.len() == 0 {
        let out = spec_resolve(pkgs)->Ok_0;
        assert(forall|x: Package| !out.contains(x) && !pkgs.contains(x));
    } else {
        let d = pkgs.drop_last();
        let p = pkgs.last();
        assert(unique_names(d)) by {
            assert(forall|i: int| 0 <= i < d.len() ==> #[trigger] d[i] == pkgs[i]);
        }
        lemma_resolve_regroups(d);
        let out0 = spec_resolve(d)->Ok_0;
        find_name_from_ensures(out0, p.name@, 0);
        if find_name_from(out0, p.name@, 0) is Some {
            let k = find_name_from(out0, p.name@, 0)->0;
            assert(out0.contains(out0[k]));
            assert(d.contains(out0[k]));
            let w = choose|w: int| 0 <= w < d.len() && d[w] == out0[k];
            assert(pkgs[w].name@ == p.name@ && pkgs[pkgs.len() - 1] == p);
            assert(false);
        }
        name_pos_from_ensures(out0, p.name@, 0);
        let pos = name_pos_from(out0, p.name@, 0);
        let out = out0.insert(pos, p);
        out0.insert_ensures(pos, p);
        assert(spec_resolve(pkgs) == Ok::<Seq<Package>, (Package, Package)>(out));
        assert forall|x: Package| out.contains(x) implies pkgs.contains(x) by {
            let a = choose|a: int| 0 <= a < out.len() && out[a] == x;
            if a == pos {
                assert(pkgs[pkgs.len() - 1] == x);
            } else {
                let aa = if a < pos {
                    a
                } else {
                    a - 1
                };
                assert(out0[aa] == x);
                assert(out0.contains(x));
                assert(d.contains(x));
                let w = choose|w: int| 0 <= w < d.len() && d[w] == x;
                assert(pkgs[w] == x);
            }
        }
        assert forall|x: Package| pkgs.contains(x) implies out.contains(x) by {
            let w = choose|w: int| 0 <= w < pkgs.len() && pkgs[w] == x;
            if w == pkgs.len() - 1 {
                assert(out[pos] == x);
            } else {
                assert(d[w] == x);
                assert(d.contains(x));
                assert(out0.contains(x));
                let a = choose|a: int| 0 <= a < out0.len() && out0[a] == x;
                if a < pos {
                    assert(out[a] == x);
                } else {
                    assert(out[a + 1] == x);
                }
            }
        }
        assert forall|a: int, b: int| 0 <= a < b < out.len() implies lex_lt(
            (#[trigger] out[a]).name@,
            (#[trigger] out[b]).name@,
        ) by {
            if a == pos && b - 1 > pos {
                lex_lt_transitive(p.name@, out0[pos].name@, out0[b - 1].name@);
            } else if b == pos {
                lex_lt_connected(p.name@, out0[a].name@);
            }
        }
    }
}

/// With nothing recorded in the display-key table — as on a pass that found
/// every requirement already resolved — the dependency-key rewrite leaves
/// every key as it stands in the lockfile.
pub proof fn lemma_rewrite_identity(base: Seq<Package>, dep: Seq<char>)
    ensures
        rewritten_key(base, Seq::empty(), dep) == dep,
{
}

/// Of two packages sharing a name whose versions both parse, conflict
/// resolution retains exactly the strictly higher one, whichever order the
/// two were resolved in.
pub proof fn lemma_conflict_prefers_higher(a: Package, b: Package)
    requires
        a.name@ == b.name@,
        comparable(a, b),
        prefers_new(a, b),
    ensures
        spec_resolve(seq![a, b]) == Ok::<Seq<Package>, (Package, Package)>(seq![b]),
        spec_resolve(seq![b, a]) == Ok::<Seq<Package>, (Package, Package)>(seq![b]),
{
    reveal_with_fuel(spec_resolve, 4);
    crate::version::semver_tuple_lt_asymmetric(
        crate::version::semver_of(a.version->0@)->0,
        crate::version::semver_of(b.version->0@)->0,
    );
    assert(seq![a, b].drop_last() =~= seq![a]);
    assert(seq![b, a].drop_last() =~= seq![b]);
    assert(seq![a].drop_last() =~= Seq::<Package>::empty());
    assert(seq![b].drop_last() =~= Seq::<Package>::empty());
    assert(spec_resolve(seq![a]) == resolve_step(Seq::empty(), a));
    assert(Seq::<Package>::empty().insert(0, a) =~= seq![a]);
    assert(Seq::<Package>::empty().insert(0, b) =~= seq![b]);
    assert(spec_resolve(seq![a]) == Ok::<Seq<Package>, (Package, Package)>(seq![a]));
    assert(spec_resolve(seq![b]) == Ok::<Seq<Package>, (Package, Package)>(seq![b]));
    assert(find_name(seq![a], b.name@) == Some(0int));
    assert(seq![a].update(0, b) =~= seq![b]);
    assert(resolve_step(seq![a], b) == Ok::<Seq<Package>, (Package, Package)>(seq![b]));
    assert(find_name(seq![b], a.name@) == Some(0int));
    assert(!prefers_new(b, a));
    assert(resolve_step(seq![b], a) == Ok::<Seq<Package>, (Package, Package)>(seq![b]));
}

} // verus!
