//! Manifest contents, after the document syntax has been read off by the
//! boundary layer: dependency entries are classified into requirement kinds
//! and canister declarations are validated.

use vstd::prelude::*;

use crate::lock::{CanisterInfo, Mops};

verus! {

/// One entry of a manifest's dependency table: the package name, the text it
/// maps to, and whether that text names an existing filesystem path (the one
/// fact only the filesystem can supply).
#[derive(Debug, Clone)]
pub struct RawDep {
    pub name: String,
    pub value: String,
    pub value_is_path: bool,
}

/// A manifest as the boundary layer hands it over: its own version, its
/// dependency entries, and its canister declarations.
#[derive(Debug)]
pub struct RawManifest {
    pub version: Option<String>,
    pub deps: Vec<RawDep>,
    pub canisters: Vec<CanisterInfo>,
}

/// How a dependency entry is classified: a repository URL by its prefix,
/// else a local path when the text names one, else a registry version.
pub open spec fn spec_classify(d: RawDep) -> Mops {
    if "https://github.com"@.is_prefix_of(d.value@) {
        Mops::Repo { name: d.name, repo: d.value }
    } else if d.value_is_path {
        Mops::Local { name: d.name, path: d.value }
    } else {
        Mops::Mops { name: d.name, version: d.value }
    }
}

/// Classifies one dependency entry.
pub fn classify_dep(d: RawDep) -> (r: Mops)
    ensures
        r == spec_classify(d),
{
    if crate::strutil::starts_with(d.value.as_str(), "https://github.com") {
        Mops::Repo { name: d.name, repo: d.value }
    } else if d.value_is_path {
        Mops::Local { name: d.name, path: d.value }
    } else {
        Mops::Mops { name: d.name, version: d.value }
    }
}

/// The rule a canister declaration violates, if any: it must be id-backed
/// (no output path), or type-only with both an interface file and an output
/// path.
#[derive(Debug, Clone, Copy, PartialEq, Eq, Structural)]
pub enum CanisterRule {
    NeedIdOrCandid,
    NeedOutput,
    OutputForbidden,
}

/// Which rule, if any, the declaration breaks.
pub open spec fn spec_canister_violation(c: CanisterInfo) -> Option<CanisterRule> {
    if c.canister_id is None {
        if c.candid is None {
            Some(CanisterRule::NeedIdOrCandid)
        } else if c.output is None {
            Some(CanisterRule::NeedOutput)
        } else {
            None
        }
    } else if c.output is Some {
        Some(CanisterRule::OutputForbidden)
    } else {
        None
    }
}

/// Checks one canister declaration.
pub fn canister_violation(c: &CanisterInfo) -> (r: Option<CanisterRule>)
    ensures
        r == spec_canister_violation(*c),
{
    if c.canister_id.is_none() {
        if c.candid.is_none() {
            Some(CanisterRule::NeedIdOrCandid)
        } else if c.output.is_none() {
            Some(CanisterRule::NeedOutput)
        } else {
            None
        }
    } else if c.output.is_some() {
        Some(CanisterRule::OutputForbidden)
    } else {
        None
    }
}

/// Why a manifest is rejected: the first canister declaration that breaks a
/// rule, together with that rule.
#[derive(Debug)]
pub enum ManifestError {
    BadCanister { canister: CanisterInfo, rule: CanisterRule },
}

/// A manifest with entries classified: its own version, its requirements in
/// table order, and its validated canister declarations.
#[derive(Debug)]
pub struct MopsConfig {
    pub version: Option<String>,
    pub dependencies: Vec<Mops>,
    pub canisters: Vec<CanisterInfo>,
}

/// Every canister declaration of the manifest is well-formed.
pub open spec fn spec_canisters_ok(cs: Seq<CanisterInfo>) -> bool {
    forall|i: int| 0 <= i < cs.len() ==> spec_canister_violation(#[trigger] cs[i]) is None
}

/// Classifies a manifest's dependency entries and validates its canister
/// declarations. Fails exactly when some canister declaration breaks a rule,
/// naming the first offender and its rule.
pub fn manifest_from_raw(raw: RawManifest) -> (r: Result<MopsConfig, ManifestError>)
    ensures
        match r {
            Ok(cfg) => {
                &&& spec_canisters_ok(raw.canisters@)
                &&& cfg.version == raw.version
                &&& cfg.dependencies@ == raw.deps@.map_values(|d: RawDep| spec_classify(d))
                &&& cfg.canisters == raw.canisters
            },
            Err(e) => {
                &&& !spec_canisters_ok(raw.canisters@)
                &&& e matches ManifestError::BadCanister { canister, rule } && exists|i: int|
                    {
                        &&& 0 <= i < raw.canisters@.len()
                        &&& spec_canister_violation(#[trigger] raw.canisters@[i]) == Some(rule)
                        &&& canister == raw.canisters@[i]
                        &&& forall|j: int| 0 <= j < i ==> spec_canister_violation(
                            #[trigger] raw.canisters@[j],
                        ) is None
                    }
            },
        },
{
    let mut i: usize = 0;
    while i < raw.canisters.len()
        invariant
            i <= raw.canisters@.len(),
            forall|j: int| 0 <= j < i ==> spec_canister_violation(
                #[trigger] raw.canisters@[j],
            ) is None,
        decreases raw.canisters@.len() - i,
    {
        let c = &raw.canisters[i];
        match canister_violation(c) {
            Some(rule) => {
                let canister = CanisterInfo {
                    canister_id: opt_clone(&c.canister_id),
                    name: opt_clone(&c.name),
                    candid: opt_clone(&c.candid),
                    output: opt_clone(&c.output),
                };
                proof {
                    assert(canister == raw.canisters@[i as int]);
                }
                return Err(ManifestError::BadCanister { canister, rule });
            },
            None => {},
        }
        i = i + 1;
    }
    let mut dependencies: Vec<Mops> = Vec::new();
    let mut deps = raw.deps;
    let ghost all_deps = deps@;
    let n_total = deps.len();
    proof {
        assert(all_deps.len() == n_total);
        assert(all_deps.subrange(0, 0).map_values(|d: RawDep| spec_classify(d)) =~= Seq::<
            Mops,
        >::empty());
    }
    let mut k: usize = 0;
    while deps.len() > 0
        invariant
            all_deps.len() <= usize::MAX,
            k + deps@.len() == all_deps.len(),
            deps@ == all_deps.skip(k as int),
            dependencies@ =~= all_deps.subrange(0, k as int).map_values(
                |d: RawDep| spec_classify(d),
            ),
        decreases deps@.len(),
    {
        let d = deps.remove(0);
        proof {
            assert(d == all_deps[k as int]);
        }
        dependencies.push(classify_dep(d));
        proof {
            assert(deps@ =~= all_deps.skip(k + 1));
            assert(dependencies@ =~= all_deps.subrange(0, k + 1).map_values(
                |d: RawDep| spec_classify(d),
            ));
        }
        k = k + 1;
    }
    proof {
        assert(all_deps.subrange(0, all_deps.len() as int) =~= all_deps);
    }
    Ok(MopsConfig { version: raw.version, dependencies, canisters: raw.canisters })
}

/// Copies an optional string.
pub fn opt_clone(a: &Option<String>) -> (r: Option<String>)
    ensures
        r == *a,
{
    match a {
        Some(s) => Some(s.clone()),
        None => None,
    }
}

} // verus!
