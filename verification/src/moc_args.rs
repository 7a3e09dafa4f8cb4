//! Assembling the compiler's command line from the lockfile: one
//! `--package` triple per resolved package, the interface directory, and one
//! `--actor-alias` triple per named id-backed canister.

use vstd::prelude::*;
use vstd::string::*;

use crate::lock::{Canister, Package};
use crate::strutil::join_with;

verus! {

/// What a build invocation was asked to do.
#[derive(Debug)]
pub struct BuildArg {
    /// The entry file, when given.
    pub main: Option<String>,
    /// The build name, when given.
    pub name: Option<String>,
    /// Reuse the lockfile as it stands: no scan, no resolution, no fetch.
    pub lock: bool,
    /// Show source lines in compiler errors.
    pub print_source_on_error: bool,
    /// Arguments handed through to the compiler in place of the defaults.
    pub extra_args: Vec<String>,
}

/// The `--package` arguments a package list contributes: for each package,
/// the flag, its name, and its source directory under the cache.
pub open spec fn package_arg_views(pkgs: Seq<Package>, cache_dir: Seq<char>) -> Seq<Seq<char>>
    decreases pkgs.len(),
{
    if pkgs.len() == 0 {
        Seq::empty()
    } else {
        let p = pkgs.last();
        package_arg_views(pkgs.drop_last(), cache_dir) + seq![
            "--package"@,
            p.name@,
            cache_dir + seq!['/'] + p.spec_path() + seq!['/'] + p.base_dir@,
        ]
    }
}

/// Builds the `--package` arguments, in lockfile order.
#[verifier::loop_isolation(false)]
pub fn moc_package_args(pkgs: &Vec<Package>, cache_dir: &str) -> (r: Vec<String>)
    requires
        crate::resolver::all_wf(pkgs@),
    ensures
        r.deep_view() == package_arg_views(pkgs@, cache_dir@),
{
    let mut out: Vec<String> = Vec::new();
    let mut i: usize = 0;
    proof {
        assert(pkgs@.subrange(0, 0) =~= Seq::<Package>::empty());
        assert(out.deep_view() =~~= package_arg_views(pkgs@.subrange(0, 0), cache_dir@));
    }
    while i < pkgs.len()
        invariant
            i <= pkgs@.len(),
            out.deep_view() == package_arg_views(pkgs@.subrange(0, i as int), cache_dir@),
        decreases pkgs@.len() - i,
    {
        let p = &pkgs[i];
        proof {
            assert(pkgs@.subrange(0, i + 1).drop_last() =~= pkgs@.subrange(0, i as int));
            assert(pkgs@.subrange(0, i + 1).last() == pkgs@[i as int]);
        }
        let ghost before = out.deep_view();
        let path = p.get_path();
        let under_cache = join_with(cache_dir, '/', path.as_str());
        let dir = join_with(under_cache.as_str(), '/', p.base_dir.as_str());
        out.push("--package".to_owned());
        out.push(p.name.clone());
        out.push(dir);
        proof {
            assert(out.deep_view() =~~= before + seq![
                "--package"@,
                pkgs@[i as int].name@,
                cache_dir@ + seq!['/'] + pkgs@[i as int].spec_path() + seq!['/']
                    + pkgs@[i as int].base_dir@,
            ]);
        }
        i = i + 1;
    }
    proof {
        assert(pkgs@.subrange(0, pkgs@.len() as int) =~= pkgs@);
    }
    out
}

/// The `--actor-alias` arguments the canister records contribute: for each
/// id-backed record with a name, the flag, the name, and the id.
pub open spec fn alias_arg_views(cans: Seq<Canister>) -> Seq<Seq<char>>
    decreases cans.len(),
{
    if cans.len() == 0 {
        Seq::empty()
    } else {
        let c = cans.last();
        alias_arg_views(cans.drop_last()) + (if c.canister_id is Some && c.name is Some {
            seq!["--actor-alias"@, c.name->0@, c.canister_id->0@]
        } else {
            Seq::empty()
        })
    }
}

/// Builds the canister arguments: the interface directory when any canister
/// is recorded, then one alias triple per named id-backed record, in order.
#[verifier::loop_isolation(false)]
pub fn moc_actor_args(cans: &Vec<Canister>, idl_path: &str) -> (r: Vec<String>)
    ensures
        r.deep_view() == (if cans@.len() > 0 {
            seq!["--actor-idl"@, idl_path@]
        } else {
            Seq::<Seq<char>>::empty()
        }) + alias_arg_views(cans@),
{
    let mut out: Vec<String> = Vec::new();
    let ghost head: Seq<Seq<char>> = if cans@.len() > 0 {
        seq!["--actor-idl"@, idl_path@]
    } else {
        Seq::<Seq<char>>::empty()
    };
    if cans.len() > 0 {
        out.push("--actor-idl".to_owned());
        out.push(idl_path.to_owned());
    }
    let mut i: usize = 0;
    proof {
        assert(cans@.subrange(0, 0) =~= Seq::<Canister>::empty());
        assert(out.deep_view() =~~= head + alias_arg_views(cans@.subrange(0, 0)));
    }
    while i < cans.len()
        invariant
            i <= cans@.len(),
            out.deep_view() == head + alias_arg_views(cans@.subrange(0, i as int)),
        decreases cans@.len() - i,
    {
        let c = &cans[i];
        proof {
            assert(cans@.subrange(0, i + 1).drop_last() =~= cans@.subrange(0, i as int));
            assert(cans@.subrange(0, i + 1).last() == cans@[i as int]);
        }
        let ghost before = out.deep_view();
        match (&c.canister_id, &c.name) {
            (Some(id), Some(name)) => {
                out.push("--actor-alias".to_owned());
                out.push(name.clone());
                out.push(id.clone());
                proof {
                    assert(out.deep_view() =~~= before + seq![
                        "--actor-alias"@,
                        cans@[i as int].name->0@,
                        cans@[i as int].canister_id->0@,
                    ]);
                }
            },
            _ => {
                proof {
                    assert(out.deep_view() =~~= before + Seq::<Seq<char>>::empty());
                }
            },
        }
        i = i + 1;
    }
    proof {
        assert(cans@.subrange(0, cans@.len() as int) =~= cans@);
    }
    out
}

/// The interface file recorded for a canister id: `<idl dir>/<id>.did`.
pub fn idl_file_path(idl_path: &str, canister_id: &str) -> (r: String)
    ensures
        r@ == idl_path@ + seq!['/'] + canister_id@ + ".did"@,
{
    let mut r = join_with(idl_path, '/', canister_id);
    r.append(".did");
    r
}

} // verus!
