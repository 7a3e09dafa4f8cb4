//! Project-level paths and names, as plain strings: the well-known files
//! under the project root and cache directory, the entry file guess, and the
//! build name derived from the entry file's canonical path.

use vstd::prelude::*;
use vstd::string::*;

use crate::strutil::{join_with, str_eq, substr};

verus! {

/// Why no entry file could be chosen.
#[derive(Debug, Clone, Copy, PartialEq, Eq, Structural)]
pub enum EnvError {
    /// Neither `main.mo` nor `Main.mo` exists; the caller must name the
    /// entry file.
    NoMainFile,
}

/// Picks the entry file when none was given: `main.mo` if it exists, else
/// `Main.mo` if it exists, else the choice fails. The two flags answer
/// whether each file exists.
pub fn guess_main_file(main_exists: bool, main_cap_exists: bool) -> (r: Result<String, EnvError>)
    ensures
        match r {
            Ok(f) => if main_exists {
                f@ == "main.mo"@
            } else {
                main_cap_exists && f@ == "Main.mo"@
            },
            Err(e) => !main_exists && !main_cap_exists && e == EnvError::NoMainFile,
        },
{
    if main_exists {
        Ok("main.mo".to_owned())
    } else if main_cap_exists {
        Ok("Main.mo".to_owned())
    } else {
        Err(EnvError::NoMainFile)
    }
}

/// Joins two path segments with a separator.
pub fn join_path(base: &str, child: &str) -> (r: String)
    ensures
        r@ == base@ + seq!['/'] + child@,
{
    join_with(base, '/', child)
}

/// The manifest file under the project root.
pub fn mops_toml_path(project_root: &str) -> (r: String)
    ensures
        r@ == project_root@ + seq!['/'] + "mops.toml"@,
{
    join_path(project_root, "mops.toml")
}

/// The lockfile under the project root.
pub fn mops_lock_path(project_root: &str) -> (r: String)
    ensures
        r@ == project_root@ + seq!['/'] + "mops.lock"@,
{
    join_path(project_root, "mops.lock")
}

/// The build-output directory under the project root.
pub fn target_path(project_root: &str) -> (r: String)
    ensures
        r@ == project_root@ + seq!['/'] + "target"@,
{
    join_path(project_root, "target")
}

/// The canister-interface directory under the build-output directory.
pub fn target_idl_path(project_root: &str) -> (r: String)
    ensures
        r@ == project_root@ + seq!['/'] + "target"@ + seq!['/'] + "idl"@,
{
    let t = target_path(project_root);
    join_path(t.as_str(), "idl")
}

/// The toolchain-binary directory under the cache directory.
pub fn binary_path(cache_dir: &str) -> (r: String)
    ensures
        r@ == cache_dir@ + seq!['/'] + "bin"@,
{
    join_path(cache_dir, "bin")
}

/// The build artifact `target/<name>/<name>.wasm` under the project root.
pub fn build_artifact_path(project_root: &str, name: &str) -> (r: String)
    ensures
        r@ == project_root@ + seq!['/'] + "target"@ + seq!['/'] + name@ + seq!['/'] + name@
            + ".wasm"@,
{
    let t = target_path(project_root);
    let dir = join_path(t.as_str(), name);
    let mut file = join_path(dir.as_str(), name);
    file.append(".wasm");
    file
}

/// Index of the last occurrence of `c` in `s`.
pub open spec fn find_last(s: Seq<char>, c: char) -> Option<int>
    decreases s.len(),
{
    if s.len() == 0 {
        None
    } else if s.last() == c {
        Some(s.len() - 1)
    } else {
        find_last(s.drop_last(), c)
    }
}

/// Finds the last occurrence of `c` in `s`.
pub fn rfind_char(s: &str, c: char) -> (r: Option<usize>)
    ensures
        match r {
            Some(k) => find_last(s@, c) == Some(k as int),
            None => find_last(s@, c) is None,
        },
{
    let mut n = s.unicode_len();
    proof {
        assert(s@.subrange(0, n as int) =~= s@);
    }
    loop
        invariant
            n <= s@.len(),
            find_last(s@, c) == find_last(s@.subrange(0, n as int), c),
        decreases n,
    {
        if n == 0 {
            return None;
        }
        let x = s.get_char(n - 1);
        proof {
            assert(s@.subrange(0, n as int).last() == s@[n - 1]);
            assert(s@.subrange(0, n as int).drop_last() =~= s@.subrange(0, n - 1));
        }
        if x == c {
            return Some(n - 1);
        }
        n = n - 1;
    }
}

/// The file name of a path: everything after the last slash.
pub open spec fn spec_file_name(path: Seq<char>) -> Seq<char> {
    match find_last(path, '/') {
        Some(i) => path.skip(i + 1),
        None => path,
    }
}

/// The stem of a file name: the part before the last dot, unless the only
/// dot leads the name.
pub open spec fn spec_stem(name: Seq<char>) -> Seq<char> {
    match find_last(name, '.') {
        Some(i) => if i > 0 {
            name.subrange(0, i)
        } else {
            name
        },
        None => name,
    }
}

/// The build name guessed from the entry file's canonical path: the entry
/// file's stem, except that an entry file named `main` or `Main` takes its
/// directory's name instead; none when that directory name is empty or the
/// path has no directory.
pub open spec fn spec_guess_build_name(path: Seq<char>) -> Option<Seq<char>> {
    let stem = spec_stem(spec_file_name(path));
    if stem == "main"@ || stem == "Main"@ {
        match find_last(path, '/') {
            Some(i) => {
                let dir = path.subrange(0, i);
                let comp = spec_file_name(dir);
                if comp.len() == 0 {
                    None
                } else {
                    Some(comp)
                }
            },
            None => None,
        }
    } else {
        Some(stem)
    }
}

/// The file name of a path.
fn file_name_exec(path: &str) -> (r: String)
    ensures
        r@ == spec_file_name(path@),
{
    let n = path.unicode_len();
    match rfind_char(path, '/') {
        Some(i) => {
            proof {
                find_last_ensures(path@, '/');
            }
            let r = substr(path, i + 1, n);
            proof {
                assert(r@ =~= path@.skip(i + 1));
            }
            r
        },
        None => path.to_owned(),
    }
}

/// The last occurrence found by `find_last` is in bounds.
pub proof fn find_last_ensures(s: Seq<char>, c: char)
    ensures
        match find_last(s, c) {
            Some(i) => 0 <= i < s.len() && s[i] == c,
            None => true,
        },
    decreases s.len(),
{
    if s.len() > 0 && s.last() != c {
        find_last_ensures(s.drop_last(), c);
    }
}

/// The stem of a file name.
fn stem_exec(name: &str) -> (r: String)
    ensures
        r@ == spec_stem(name@),
{
    match rfind_char(name, '.') {
        Some(i) => {
            proof {
                find_last_ensures(name@, '.');
            }
            if i > 0 {
                substr(name, 0, i)
            } else {
                name.to_owned()
            }
        },
        None => name.to_owned(),
    }
}

/// Guesses the build name from the entry file's canonical path.
pub fn guess_build_name(canonical_main: &str) -> (r: Option<String>)
    ensures
        match r {
            Some(b) => spec_guess_build_name(canonical_main@) == Some(b@),
            None => spec_guess_build_name(canonical_main@) is None,
        },
{
    let name = file_name_exec(canonical_main);
    let stem = stem_exec(name.as_str());
    if str_eq(stem.as_str(), "main") || str_eq(stem.as_str(), "Main") {
        match rfind_char(canonical_main, '/') {
            Some(i) => {
                proof {
                    find_last_ensures(canonical_main@, '/');
                }
                let dir = substr(canonical_main, 0, i);
                let comp = file_name_exec(dir.as_str());
                if comp.as_str().unicode_len() == 0 {
                    None
                } else {
                    Some(comp)
                }
            },
            None => None,
        }
    } else {
        Some(stem)
    }
}

/// The build name to use: the explicit one when given, else the guess, else
/// the fixed fallback `wasm`.
pub fn choose_build_name(explicit: Option<String>, guessed: Option<String>) -> (r: String)
    ensures
        match explicit {
            Some(e) => r == e,
            None => match guessed {
                Some(g) => r == g,
                None => r@ == "wasm"@,
            },
        },
{
    match explicit {
        Some(e) => e,
        None => match guessed {
            Some(g) => g,
            None => "wasm".to_owned(),
        },
    }
}

} // verus!
