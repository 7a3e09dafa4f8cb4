//! The toolchain binaries the project manages: where each lives under the
//! cache, which release archive serves a version, how a version is read off
//! a binary's output, and when a binary needs downloading.

use vstd::prelude::*;
use vstd::string::*;

use crate::strutil::{is_ws, str_eq, substr};

verus! {

/// The compiler binary: its directory and the version the manifest pins, if
/// any.
#[derive(Debug)]
pub struct Moc {
    pub binary_path: String,
    pub expect_version: Option<String>,
}

/// The formatter binary: its directory and the version the manifest pins, if
/// any.
#[derive(Debug)]
pub struct Fmt {
    pub binary_path: String,
    pub expect_version: Option<String>,
}

impl Moc {
    /// The binary's file name.
    pub fn name(&self) -> (r: &'static str)
        ensures
            r@ == "moc"@,
    {
        "moc"
    }

    /// The repository its releases come from.
    pub fn repo(&self) -> (r: &'static str)
        ensures
            r@ == "dfinity/motoko"@,
    {
        "dfinity/motoko"
    }

    /// The binary's path under its directory.
    pub fn get_path(&self) -> (r: String)
        ensures
            r@ == self.binary_path@ + seq!['/'] + "moc"@,
    {
        crate::strutil::join_with(self.binary_path.as_str(), '/', "moc")
    }

    pub fn get_expect_version(&self) -> (r: &Option<String>)
        ensures
            r == &self.expect_version,
    {
        &self.expect_version
    }

    /// The release archive serving version `ver` for the given platform
    /// name.
    pub fn release_url(&self, platform: &str, ver: &str) -> (r: String)
        ensures
            r@ == "https://github.com/dfinity/motoko/releases/download/"@ + ver@ + "/motoko-"@
                + platform@ + "-x86_64-"@ + ver@ + ".tar.gz"@,
    {
        let mut r: String = "https://github.com/dfinity/motoko/releases/download/".to_owned();
        r.append(ver);
        r.append("/motoko-");
        r.append(platform);
        r.append("-x86_64-");
        r.append(ver);
        r.append(".tar.gz");
        r
    }
}

impl Fmt {
    /// The binary's file name.
    pub fn name(&self) -> (r: &'static str)
        ensures
            r@ == "mo-fmt"@,
    {
        "mo-fmt"
    }

    /// The repository its releases come from.
    pub fn repo(&self) -> (r: &'static str)
        ensures
            r@ == "dfinity/prettier-plugin-motoko"@,
    {
        "dfinity/prettier-plugin-motoko"
    }

    /// The binary's path under its directory.
    pub fn get_path(&self) -> (r: String)
        ensures
            r@ == self.binary_path@ + seq!['/'] + "mo-fmt"@,
    {
        crate::strutil::join_with(self.binary_path.as_str(), '/', "mo-fmt")
    }

    pub fn get_expect_version(&self) -> (r: &Option<String>)
        ensures
            r == &self.expect_version,
    {
        &self.expect_version
    }

    /// The release archive serving version `ver` for the given platform
    /// name.
    pub fn release_url(&self, platform: &str, ver: &str) -> (r: String)
        ensures
            r@ == "https://github.com/dfinity/prettier-plugin-motoko/releases/download/v"@ + ver@
                + "/mo-fmt-"@ + platform@ + ".tar.gz"@,
    {
        let mut r: String =
            "https://github.com/dfinity/prettier-plugin-motoko/releases/download/v".to_owned();
        r.append(ver);
        r.append("/mo-fmt-");
        r.append(platform);
        r.append(".tar.gz");
        r
    }
}

/// The name of the downloaded archive for a binary and version.
pub fn archive_name(name: &str, ver: &str) -> (r: String)
    ensures
        r@ == name@ + seq!['-'] + ver@ + ".tar.gz"@,
{
    let mut r = crate::strutil::dash_join(name, ver);
    r.append(".tar.gz");
    r
}

/// What an update pass decides before consulting the release host.
#[derive(Debug)]
pub enum UpdateStep {
    /// Download exactly this version.
    Download { version: String },
    /// The latest release must be looked up; `pinned` carries the manifest's
    /// pin when the lookup only serves to report it.
    CheckLatest { pinned: Option<String> },
    /// The binary is already the wanted version.
    Nothing,
}

/// Decides whether a binary needs work, without any network call: a pinned
/// version that is not the current one is downloaded outright; a pinned and
/// current binary consults the host only when the caller asked for the
/// latest; an unpinned binary is left alone unless the caller asked for the
/// latest or no version is installed at all.
pub fn update_plan(cur_ver: &str, expect: &Option<String>, need_latest: bool) -> (r: UpdateStep)
    ensures
        match expect {
            Some(e) => if cur_ver@ != e@ {
                r matches UpdateStep::Download { version } && version@ == e@
            } else if need_latest {
                r matches UpdateStep::CheckLatest { pinned } && pinned matches Some(p) && p@ == e@
            } else {
                r is Nothing
            },
            None => if !need_latest && cur_ver@.len() > 0 {
                r is Nothing
            } else {
                r matches UpdateStep::CheckLatest { pinned } && pinned is None
            },
        },
{
    match expect {
        Some(e) => {
            if !str_eq(cur_ver, e.as_str()) {
                UpdateStep::Download { version: e.clone() }
            } else if need_latest {
                UpdateStep::CheckLatest { pinned: Some(e.clone()) }
            } else {
                UpdateStep::Nothing
            }
        },
        None => {
            if !need_latest && cur_ver.unicode_len() > 0 {
                UpdateStep::Nothing
            } else {
                UpdateStep::CheckLatest { pinned: None }
            }
        },
    }
}

/// What an update pass decides once the latest release version is known.
#[derive(Debug)]
pub enum LatestOutcome {
    /// Download exactly this version.
    Download { version: String },
    /// Report that the latest differs but the manifest pins the current
    /// version; nothing is downloaded.
    ReportPinned { latest: String, pinned: String },
    /// Report that the binary is already up to date.
    ReportUpToDate,
    /// Nothing to do or say.
    Nothing,
}

/// Decides what to do with the latest release version: a pin only gets
/// reported against it; otherwise a differing latest is downloaded, and an
/// equal one is reported up to date only when the caller asked for the
/// latest.
pub fn update_after_latest(
    cur_ver: &str,
    need_latest: bool,
    pinned: Option<String>,
    latest: String,
) -> (r: LatestOutcome)
    ensures
        match pinned {
            Some(p) => r matches LatestOutcome::ReportPinned { latest: l, pinned: q } && l@
                == latest@ && q@ == p@,
            None => if latest@ != cur_ver@ {
                r matches LatestOutcome::Download { version } && version@ == latest@
            } else if need_latest {
                r is ReportUpToDate
            } else {
                r is Nothing
            },
        },
{
    match pinned {
        Some(p) => LatestOutcome::ReportPinned { latest, pinned: p },
        None => {
            if !str_eq(latest.as_str(), cur_ver) {
                LatestOutcome::Download { version: latest }
            } else if need_latest {
                LatestOutcome::ReportUpToDate
            } else {
                LatestOutcome::Nothing
            }
        },
    }
}

/// Index of the first whitespace character at or after position `i`.
pub open spec fn find_ws_from(s: Seq<char>, i: int) -> Option<int>
    decreases s.len() - i,
{
    if i < 0 || i >= s.len() {
        None
    } else if is_ws(s[i]) {
        Some(i)
    } else {
        find_ws_from(s, i + 1)
    }
}

pub proof fn find_ws_from_ensures(s: Seq<char>, i: int)
    requires
        0 <= i <= s.len(),
    ensures
        match find_ws_from(s, i) {
            Some(k) => i <= k < s.len() && is_ws(s[k]) && forall|j: int| i <= j < k ==> !is_ws(s[j]),
            None => forall|j: int| i <= j < s.len() ==> !is_ws(s[j]),
        },
    decreases s.len() - i,
{
    if i < s.len() && !is_ws(s[i]) {
        find_ws_from_ensures(s, i + 1);
    }
}

/// The whitespace-separated tokens of `s`, in order.
pub open spec fn spec_tokens(s: Seq<char>) -> Seq<Seq<char>>
    decreases s.len(),
    via spec_tokens_decreases
{
    if s.len() == 0 {
        Seq::empty()
    } else if is_ws(s[0]) {
        spec_tokens(s.skip(1))
    } else {
        match find_ws_from(s, 0) {
            Some(i) => seq![s.subrange(0, i)] + spec_tokens(s.skip(i)),
            None => seq![s],
        }
    }
}

#[via_fn]
proof fn spec_tokens_decreases(s: Seq<char>) {
    find_ws_from_ensures(s, 0);
}

/// The `pos`-th whitespace-separated token of a binary's version output,
/// which is where each binary prints its version number.
pub fn version_token(s: &str, pos: usize) -> (r: Option<String>)
    ensures
        match r {
            Some(t) => pos < spec_tokens(s@).len() && t@ == spec_tokens(s@)[pos as int],
            None => pos >= spec_tokens(s@).len(),
        },
{
    let mut rem: String = s.to_owned();
    let mut count: usize = 0;
    proof {
        assert(spec_tokens(s@).skip(0) =~~= spec_tokens(rem@));
    }
    loop
        invariant
            count <= pos,
            count <= spec_tokens(s@).len(),
            spec_tokens(s@).skip(count as int) == spec_tokens(rem@),
        decreases rem@.len() + (pos - count),
    {
        let n = rem.as_str().unicode_len();
        if n == 0 {
            proof {
                assert(spec_tokens(rem@).len() == 0);
            }
            return None;
        }
        let c = rem.as_str().get_char(0);
        if c == ' ' || c == '\t' || c == '\n' || c == '\r' {
            let rest = substr(rem.as_str(), 1, n);
            proof {
                assert(rest@ =~= rem@.skip(1));
            }
            rem = rest;
        } else {
            let ghost before = rem@;
            let end = first_ws_index(rem.as_str());
            proof {
                find_ws_from_ensures(before, 0);
                if end < n {
                    assert(spec_tokens(before) == seq![before.subrange(0, end as int)]
                        + spec_tokens(before.skip(end as int)));
                } else {
                    assert(find_ws_from(before, 0) is None);
                    assert(spec_tokens(before) == seq![before]);
                }
                assert(spec_tokens(before).len() >= 1);
            }
            let token = substr(rem.as_str(), 0, end);
            if count == pos {
                proof {
                    if end == n {
                        assert(token@ =~= before);
                    }
                    let toks = spec_tokens(s@);
                    assert(toks.skip(count as int) == spec_tokens(before));
                    assert(toks.skip(count as int).len() == toks.len() - count);
                    assert(pos < toks.len());
                    assert(toks.skip(count as int)[0] == toks[count as int]);
                    assert(spec_tokens(before)[0] == token@);
                }
                return Some(token);
            }
            if end == n {
                proof {
                    let toks = spec_tokens(s@);
                    assert(toks.skip(count as int).len() == toks.len() - count);
                    assert(toks.len() == count + 1);
                }
                return None;
            }
            let rest = substr(rem.as_str(), end, n);
            proof {
                assert(rest@ =~= before.skip(end as int));
                assert(spec_tokens(before) == seq![before.subrange(0, end as int)] + spec_tokens(
                    rest@,
                ));
                let toks = spec_tokens(s@);
                assert(toks.skip(count as int).len() == toks.len() - count);
                assert forall|j: int| 0 <= j < toks.len() - count - 1 implies toks.skip(
                    count + 1,
                )[j] == spec_tokens(rest@)[j] by {
                    assert(toks.skip(count + 1)[j] == toks[count + 1 + j]);
                    assert(toks.skip(count as int)[j + 1] == toks[count + 1 + j]);
                    assert(spec_tokens(before)[j + 1] == spec_tokens(rest@)[j]);
                }
                assert(toks.skip(count + 1) =~~= spec_tokens(rest@));
            }
            rem = rest;
            count = count + 1;
        }
    }
}

/// The index of the first whitespace character, or the length when there is
/// none.
fn first_ws_index(s: &str) -> (r: usize)
    ensures
        match find_ws_from(s@, 0) {
            Some(i) => r as int == i,
            None => r as int == s@.len(),
        },
{
    let n = s.unicode_len();
    let mut i: usize = 0;
    loop
        invariant
            n == s@.len(),
            i <= n,
            find_ws_from(s@, 0) == find_ws_from(s@, i as int),
        decreases n - i,
    {
        if i == n {
            return i;
        }
        let c = s.get_char(i);
        if c == ' ' || c == '\t' || c == '\n' || c == '\r' {
            return i;
        }
        i = i + 1;
    }
}

} // verus!
