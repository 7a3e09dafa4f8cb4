//! Version-control-hosted packages: parsing repository URLs, identifying a
//! checkout by repository, ref and commit, and choosing which files of a
//! repository tree belong to a package.

use vstd::prelude::*;
use vstd::string::*;

use crate::strutil::{
    ends_with, head_to, join_with, replace_char, split_first, starts_with, substr, tail_from,
};
use crate::version::{guess_version_from_tag, guessed_version};

verus! {

/// A repository reference pinned to a concrete commit: `repo` is
/// `owner/name`, `tag` the ref it was reached by, `commit` the resolved
/// commit hash, and `base_dir` the package's source subdirectory.
#[derive(Debug, Clone)]
pub struct RepoInfo {
    pub repo: String,
    pub tag: String,
    pub commit: String,
    pub base_dir: String,
}

/// The pieces of a dependency URL before any network resolution: the ref
/// and commit are present only when the URL pins them.
#[derive(Debug, Clone)]
pub struct UrlParts {
    pub repo: String,
    pub tag: Option<String>,
    pub commit: Option<String>,
    pub base_dir: String,
}

/// Ghost image of `UrlParts`.
pub struct UrlPartsView {
    pub repo: Seq<char>,
    pub tag: Option<Seq<char>>,
    pub commit: Option<Seq<char>>,
    pub base_dir: Seq<char>,
}

impl View for UrlParts {
    type V = UrlPartsView;

    open spec fn view(&self) -> UrlPartsView {
        UrlPartsView {
            repo: self.repo@,
            tag: self.tag.deep_view(),
            commit: self.commit.deep_view(),
            base_dir: self.base_dir.deep_view(),
        }
    }
}

/// How a dependency URL decomposes: after the host prefix come the owner and
/// the repository name separated by slashes, an optional third segment naming
/// the source subdirectory (`src` when absent), an optional `.git` suffix on
/// the repository name, and optionally `#ref` or `#ref@commit` after the
/// repository name. `None` when the text does not start with the host prefix
/// or lacks a repository name.
pub open spec fn spec_parse_github_url(u: Seq<char>) -> Option<UrlPartsView> {
    let prefix = "https://github.com/"@;
    if !prefix.is_prefix_of(u) {
        None
    } else {
        let rest = u.skip(prefix.len() as int);
        match find_first_slash(rest) {
            None => None,
            Some(i) => {
                let owner = rest.subrange(0, i);
                let rem = rest.skip(i + 1);
                let repo_part = head_to(rem, '/');
                let base_dir = match tail_from(rem, '/') {
                    Some(b) => b,
                    None => "src"@,
                };
                let rp = strip_git_suffix(repo_part);
                let repo = owner + seq!['/'] + head_to(rp, '#');
                match tail_from(rp, '#') {
                    None => Some(
                        UrlPartsView { repo, tag: None, commit: None, base_dir },
                    ),
                    Some(zone) => {
                        let tagzone = head_to(zone, '#');
                        let tag = head_to(tagzone, '@');
                        let commit = match tail_from(tagzone, '@') {
                            Some(cz) => Some(head_to(cz, '@')),
                            None => None,
                        };
                        Some(UrlPartsView { repo, tag: Some(tag), commit, base_dir })
                    },
                }
            },
        }
    }
}

/// The first slash of `s`, written out so that `spec_parse_github_url`
/// reads uniformly.
pub open spec fn find_first_slash(s: Seq<char>) -> Option<int> {
    crate::strutil::find_first(s, '/')
}

/// `s` without a trailing `.git`, when it has one.
pub open spec fn strip_git_suffix(s: Seq<char>) -> Seq<char> {
    if ".git"@.is_suffix_of(s) {
        s.subrange(0, s.len() - 4)
    } else {
        s
    }
}

/// Parses a dependency URL into its repository, optional ref and commit, and
/// source subdirectory. `None` exactly when the text is not a well-formed
/// repository URL.
pub fn parse_github_url_parts(url: &str) -> (r: Option<UrlParts>)
    ensures
        match r {
            Some(p) => spec_parse_github_url(url@) == Some(p@),
            None => spec_parse_github_url(url@) is None,
        },
{
    let prefix = "https://github.com/";
    if !starts_with(url, prefix) {
        return None;
    }
    let plen = prefix.unicode_len();
    let n = url.unicode_len();
    let rest = substr(url, plen, n);
    proof {
        assert(rest@ =~= url@.skip(prefix@.len() as int));
    }
    let (owner, rem_opt) = split_first(rest.as_str(), '/');
    let rem = match rem_opt {
        Some(r) => r,
        None => {
            return None;
        },
    };
    let (repo_part, base_opt) = split_first(rem.as_str(), '/');
    let base_dir = match base_opt {
        Some(b) => b,
        None => "src".to_owned(),
    };
    let rp = if ends_with(repo_part.as_str(), ".git") {
        proof {
            reveal_strlit(".git");
        }
        let m = repo_part.unicode_len();
        substr(repo_part.as_str(), 0, m - 4)
    } else {
        repo_part
    };
    let (repo_name, zone_opt) = split_first(rp.as_str(), '#');
    let repo = join_with(owner.as_str(), '/', repo_name.as_str());
    match zone_opt {
        None => Some(UrlParts { repo, tag: None, commit: None, base_dir }),
        Some(zone) => {
            let (tagzone, _rest) = split_first(zone.as_str(), '#');
            let (tag, czone_opt) = split_first(tagzone.as_str(), '@');
            let commit = match czone_opt {
                Some(cz) => {
                    let (c, _after) = split_first(cz.as_str(), '@');
                    Some(c)
                },
                None => None,
            };
            Some(UrlParts { repo, tag: Some(tag), commit, base_dir })
        },
    }
}

impl RepoInfo {
    /// The name of this checkout's completion marker: `DONE-` followed by
    /// the base directory with slashes flattened to dashes.
    pub fn get_done_file(&self) -> (r: String)
        ensures
            r@ == "DONE-"@ + self.base_dir@.map_values(
                |c: char| if c == '/' { '-' } else { c },
            ),
    {
        let mut s: String = "DONE-".to_owned();
        let flat = replace_char(self.base_dir.as_str(), '/', '-');
        s.append(flat.as_str());
        s
    }

    /// A version guessed from the checkout's ref name.
    pub fn guess_version(&self) -> (r: Option<String>)
        ensures
            match r {
                Some(v) => guessed_version(self.tag@) == Some(v@),
                None => guessed_version(self.tag@) is None,
            },
    {
        guess_version_from_tag(self.tag.as_str())
    }
}

/// One entry of a repository tree listing.
#[derive(Debug, Clone)]
pub struct TreeEntry {
    pub path: String,
    pub kind: String,
}

/// Whether a tree entry is part of a package rooted at `base_dir`: a plain
/// file (`blob`) under that directory with the Motoko source extension.
pub open spec fn keeps_tree_entry(e: TreeEntry, base_dir: Seq<char>) -> bool {
    e.kind@ == "blob"@ && base_dir.is_prefix_of(e.path@) && ".mo"@.is_suffix_of(e.path@)
}

/// Selects, in listing order, the paths of the tree entries that belong to
/// the package rooted at `base_dir`.
pub fn motoko_files(entries: &Vec<TreeEntry>, base_dir: &str) -> (r: Vec<String>)
    ensures
        r.deep_view() == entries@.filter(|e: TreeEntry| keeps_tree_entry(e, base_dir@)).map_values(
            |e: TreeEntry| e.path@,
        ),
{
    let ghost pred = |e: TreeEntry| keeps_tree_entry(e, base_dir@);
    let mut out: Vec<String> = Vec::new();
    let mut i: usize = 0;
    proof {
        assert(entries@.subrange(0, 0).filter(pred) =~= Seq::<TreeEntry>::empty());
    }
    while i < entries.len()
        invariant
            i <= entries@.len(),
            pred == (|e: TreeEntry| keeps_tree_entry(e, base_dir@)),
            out.deep_view() =~~= entries@.subrange(0, i as int).filter(pred).map_values(
                |e: TreeEntry| e.path@,
            ),
        decreases entries@.len() - i,
    {
        let e = &entries[i];
        let keep = {
            let is_blob = crate::strutil::str_eq(e.kind.as_str(), "blob");
            let under = starts_with(e.path.as_str(), base_dir);
            let ext = ends_with(e.path.as_str(), ".mo");
            is_blob && under && ext
        };
        let ghost prev = out.deep_view();
        proof {
            assert(keep == keeps_tree_entry(*e, base_dir@));
            assert(entries@.subrange(0, i + 1) =~= entries@.subrange(0, i as int) + seq![
                entries@[i as int],
            ]);
            Seq::<TreeEntry>::filter_distributes_over_add(
                entries@.subrange(0, i as int),
                seq![entries@[i as int]],
                pred,
            );
            reveal_with_fuel(Seq::<TreeEntry>::filter, 2);
            if keep {
                assert(seq![entries@[i as int]].filter(pred) =~= seq![entries@[i as int]]);
            } else {
                assert(seq![entries@[i as int]].filter(pred) =~= Seq::<TreeEntry>::empty());
            }
        }
        if keep {
            out.push(e.path.clone());
            proof {
                assert(out.deep_view() =~~= prev + seq![e.path@]);
            }
        }
        i = i + 1;
    }
    proof {
        assert(entries@.subrange(0, entries@.len() as int) =~= entries@);
    }
    out
}

/// The latest release of a repository: its tag name and downloadable assets.
#[derive(Debug, Clone)]
pub struct ReleaseInfo {
    pub tag_name: String,
    pub assets: Vec<Asset>,
}

/// One downloadable asset of a release.
#[derive(Debug, Clone)]
pub struct Asset {
    pub size: u64,
    pub browser_download_url: String,
}

/// The size of the first asset whose download URL is `url`.
pub open spec fn first_asset_size(assets: Seq<Asset>, url: Seq<char>) -> Option<u64>
    decreases assets.len(),
{
    if assets.len() == 0 {
        None
    } else if assets[0].browser_download_url@ == url {
        Some(assets[0].size)
    } else {
        first_asset_size(assets.skip(1), url)
    }
}

impl ReleaseInfo {
    /// Looks up the size of the asset with the given download URL.
    pub fn get_asset_size(&self, url: &str) -> (r: Option<u64>)
        ensures
            r == first_asset_size(self.assets@, url@),
    {
        let mut i: usize = 0;
        proof {
            assert(self.assets@.skip(0) =~= self.assets@);
        }
        loop
            invariant
                i <= self.assets@.len(),
                first_asset_size(self.assets@, url@) == first_asset_size(
                    self.assets@.skip(i as int),
                    url@,
                ),
            decreases self.assets@.len() - i,
        {
            if i == self.assets.len() {
                return None;
            }
            let a = &self.assets[i];
            proof {
                assert(self.assets@.skip(i as int)[0] == self.assets@[i as int]);
            }
            if crate::strutil::str_eq(a.browser_download_url.as_str(), url) {
                return Some(a.size);
            }
            proof {
                assert(self.assets@.skip(i as int).skip(1) =~= self.assets@.skip(i + 1));
            }
            i = i + 1;
        }
    }
}

} // verus!
