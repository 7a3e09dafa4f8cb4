//! The import scanner: parsing the import lines the compiler reports for a
//! source file, and the visited-set bookkeeping that walks local imports
//! without ever scanning a file twice.

use vstd::prelude::*;
use vstd::string::*;

use crate::principal::{principal_from_text, principal_of_text};
use crate::strutil::{
    find_char, find_first, find_from_ensures, head_to, is_ws, str_eq, substr, tail_from,
};

verus! {

/// One import of a source file: a named canister, an external canister by
/// principal (held as its canonical text), a library, or a local file.
#[derive(Debug, Clone)]
pub enum MotokoImport {
    Canister(String),
    Ic(String),
    Lib(String),
    Local(String),
}

/// Ghost image of an import.
pub enum ImportView {
    Canister(Seq<char>),
    Ic(Seq<char>),
    Lib(Seq<char>),
    Local(Seq<char>),
}

impl View for MotokoImport {
    type V = ImportView;

    open spec fn view(&self) -> ImportView {
        match self {
            MotokoImport::Canister(s) => ImportView::Canister(s@),
            MotokoImport::Ic(s) => ImportView::Ic(s@),
            MotokoImport::Lib(s) => ImportView::Lib(s@),
            MotokoImport::Local(s) => ImportView::Local(s@),
        }
    }
}

/// Why an import line is rejected: no scheme this tool knows, an external
/// canister id that is no principal, a scheme-less line whose path is not a
/// file, or a scheme-less line with no path at all.
#[derive(Debug)]
pub enum ImportError {
    Unknown(String),
    BadPrincipal(String),
    FileNotFound(String),
    Unresolved(String),
}

/// Ghost image of an import error.
pub enum ImportErrorView {
    Unknown(Seq<char>),
    BadPrincipal(Seq<char>),
    FileNotFound(Seq<char>),
    Unresolved(Seq<char>),
}

impl View for ImportError {
    type V = ImportErrorView;

    open spec fn view(&self) -> ImportErrorView {
        match self {
            ImportError::Unknown(s) => ImportErrorView::Unknown(s@),
            ImportError::BadPrincipal(s) => ImportErrorView::BadPrincipal(s@),
            ImportError::FileNotFound(s) => ImportErrorView::FileNotFound(s@),
            ImportError::Unresolved(s) => ImportErrorView::Unresolved(s@),
        }
    }
}

/// `s` without its trailing whitespace.
pub open spec fn trim_end_ws(s: Seq<char>) -> Seq<char>
    decreases s.len(),
{
    if s.len() == 0 {
        s
    } else if is_ws(s.last()) {
        trim_end_ws(s.drop_last())
    } else {
        s
    }
}

/// How an import line decomposes and what it means: an optional trailing
/// path after the first space; a scheme before the first colon (`canister:`,
/// `ic:` or `mo:`); a library reference keeps only its top-level name; a
/// scheme-less line must carry an existing file's path.
pub open spec fn spec_parse_import(line: Seq<char>, path_is_file: bool) -> Result<
    ImportView,
    ImportErrorView,
> {
    let parts = match find_first(line, ' ') {
        Some(idx) => {
            if idx >= line.len() - 1 {
                None
            } else {
                Some((trim_end_ws(line.subrange(0, idx + 1)), Some(line.skip(idx + 1))))
            }
        },
        None => Some((line, None)),
    };
    match parts {
        None => Err(ImportErrorView::Unknown(line)),
        Some((url, fullpath)) => match find_first(url, ':') {
            Some(cidx) => {
                if cidx >= line.len() - 1 {
                    Err(ImportErrorView::Unknown(url))
                } else {
                    let prefix = url.subrange(0, cidx + 1);
                    let name = url.skip(cidx + 1);
                    if prefix == "canister:"@ {
                        Ok(ImportView::Canister(name))
                    } else if prefix == "ic:"@ {
                        match principal_of_text(name) {
                            Some(canonical) => Ok(ImportView::Ic(canonical)),
                            None => Err(ImportErrorView::BadPrincipal(url)),
                        }
                    } else if prefix == "mo:"@ {
                        Ok(ImportView::Lib(head_to(name, '/')))
                    } else {
                        Err(ImportErrorView::Unknown(url))
                    }
                }
            },
            None => match fullpath {
                Some(p) => {
                    if path_is_file {
                        Ok(ImportView::Local(p))
                    } else {
                        Err(ImportErrorView::FileNotFound(p))
                    }
                },
                None => Err(ImportErrorView::Unresolved(url)),
            },
        },
    }
}

/// Trims trailing whitespace.
fn trim_end_exec(s: &str) -> (r: String)
    ensures
        r@ == trim_end_ws(s@),
{
    let mut n = s.unicode_len();
    proof {
        assert(s@.subrange(0, n as int) =~= s@);
    }
    loop
        invariant
            n <= s@.len(),
            trim_end_ws(s@) == trim_end_ws(s@.subrange(0, n as int)),
        decreases n,
    {
        if n == 0 {
            proof {
                assert(s@.subrange(0, 0) =~= Seq::<char>::empty());
            }
            return String::new();
        }
        let c = s.get_char(n - 1);
        let ws = c == ' ' || c == '\t' || c == '\n' || c == '\r';
        if ws {
            proof {
                assert(s@.subrange(0, n as int).last() == s@[n - 1]);
                assert(s@.subrange(0, n as int).drop_last() =~= s@.subrange(0, n - 1));
            }
            n = n - 1;
        } else {
            let r = substr(s, 0, n);
            proof {
                assert(s@.subrange(0, n as int).last() == s@[n - 1]);
            }
            return r;
        }
    }
}

/// The path candidate of an import line: what follows the first space. The
/// caller checks whether it names a file before parsing the line.
pub fn import_line_path(line: &str) -> (r: Option<String>)
    ensures
        match r {
            Some(p) => tail_from(line@, ' ') == Some(p@),
            None => tail_from(line@, ' ') is None,
        },
{
    let (_, rest) = crate::strutil::split_first(line, ' ');
    rest
}

/// Parses one import line the compiler printed. `path_is_file` answers, for
/// a scheme-less line, whether the line's trailing path names an existing
/// file; it is ignored otherwise.
pub fn parse_import_line(line: &str, path_is_file: bool) -> (r: Result<MotokoImport, ImportError>)
    ensures
        match r {
            Ok(v) => spec_parse_import(line@, path_is_file) == Ok::<ImportView, ImportErrorView>(
                v@,
            ),
            Err(e) => spec_parse_import(line@, path_is_file) == Err::<ImportView, ImportErrorView>(
                e@,
            ),
        },
{
    let n = line.unicode_len();
    let (url, fullpath): (String, Option<String>) = match find_char(line, ' ') {
        Some(idx) => {
            proof {
                find_from_ensures(line@, ' ', 0);
            }
            if idx >= n - 1 {
                return Err(ImportError::Unknown(line.to_owned()));
            }
            let head = substr(line, 0, idx + 1);
            let url = trim_end_exec(head.as_str());
            let rest = substr(line, idx + 1, n);
            proof {
                assert(rest@ =~= line@.skip(idx + 1));
            }
            (url, Some(rest))
        },
        None => (line.to_owned(), None),
    };
    match find_char(url.as_str(), ':') {
        Some(cidx) => {
            proof {
                find_from_ensures(url@, ':', 0);
            }
            if cidx >= n - 1 {
                return Err(ImportError::Unknown(url));
            }
            let ulen = url.unicode_len();
            let prefix = substr(url.as_str(), 0, cidx + 1);
            let name = substr(url.as_str(), cidx + 1, ulen);
            proof {
                assert(name@ =~= url@.skip(cidx + 1));
            }
            if str_eq(prefix.as_str(), "canister:") {
                Ok(MotokoImport::Canister(name))
            } else if str_eq(prefix.as_str(), "ic:") {
                match principal_from_text(name.as_str()) {
                    Some(canonical) => Ok(MotokoImport::Ic(canonical)),
                    None => Err(ImportError::BadPrincipal(url)),
                }
            } else if str_eq(prefix.as_str(), "mo:") {
                let (lib, _) = crate::strutil::split_first(name.as_str(), '/');
                Ok(MotokoImport::Lib(lib))
            } else {
                Err(ImportError::Unknown(url))
            }
        },
        None => match fullpath {
            Some(p) => {
                if path_is_file {
                    Ok(MotokoImport::Local(p))
                } else {
                    Err(ImportError::FileNotFound(p))
                }
            },
            None => Err(ImportError::Unresolved(url)),
        },
    }
}

/// The views of a batch of import lines.
pub open spec fn line_views(lines: Seq<(String, bool)>) -> Seq<(Seq<char>, bool)> {
    lines.map_values(|l: (String, bool)| (l.0@, l.1))
}

/// Ghost image of the scanner.
pub struct ScanState {
    pub visited: Seq<Seq<char>>,
    pub pending: Seq<Seq<char>>,
    pub imports: Seq<ImportView>,
}

/// How one parsed import advances a scan: a local path already visited is
/// dropped — never enqueued a second time — and a fresh one is marked
/// visited before it is enqueued; any other import joins the set of external
/// references once.
pub open spec fn scan_step(st: ScanState, v: ImportView) -> ScanState {
    match v {
        ImportView::Local(p) => {
            if st.visited.contains(p) {
                st
            } else {
                ScanState {
                    visited: st.visited.push(p),
                    pending: st.pending.push(p),
                    imports: st.imports,
                }
            }
        },
        _ => {
            if st.imports.contains(v) {
                st
            } else {
                ScanState { visited: st.visited, pending: st.pending, imports: st.imports.push(v) }
            }
        },
    }
}

/// A batch of import lines applied in order, stopping at the first line that
/// fails to parse.
pub open spec fn scan_lines(st: ScanState, lines: Seq<(Seq<char>, bool)>) -> Result<
    ScanState,
    ImportErrorView,
>
    decreases lines.len(),
{
    if lines.len() == 0 {
        Ok(st)
    } else {
        match scan_lines(st, lines.drop_last()) {
            Ok(st2) => match spec_parse_import(lines.last().0, lines.last().1) {
                Ok(v) => Ok(scan_step(st2, v)),
                Err(e) => Err(e),
            },
            Err(e) => Err(e),
        }
    }
}

/// The import scanner: a walk over local files that terminates because a
/// file, once visited, is never enqueued again.
pub struct Scanner {
    /// Every canonical path ever seen, scanned or enqueued.
    pub visited: Vec<String>,
    /// Paths enqueued and not yet handed out, front first.
    pub pending: Vec<String>,
    /// The external imports collected so far, first occurrence first.
    pub imports: Vec<MotokoImport>,
}

impl Scanner {
    pub open spec fn view(self) -> ScanState {
        ScanState {
            visited: self.visited@.map_values(|s: String| s@),
            pending: self.pending@.map_values(|s: String| s@),
            imports: self.imports@.map_values(|m: MotokoImport| m@),
        }
    }

    /// The scanner's invariant: no path is recorded twice, nothing is
    /// pending that was not first marked visited, and no import is collected
    /// twice.
    pub open spec fn inv(self) -> bool {
        &&& self.view().visited.no_duplicates()
        &&& self.view().pending.no_duplicates()
        &&& forall|i: int|
            0 <= i < self.view().pending.len() ==> self.view().visited.contains(
                #[trigger] self.view().pending[i],
            )
        &&& self.view().imports.no_duplicates()
    }

    /// Starts a scan at the entry file, which counts as visited at once.
    pub fn new(entry: String) -> (r: Scanner)
        ensures
            r.inv(),
            r.view().visited == seq![entry@],
            r.view().pending == seq![entry@],
            r.view().imports == Seq::<ImportView>::empty(),
    {
        let mut visited: Vec<String> = Vec::new();
        visited.push(entry.clone());
        let mut pending: Vec<String> = Vec::new();
        pending.push(entry);
        let r = Scanner { visited, pending, imports: Vec::new() };
        proof {
            assert(r.view().visited =~= seq![r.visited@[0]@]);
            assert(r.view().pending =~= seq![r.pending@[0]@]);
            assert(r.view().imports =~= Seq::<ImportView>::empty());
        }
        r
    }

    /// Hands out the next file to scan, once: the file leaves the queue but
    /// stays visited, so it can never be handed out again.
    pub fn next_file(&mut self) -> (r: Option<String>)
        requires
            old(self).inv(),
        ensures
            final(self).inv(),
            final(self).view().visited == old(self).view().visited,
            final(self).view().imports == old(self).view().imports,
            match r {
                Some(f) => old(self).view().pending.len() > 0 && f@ == old(
                    self,
                ).view().pending[0] && final(self).view().pending == old(
                    self,
                ).view().pending.skip(1),
                None => old(self).view().pending.len() == 0 && final(self).view().pending == old(
                    self,
                ).view().pending,
            },
    {
        if self.pending.len() == 0 {
            return None;
        }
        let f = self.pending.remove(0);
        proof {
            assert(self.view().pending =~= old(self).view().pending.skip(1));
        }
        Some(f)
    }

    /// Applies the compiler's import lines for one scanned file, in order:
    /// parsed imports join the collected set, unvisited local paths are
    /// marked visited and enqueued, and the first line that fails to parse
    /// fails the whole scan. Each line comes with whether its trailing path
    /// names an existing file.
    #[verifier::loop_isolation(false)]
    pub fn provide_deps(&mut self, lines: Vec<(String, bool)>) -> (r: Result<(), ImportError>)
        requires
            old(self).inv(),
        ensures
            final(self).inv(),
            match r {
                Ok(()) => scan_lines(old(self).view(), line_views(lines@)) == Ok::<
                    ScanState,
                    ImportErrorView,
                >(final(self).view()),
                Err(e) => scan_lines(old(self).view(), line_views(lines@)) == Err::<
                    ScanState,
                    ImportErrorView,
                >(e@),
            },
    {
        let ghost lv = line_views(lines@);
        let mut rest = lines;
        let n_total = rest.len();
        let mut k: usize = 0;
        proof {
            assert(lv.len() == n_total);
            assert(lv.subrange(0, 0) =~= Seq::<(Seq<char>, bool)>::empty());
        }
        proof {
            assert(line_views(rest@) =~~= lv.skip(0));
        }
        while rest.len() > 0
            invariant
                lv.len() <= usize::MAX,
                self.inv(),
                k + rest@.len() == lv.len(),
                line_views(rest@) == lv.skip(k as int),
                scan_lines(old(self).view(), lv.subrange(0, k as int)) == Ok::<
                    ScanState,
                    ImportErrorView,
                >(self.view()),
            decreases rest@.len(),
        {
            let ghost brest = rest@;
            let (line, is_file) = rest.remove(0);
            proof {
                assert(line_views(brest)[0] == lv.skip(k as int)[0]);
                assert(lv[k as int] == (line@, is_file));
                assert(rest@ =~= brest.skip(1));
                assert forall|j: int| 0 <= j < rest@.len() implies line_views(rest@)[j] == lv.skip(
                    k + 1,
                )[j] by {
                    assert(rest@[j] == brest[j + 1]);
                    assert(line_views(brest)[j + 1] == lv.skip(k as int)[j + 1]);
                    assert(lv.skip(k as int)[j + 1] == lv[k as int + j + 1]);
                    assert(lv.skip(k + 1)[j] == lv[k + 1 + j]);
                }
                assert(line_views(rest@) =~= lv.skip(k + 1));
                assert(lv.subrange(0, k + 1).drop_last() =~= lv.subrange(0, k as int));
                assert(lv.subrange(0, k + 1).last() == lv[k as int]);
            }
            match parse_import_line(line.as_str(), is_file) {
                Ok(v) => {
                    self.add_import(v);
                },
                Err(e) => {
                    proof {
                        lemma_scan_err_persists(old(self).view(), lv, k + 1, e@);
                    }
                    return Err(e);
                },
            }
            k = k + 1;
        }
        proof {
            assert(lv.subrange(0, lv.len() as int) =~= lv);
        }
        Ok(())
    }

    /// Applies one parsed import.
    fn add_import(&mut self, v: MotokoImport)
        requires
            old(self).inv(),
        ensures
            final(self).inv(),
            final(self).view() == scan_step(old(self).view(), v@),
    {
        match v {
            MotokoImport::Local(p) => {
                if self.contains_visited(p.as_str()) {
                } else {
                    let ghost pv = p@;
                    self.visited.push(p.clone());
                    self.pending.push(p);
                    proof {
                        assert(self.view().visited =~= old(self).view().visited.push(pv));
                        assert(self.view().pending =~= old(self).view().pending.push(pv));
                        assert(self.view().imports =~= old(self).view().imports);
                        assert(self.view() == scan_step(old(self).view(), v@));
                        assert(self.view().visited.no_duplicates()) by {
                            assert forall|x: int, y: int|
                                0 <= x < y < self.view().visited.len() implies self.view().visited[x]
                                != self.view().visited[y] by {
                                if y == self.view().visited.len() - 1 {
                                    assert(old(self).view().visited[x] != pv);
                                }
                            }
                        }
                        assert(self.view().pending.no_duplicates()) by {
                            assert forall|x: int, y: int|
                                0 <= x < y < self.view().pending.len() implies self.view().pending[x]
                                != self.view().pending[y] by {
                                if y == self.view().pending.len() - 1 {
                                    assert(old(self).view().visited.contains(
                                        old(self).view().pending[x],
                                    ));
                                    assert(old(self).view().pending[x] != pv);
                                }
                            }
                        }
                        assert forall|i: int|
                            0 <= i < self.view().pending.len() implies self.view().visited.contains(
                            #[trigger] self.view().pending[i],
                        ) by {
                            if i < self.view().pending.len() - 1 {
                                let e = old(self).view().pending[i];
                                assert(old(self).view().visited.contains(e));
                                let w = choose|w: int|
                                    0 <= w < old(self).view().visited.len() && old(
                                        self,
                                    ).view().visited[w] == e;
                                assert(self.view().visited[w] == e);
                            } else {
                                assert(self.view().visited.last() == pv);
                            }
                        }
                    }
                }
            },
            other => {
                let ghost ov = other@;
                if self.contains_import(&other) {
                    proof {
                        assert(!(ov matches ImportView::Local(_)));
                    }
                } else {
                    self.imports.push(other);
                    proof {
                        assert(!(ov matches ImportView::Local(_)));
                        assert(self.view().imports =~= old(self).view().imports.push(ov));
                        assert(self.view().visited =~= old(self).view().visited);
                        assert(self.view().pending =~= old(self).view().pending);
                        assert(self.view() == scan_step(old(self).view(), ov));
                        assert(self.view().imports.no_duplicates()) by {
                            assert forall|x: int, y: int|
                                0 <= x < y < self.view().imports.len() implies self.view().imports[x]
                                != self.view().imports[y] by {
                                if y == self.view().imports.len() - 1 {
                                    assert(old(self).view().imports[x] != ov);
                                }
                            }
                        }
                    }
                }
            },
        }
    }

    /// Whether the path was already visited.
    fn contains_visited(&self, p: &str) -> (r: bool)
        ensures
            r == self.view().visited.contains(p@),
    {
        let mut i: usize = 0;
        while i < self.visited.len()
            invariant
                i <= self.visited@.len(),
                forall|j: int| 0 <= j < i ==> self.view().visited[j] != p@,
            decreases self.visited@.len() - i,
        {
            if str_eq(self.visited[i].as_str(), p) {
                proof {
                    assert(self.view().visited[i as int] == p@);
                }
                return true;
            }
            i = i + 1;
        }
        false
    }

    /// Whether an equal import was already collected.
    fn contains_import(&self, v: &MotokoImport) -> (r: bool)
        ensures
            r == self.view().imports.contains(v@),
    {
        let mut i: usize = 0;
        while i < self.imports.len()
            invariant
                i <= self.imports@.len(),
                forall|j: int| 0 <= j < i ==> self.view().imports[j] != v@,
            decreases self.imports@.len() - i,
        {
            if import_eq(&self.imports[i], v) {
                proof {
                    assert(self.view().imports[i as int] == v@);
                }
                return true;
            }
            i = i + 1;
        }
        false
    }
}

/// Once a path is visited, scanning it again changes nothing: the guarantee
/// that a cycle of local imports cannot make the walk revisit a file.
pub proof fn lemma_visited_never_repushed(st: ScanState, p: Seq<char>)
    requires
        st.visited.contains(p),
    ensures
        scan_step(st, ImportView::Local(p)) == st,
{
}

/// A batch that fails on some prefix fails identically on the whole list.
proof fn lemma_scan_err_persists(
    st: ScanState,
    lines: Seq<(Seq<char>, bool)>,
    k: int,
    e: ImportErrorView,
)
    requires
        0 <= k <= lines.len(),
        scan_lines(st, lines.subrange(0, k)) == Err::<ScanState, ImportErrorView>(e),
    ensures
        scan_lines(st, lines) == Err::<ScanState, ImportErrorView>(e),
    decreases lines.len() - k,
{
    if k == lines.len() {
        assert(lines.subrange(0, k) =~= lines);
    } else {
        assert(lines.subrange(0, k + 1).drop_last() =~= lines.subrange(0, k));
        lemma_scan_err_persists(st, lines, k + 1, e);
    }
}

/// Decides whether two imports are equal.
pub fn import_eq(a: &MotokoImport, b: &MotokoImport) -> (r: bool)
    ensures
        r == (a@ == b@),
{
    match (a, b) {
        (MotokoImport::Canister(x), MotokoImport::Canister(y)) => str_eq(x.as_str(), y.as_str()),
        (MotokoImport::Ic(x), MotokoImport::Ic(y)) => str_eq(x.as_str(), y.as_str()),
        (MotokoImport::Lib(x), MotokoImport::Lib(y)) => str_eq(x.as_str(), y.as_str()),
        (MotokoImport::Local(x), MotokoImport::Local(y)) => str_eq(x.as_str(), y.as_str()),
        _ => false,
    }
}

} // verus!
