//! Semantic versions: parsing (through the `semver` crate) and a fully
//! verified implementation of SemVer precedence, used to settle version
//! conflicts between packages that share a name.

use vstd::prelude::*;
use vstd::string::*;

use crate::strutil::{
    find_char, find_first, find_from_ensures, lex_lt, lex_lt_asymmetric, str_eq, str_lt, substr,
};

verus! {

/// A parsed semantic version. `pre` and `build` hold the pre-release and
/// build-metadata identifier lists as they appear in the version text
/// (without the leading `-` or `+`), empty when absent.
#[derive(Clone, Debug)]
pub struct SemVer {
    pub major: u64,
    pub minor: u64,
    pub patch: u64,
    pub pre: String,
    pub build: String,
}

/// What `semver::Version::parse` returns on a given text: `None` when the
/// text is rejected, otherwise major, minor, patch and the pre-release and
/// build-metadata strings. The result depends on the text alone.
pub uninterp spec fn semver_of(s: Seq<char>) -> Option<(u64, u64, u64, Seq<char>, Seq<char>)>;

/// Relies on `semver::Version::parse`: accepts exactly the SemVer 2.0
/// version grammar; the parsed fields are a function of the input text alone.
#[verifier::external_body]
pub fn parse_version(s: &str) -> (r: Option<SemVer>)
    ensures
        r is Some <==> semver_of(s@) is Some,
        r matches Some(v) ==> Some((v.major, v.minor, v.patch, v.pre@, v.build@)) == semver_of(
            s@,
        ),
{
    match s.parse::<semver::Version>() {
        Ok(v) => Some(
            SemVer {
                major: v.major,
                minor: v.minor,
                patch: v.patch,
                pre: v.pre.as_str().to_string(),
                build: v.build.as_str().to_string(),
            },
        ),
        Err(_) => None,
    }
}

/// An identifier consisting solely of ASCII digits. Numeric identifiers are
/// compared numerically; since they carry no leading zeros, that order is
/// length first, then lexicographic.
pub open spec fn is_numeric_ident(s: Seq<char>) -> bool {
    forall|i: int| 0 <= i < s.len() ==> 48 <= #[trigger] (s[i] as int) <= 57
}

/// SemVer precedence on single dot-separated identifiers: numeric before
/// alphanumeric; numeric against numeric by magnitude; alphanumeric against
/// alphanumeric in ASCII order.
pub open spec fn ident_lt(a: Seq<char>, b: Seq<char>) -> bool {
    if is_numeric_ident(a) && is_numeric_ident(b) {
        a.len() < b.len() || (a.len() == b.len() && lex_lt(a, b))
    } else if is_numeric_ident(a) {
        true
    } else if is_numeric_ident(b) {
        false
    } else {
        lex_lt(a, b)
    }
}

/// The dot-separated identifiers of `s`; an empty string yields one empty
/// identifier.
pub open spec fn split_dots(s: Seq<char>) -> Seq<Seq<char>>
    decreases s.len(),
    via split_dots_decreases
{
    match find_first(s, '.') {
        Some(i) => seq![s.subrange(0, i)] + split_dots(s.subrange(i + 1, s.len() as int)),
        None => seq![s],
    }
}

#[via_fn]
proof fn split_dots_decreases(s: Seq<char>) {
    find_from_ensures(s, '.', 0);
}

/// Lexicographic extension of `ident_lt` to identifier lists, a shorter list
/// preceding its extensions.
pub open spec fn idents_lt(a: Seq<Seq<char>>, b: Seq<Seq<char>>) -> bool
    decreases a.len(),
{
    if b.len() == 0 {
        false
    } else if a.len() == 0 {
        true
    } else if a[0] == b[0] {
        idents_lt(a.skip(1), b.skip(1))
    } else {
        ident_lt(a[0], b[0])
    }
}

/// Precedence on pre-release strings: a release (empty pre-release) follows
/// every pre-release; two pre-releases compare by their identifier lists.
pub open spec fn pre_lt(a: Seq<char>, b: Seq<char>) -> bool {
    if a.len() == 0 {
        false
    } else if b.len() == 0 {
        true
    } else {
        idents_lt(split_dots(a), split_dots(b))
    }
}

/// The total order on versions used for conflict resolution, over the plain
/// fields that `semver_of` names: major, minor, patch, then pre-release
/// precedence, then build metadata by identifier list (the order the
/// `semver` crate implements).
pub open spec fn semver_tuple_lt(
    a: (u64, u64, u64, Seq<char>, Seq<char>),
    b: (u64, u64, u64, Seq<char>, Seq<char>),
) -> bool {
    if a.0 != b.0 {
        a.0 < b.0
    } else if a.1 != b.1 {
        a.1 < b.1
    } else if a.2 != b.2 {
        a.2 < b.2
    } else if a.3 != b.3 {
        pre_lt(a.3, b.3)
    } else {
        idents_lt(split_dots(a.4), split_dots(b.4))
    }
}

/// The same order on parsed versions.
pub open spec fn semver_lt(a: SemVer, b: SemVer) -> bool {
    semver_tuple_lt(
        (a.major, a.minor, a.patch, a.pre@, a.build@),
        (b.major, b.minor, b.patch, b.pre@, b.build@),
    )
}

fn is_numeric_ident_exec(s: &str) -> (r: bool)
    ensures
        r == is_numeric_ident(s@),
{
    let n = s.unicode_len();
    let mut i: usize = 0;
    loop
        invariant
            n == s@.len(),
            i <= n,
            forall|j: int| 0 <= j < i ==> 48 <= #[trigger] (s@[j] as int) <= 57,
        decreases n - i,
    {
        if i == n {
            return true;
        }
        let c = s.get_char(i);
        let u = c as u32;
        if u < 48 || u > 57 {
            return false;
        }
        i = i + 1;
    }
}

fn ident_lt_exec(a: &str, b: &str) -> (r: bool)
    ensures
        r == ident_lt(a@, b@),
{
    let na = is_numeric_ident_exec(a);
    let nb = is_numeric_ident_exec(b);
    if na && nb {
        let la = a.unicode_len();
        let lb = b.unicode_len();
        if la < lb {
            true
        } else if la == lb {
            str_lt(a, b)
        } else {
            false
        }
    } else if na {
        true
    } else if nb {
        false
    } else {
        str_lt(a, b)
    }
}

/// The view of a list of strings as a sequence of character sequences.
pub open spec fn views_of(v: Seq<String>) -> Seq<Seq<char>> {
    v.map_values(|x: String| x@)
}

/// Splits `s` at every dot.
pub fn split_dots_exec(s: &str) -> (r: Vec<String>)
    ensures
        views_of(r@) == split_dots(s@),
{
    let mut out: Vec<String> = Vec::new();
    let mut rem: String = s.to_owned();
    loop
        invariant
            views_of(out@) + split_dots(rem@) =~~= split_dots(s@),
        decreases rem@.len(),
    {
        let ghost before = rem@;
        match find_char(rem.as_str(), '.') {
            Some(i) => {
                proof {
                    find_from_ensures(before, '.', 0);
                }
                let n = rem.unicode_len();
                let piece = substr(rem.as_str(), 0, i);
                let rest = substr(rem.as_str(), i + 1, n);
                out.push(piece);
                rem = rest;
                proof {
                    assert(split_dots(before) == seq![before.subrange(0, i as int)] + split_dots(
                        rem@,
                    ));
                    assert(views_of(out@) =~~= views_of(out@.drop_last()) + seq![
                        before.subrange(0, i as int),
                    ]);
                }
            },
            None => {
                out.push(rem);
                proof {
                    assert(split_dots(before) == seq![before]);
                    assert(views_of(out@) =~~= views_of(out@.drop_last()) + seq![before]);
                    assert(views_of(out@) =~~= split_dots(s@));
                }
                return out;
            },
        }
    }
}

fn idents_lt_exec(a: &Vec<String>, b: &Vec<String>) -> (r: bool)
    ensures
        r == idents_lt(views_of(a@), views_of(b@)),
{
    let mut i: usize = 0;
    proof {
        assert(views_of(a@).skip(0) =~~= views_of(a@));
        assert(views_of(b@).skip(0) =~~= views_of(b@));
    }
    loop
        invariant
            i <= a@.len(),
            i <= b@.len(),
            idents_lt(views_of(a@), views_of(b@)) == idents_lt(
                views_of(a@).skip(i as int),
                views_of(b@).skip(i as int),
            ),
        decreases a@.len() - i,
    {
        if i == b.len() {
            return false;
        }
        if i == a.len() {
            return true;
        }
        let sa = &a[i];
        let sb = &b[i];
        proof {
            assert(views_of(a@).skip(i as int)[0] == sa@);
            assert(views_of(b@).skip(i as int)[0] == sb@);
        }
        if str_eq(sa.as_str(), sb.as_str()) {
            proof {
                assert(views_of(a@).skip(i as int).skip(1) =~~= views_of(a@).skip(i + 1));
                assert(views_of(b@).skip(i as int).skip(1) =~~= views_of(b@).skip(i + 1));
            }
            i = i + 1;
        } else {
            return ident_lt_exec(sa.as_str(), sb.as_str());
        }
    }
}

fn pre_lt_exec(a: &str, b: &str) -> (r: bool)
    ensures
        r == pre_lt(a@, b@),
{
    if a.unicode_len() == 0 {
        false
    } else if b.unicode_len() == 0 {
        true
    } else {
        let sa = split_dots_exec(a);
        let sb = split_dots_exec(b);
        idents_lt_exec(&sa, &sb)
    }
}

/// Decides SemVer precedence between two parsed versions.
pub fn version_lt(a: &SemVer, b: &SemVer) -> (r: bool)
    ensures
        r == semver_lt(*a, *b),
{
    if a.major != b.major {
        a.major < b.major
    } else if a.minor != b.minor {
        a.minor < b.minor
    } else if a.patch != b.patch {
        a.patch < b.patch
    } else if !str_eq(a.pre.as_str(), b.pre.as_str()) {
        pre_lt_exec(a.pre.as_str(), b.pre.as_str())
    } else {
        let sa = split_dots_exec(a.build.as_str());
        let sb = split_dots_exec(b.build.as_str());
        idents_lt_exec(&sa, &sb)
    }
}

pub proof fn ident_lt_asymmetric(a: Seq<char>, b: Seq<char>)
    ensures
        ident_lt(a, b) ==> !ident_lt(b, a),
{
    lex_lt_asymmetric(a, b);
    lex_lt_asymmetric(b, a);
}

pub proof fn idents_lt_asymmetric(a: Seq<Seq<char>>, b: Seq<Seq<char>>)
    ensures
        idents_lt(a, b) ==> !idents_lt(b, a),
    decreases a.len(),
{
    if a.len() > 0 && b.len() > 0 {
        if a[0] == b[0] {
            idents_lt_asymmetric(a.skip(1), b.skip(1));
        } else {
            ident_lt_asymmetric(a[0], b[0]);
            ident_lt_asymmetric(b[0], a[0]);
        }
    }
}

pub proof fn pre_lt_asymmetric(a: Seq<char>, b: Seq<char>)
    ensures
        pre_lt(a, b) ==> !pre_lt(b, a),
{
    idents_lt_asymmetric(split_dots(a), split_dots(b));
}

/// The version order never holds both ways.
pub proof fn semver_tuple_lt_asymmetric(
    a: (u64, u64, u64, Seq<char>, Seq<char>),
    b: (u64, u64, u64, Seq<char>, Seq<char>),
)
    ensures
        semver_tuple_lt(a, b) ==> !semver_tuple_lt(b, a),
{
    pre_lt_asymmetric(a.3, b.3);
    idents_lt_asymmetric(split_dots(a.4), split_dots(b.4));
}

/// Index of the first ASCII digit in `s` at or after position `i`.
pub open spec fn find_digit_from(s: Seq<char>, i: int) -> Option<int>
    decreases s.len() - i,
{
    if i < 0 || i >= s.len() {
        None
    } else if 48 <= s[i] as int <= 57 {
        Some(i)
    } else {
        find_digit_from(s, i + 1)
    }
}

/// A version text guessed from a release tag: the tag's tail from its first
/// ASCII digit, when that tail parses as a semantic version.
pub open spec fn guessed_version(tag: Seq<char>) -> Option<Seq<char>> {
    match find_digit_from(tag, 0) {
        Some(i) => {
            let tail = tag.skip(i);
            if semver_of(tail) is Some {
                Some(tail)
            } else {
                None
            }
        },
        None => None,
    }
}

/// Extracts a version from a tag name such as `v1.2.0`: the tail of the tag
/// from its first ASCII digit, when that tail is a valid semantic version.
pub fn guess_version_from_tag(tag: &str) -> (r: Option<String>)
    ensures
        match r {
            Some(v) => guessed_version(tag@) == Some(v@),
            None => guessed_version(tag@) is None,
        },
{
    let n = tag.unicode_len();
    let mut i: usize = 0;
    loop
        invariant
            n == tag@.len(),
            i <= n,
            find_digit_from(tag@, 0) == find_digit_from(tag@, i as int),
        decreases n - i,
    {
        if i == n {
            return None;
        }
        let c = tag.get_char(i);
        let u = c as u32;
        if 48 <= u && u <= 57 {
            proof {
                assert(48 <= c as int <= 57);
                assert(find_digit_from(tag@, i as int) == Some(i as int));
            }
            let tail = substr(tag, i, n);
            proof {
                assert(tail@ == tag@.skip(i as int));
            }
            return match parse_version(tail.as_str()) {
                Some(_) => Some(tail),
                None => None,
            };
        }
        i = i + 1;
    }
}

} // verus!
