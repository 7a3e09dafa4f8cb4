//! Textual principal identifiers (canister and storage ids), validated and
//! canonicalized through the `candid` crate.

use vstd::prelude::*;

verus! {

/// What parsing a textual principal yields: `None` when the text is not a
/// valid principal, otherwise its canonical (lower-case) text. The result
/// depends on the text alone.
pub uninterp spec fn principal_of_text(s: Seq<char>) -> Option<Seq<char>>;

/// Relies on candid's `Principal::from_text` and `Principal::to_text`:
/// parsing accepts exactly the textual principal grammar and `to_text`
/// renders the canonical form; both depend on the text alone, and
/// `from_text` returns an error rather than panicking on bad input.
#[verifier::external_body]
pub fn principal_from_text(s: &str) -> (r: Option<String>)
    ensures
        r is Some <==> principal_of_text(s@) is Some,
        r matches Some(t) ==> Some(t@) == principal_of_text(s@),
{
    match candid::Principal::from_text(s) {
        Ok(p) => Some(p.to_text()),
        Err(_) => None,
    }
}

/// Whether a text is a valid principal.
pub fn is_valid_principal(s: &str) -> (r: bool)
    ensures
        r == (principal_of_text(s@) is Some),
{
    principal_from_text(s).is_some()
}

} // verus!
