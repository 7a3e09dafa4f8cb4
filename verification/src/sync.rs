//! Synchronizing the manifest with the imports a scan discovered: every
//! library import gets pinned to a registry version, canister imports must
//! be declared, and external canister imports get a stub declaration.
//! Version lookups that fail are accumulated so one run reports every
//! unresolved library at once.

use vstd::prelude::*;

verus! {

/// One edit to make to the manifest document.
#[derive(Debug)]
pub enum ManifestEdit {
    /// Pin `name` to `version` in the dependency table.
    PinDependency { name: String, version: String },
    /// Append an id-only canister declaration.
    AddCanisterStub { id: String },
}

/// Why synchronization fails.
#[derive(Debug)]
pub enum SyncError {
    /// Libraries the registry does not know, all of them, reported after
    /// every import has been attempted.
    UnresolvedLibraries(Vec<String>),
    /// A canister import with no declaration to back it; the user must add
    /// one by hand, keyed by this name.
    MissingCanisterDeclaration(String),
}

/// Accumulates the edits one pass over the imports produces, and the
/// libraries that could not be resolved.
pub struct Synchronizer {
    /// Libraries the registry had no version for, in import order.
    pub unknown: Vec<String>,
    /// The edits to apply, in import order.
    pub edits: Vec<ManifestEdit>,
}

impl Synchronizer {
    /// Starts a pass with nothing resolved and nothing to edit.
    pub fn new() -> (r: Synchronizer)
        ensures
            r.unknown@ == Seq::<String>::empty(),
            r.edits@ == Seq::<ManifestEdit>::empty(),
    {
        Synchronizer { unknown: Vec::new(), edits: Vec::new() }
    }

    /// Takes one library import: one already pinned in the manifest needs
    /// nothing; otherwise the registry's highest version (when it has one)
    /// is pinned, and a library the registry does not know joins the
    /// unresolved list instead of failing the pass.
    pub fn lib_import(&mut self, name: String, already_pinned: bool, version: Option<String>)
        ensures
            already_pinned ==> *final(self) == *old(self),
            !already_pinned ==> match version {
                Some(v) => final(self).edits@ == old(self).edits@.push(
                    ManifestEdit::PinDependency { name, version: v },
                ) && final(self).unknown@ == old(self).unknown@,
                None => final(self).unknown@ == old(self).unknown@.push(name)
                    && final(self).edits@ == old(self).edits@,
            },
    {
        if already_pinned {
            return ;
        }
        match version {
            Some(v) => {
                self.edits.push(ManifestEdit::PinDependency { name, version: v });
            },
            None => {
                self.unknown.push(name);
            },
        }
    }

    /// Takes one canister import: it must already be declared in the
    /// manifest under its name; an undeclared one fails at once, naming the
    /// declaration to add.
    pub fn canister_import(&mut self, name: String, declared: bool) -> (r: Result<(), SyncError>)
        ensures
            *final(self) == *old(self),
            match r {
                Ok(()) => declared,
                Err(e) => !declared && (e matches SyncError::MissingCanisterDeclaration(n) && n@
                    == name@),
            },
    {
        if declared {
            Ok(())
        } else {
            Err(SyncError::MissingCanisterDeclaration(name))
        }
    }

    /// Takes one external canister import: one already declared under its id
    /// needs nothing; otherwise a minimal id-only declaration is added, with
    /// no error.
    pub fn ic_import(&mut self, id: String, declared: bool)
        ensures
            declared ==> *final(self) == *old(self),
            !declared ==> final(self).edits@ == old(self).edits@.push(
                ManifestEdit::AddCanisterStub { id },
            ) && final(self).unknown@ == old(self).unknown@,
    {
        if !declared {
            self.edits.push(ManifestEdit::AddCanisterStub { id });
        }
    }

    /// Ends the pass: succeeds only when every library import was resolved,
    /// and otherwise reports every unresolved library in one error.
    pub fn finish(self) -> (r: Result<Vec<ManifestEdit>, SyncError>)
        ensures
            match r {
                Ok(edits) => self.unknown@.len() == 0 && edits == self.edits,
                Err(e) => self.unknown@.len() > 0 && (e matches SyncError::UnresolvedLibraries(
                    u,
                ) && u == self.unknown),
            },
    {
        if self.unknown.len() == 0 {
            Ok(self.edits)
        } else {
            Err(SyncError::UnresolvedLibraries(self.unknown))
        }
    }
}

} // verus!
