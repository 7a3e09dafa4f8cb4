//! Synchronizing the lockfile's canister records with the manifest's
//! declarations: deciding which declarations need a live interface fetch,
//! which are satisfied by a static interface file, and which existing
//! records can be kept untouched.

use vstd::prelude::*;

use crate::lock::{Canister, CanisterInfo};
use crate::manifest::spec_canister_violation;
use crate::principal::{is_valid_principal, principal_of_text};
use crate::strutil::{
    lex_lt, lex_lt_connected, lex_lt_irreflexive, lex_lt_transitive, str_eq, str_lt,
};

verus! {

/// What one canister declaration requires of this pass.
#[derive(Debug)]
pub enum CanisterAction {
    /// The existing record already covers the declaration: no network call,
    /// no rewrite.
    Keep,
    /// The declaration carries a static interface file: record it with no
    /// network call and no timestamp.
    UseStatic,
    /// The declaration is id-backed and stale or new: fetch the live
    /// interface of this canister id and record it with a fresh timestamp.
    FetchLive { id: String },
}

/// Why the canister phase fails.
#[derive(Debug)]
pub enum CanisterError {
    /// An id-backed declaration's canister id is not a valid principal.
    InvalidId(String),
}

/// Decides what a declaration needs, given the record currently held under
/// its key. A record that still covers the declaration is kept; a
/// declaration with a static interface needs no network; only an id-backed
/// declaration without a covering record fetches, and only with a valid id.
pub fn canister_plan(existing: Option<&Canister>, new: &CanisterInfo) -> (r: Result<
    CanisterAction,
    CanisterError,
>)
    requires
        spec_canister_violation(*new) is None,
    ensures
        match r {
            Ok(a) => match a {
                CanisterAction::Keep => existing matches Some(c)
                    && c.spec_no_need_to_update(*new),
                CanisterAction::UseStatic => {
                    &&& !(existing matches Some(c) && c.spec_no_need_to_update(*new))
                    &&& new.candid is Some
                },
                CanisterAction::FetchLive { id } => {
                    &&& !(existing matches Some(c) && c.spec_no_need_to_update(*new))
                    &&& new.candid is None
                    &&& new.canister_id matches Some(i) && id@ == i@
                    &&& principal_of_text(id@) is Some
                },
            },
            Err(e) => {
                &&& !(existing matches Some(c) && c.spec_no_need_to_update(*new))
                &&& new.candid is None
                &&& e matches CanisterError::InvalidId(id) && new.canister_id matches Some(i)
                    && id@ == i@ && principal_of_text(id@) is None
            },
        },
{
    if let Some(c) = existing {
        if c.no_need_to_update(new) {
            return Ok(CanisterAction::Keep);
        }
    }
    if new.candid.is_some() {
        return Ok(CanisterAction::UseStatic);
    }
    match &new.canister_id {
        Some(id) => {
            if is_valid_principal(id.as_str()) {
                Ok(CanisterAction::FetchLive { id: id.clone() })
            } else {
                Err(CanisterError::InvalidId(id.clone()))
            }
        },
        None => {
            proof {
                assert(false);
            }
            unreached()
        },
    }
}

/// The record a static declaration produces: the declaration's interface
/// path, no timestamp.
pub fn static_record(new: CanisterInfo) -> (r: Canister)
    requires
        new.candid is Some,
    ensures
        r.canister_id == new.canister_id,
        r.name == new.name,
        r.output == new.output,
        r.timestamp is None,
        r.candid == new.candid->0,
        r.wf() == new.wf(),
{
    let candid = match new.candid {
        Some(c) => c,
        None => {
            proof {
                assert(false);
            }
            unreached()
        },
    };
    Canister {
        canister_id: new.canister_id,
        name: new.name,
        timestamp: None,
        output: new.output,
        candid,
    }
}

/// The record a live fetch produces: the fetched interface and the fetch's
/// timestamp.
pub fn fetched_record(new: CanisterInfo, timestamp: String, candid: String) -> (r: Canister)
    ensures
        r.canister_id == new.canister_id,
        r.name == new.name,
        r.output == new.output,
        r.timestamp matches Some(t) && t@ == timestamp@,
        r.candid == candid,
        r.wf() == new.wf(),
{
    Canister {
        canister_id: new.canister_id,
        name: new.name,
        timestamp: Some(timestamp),
        output: new.output,
        candid,
    }
}

/// The records are well-formed and strictly ordered by key (so no key
/// repeats).
pub open spec fn canisters_ordered(s: Seq<Canister>) -> bool {
    &&& (forall|i: int| 0 <= i < s.len() ==> (#[trigger] s[i]).wf())
    &&& (forall|i: int, j: int|
        0 <= i < j < s.len() ==> lex_lt((#[trigger] s[i]).spec_key(), (#[trigger] s[j]).spec_key()))
}

/// Some record carries the key `k`.
pub open spec fn has_canister_key(s: Seq<Canister>, k: Seq<char>) -> bool {
    exists|i: int| 0 <= i < s.len() && (#[trigger] s[i]).spec_key() == k
}

/// Inserts or replaces the record under `c`'s key, keeping the list ordered:
/// the record under a key always reflects the latest pass over it, and every
/// other record stays.
pub fn upsert_canister(list: &mut Vec<Canister>, c: Canister)
    requires
        canisters_ordered(old(list)@),
        c.wf(),
    ensures
        canisters_ordered(final(list)@),
        has_canister_key(final(list)@, c.spec_key()),
        forall|i: int|
            0 <= i < old(list)@.len() && (#[trigger] old(list)@[i]).spec_key() != c.spec_key()
                ==> final(list)@.contains(old(list)@[i]),
        forall|i: int|
            0 <= i < final(list)@.len() && (#[trigger] final(list)@[i]).spec_key() == c.spec_key()
                ==> final(list)@[i] == c,
{
    let key = c.get_key();
    let ghost kv = c.spec_key();
    let ghost cv = c;
    let ghost before = list@;
    let mut i: usize = 0;
    loop
        invariant
            canisters_ordered(list@),
            before == old(list)@,
            list@ == before,
            c == cv,
            cv.wf(),
            kv == cv.spec_key(),
            key@ == kv,
            i <= list@.len(),
            forall|j: int| 0 <= j < i ==> lex_lt((#[trigger] list@[j]).spec_key(), kv),
        decreases list@.len() - i,
    {
        if i == list.len() {
            list.insert(i, c);
            proof {
                insert_keeps_order(before, list@, cv, i as int);
            }
            return ;
        }
        let cur = list[i].compare_key(&key);
        match cur {
            KeyCompare::Equal => {
                let _old = list.remove(i);
                list.insert(i, c);
                proof {
                    assert(list@ =~= before.update(i as int, cv));
                    replace_keeps_order(before, list@, cv, i as int);
                }
                return ;
            },
            KeyCompare::CurrentSmaller => {
                i = i + 1;
            },
            KeyCompare::CurrentGreater => {
                proof {
                    lex_lt_connected(list@[i as int].spec_key(), kv);
                }
                list.insert(i, c);
                proof {
                    insert_keeps_order(before, list@, cv, i as int);
                }
                return ;
            },
        }
    }
}

/// How a record's key compares with a sought key.
enum KeyCompare {
    Equal,
    CurrentSmaller,
    CurrentGreater,
}

impl Canister {
    /// Compares this record's key with `key`.
    fn compare_key(&self, key: &String) -> (r: KeyCompare)
        requires
            self.wf(),
        ensures
            match r {
                KeyCompare::Equal => self.spec_key() == key@,
                KeyCompare::CurrentSmaller => lex_lt(self.spec_key(), key@),
                KeyCompare::CurrentGreater => !lex_lt(self.spec_key(), key@) && self.spec_key()
                    != key@,
            },
{
        let mine = self.get_key();
        if str_eq(mine.as_str(), key.as_str()) {
            KeyCompare::Equal
        } else if str_lt(mine.as_str(), key.as_str()) {
            KeyCompare::CurrentSmaller
        } else {
            KeyCompare::CurrentGreater
        }
    }
}

/// Inserting `c` at a position where everything before strictly precedes its
/// key and everything from there on strictly follows it keeps the order and
/// the other records.
proof fn insert_keeps_order(before: Seq<Canister>, after: Seq<Canister>, c: Canister, pos: int)
    requires
        canisters_ordered(before),
        c.wf(),
        0 <= pos <= before.len(),
        after == before.insert(pos, c),
        forall|j: int| 0 <= j < pos ==> lex_lt((#[trigger] before[j]).spec_key(), c.spec_key()),
        pos < before.len() ==> !lex_lt(before[pos].spec_key(), c.spec_key())
            && before[pos].spec_key() != c.spec_key(),
    ensures
        canisters_ordered(after),
        has_canister_key(after, c.spec_key()),
        forall|i: int|
            0 <= i < before.len() && (#[trigger] before[i]).spec_key() != c.spec_key()
                ==> after.contains(before[i]),
        forall|i: int|
            0 <= i < after.len() && (#[trigger] after[i]).spec_key() == c.spec_key() ==> after[i]
                == c,
{
    let kv = c.spec_key();
    assert forall|i: int| 0 <= i < after.len() implies after[i] == (if i < pos {
        before[i]
    } else if i == pos {
        c
    } else {
        before[i - 1]
    }) by {
        assert(after =~= before.subrange(0, pos) + seq![c] + before.skip(pos));
    }
    assert(after[pos] == c);
    assert forall|a: int, b: int| 0 <= a < b < after.len() implies lex_lt(
        (#[trigger] after[a]).spec_key(),
        (#[trigger] after[b]).spec_key(),
    ) by {
        if a == pos && b > pos {
            lex_lt_connected(kv, before[pos].spec_key());
            if b - 1 > pos {
                lex_lt_transitive(kv, before[pos].spec_key(), before[b - 1].spec_key());
            }
        }
    }
    assert forall|i: int|
        0 <= i < before.len() && (#[trigger] before[i]).spec_key() != kv implies after.contains(
        before[i],
    ) by {
        if i < pos {
            assert(after[i] == before[i]);
        } else {
            assert(after[i + 1] == before[i]);
        }
    }
    assert forall|i: int|
        0 <= i < after.len() && (#[trigger] after[i]).spec_key() == kv implies after[i] == c by {
        if i < pos {
            lex_lt_irreflexive(kv);
        } else if i > pos {
            lex_lt_connected(kv, before[pos].spec_key());
            if i - 1 > pos {
                lex_lt_transitive(kv, before[pos].spec_key(), before[i - 1].spec_key());
            }
            lex_lt_irreflexive(kv);
        }
    }
}

/// Replacing the record that already carries `c`'s key keeps the order and
/// the other records.
proof fn replace_keeps_order(before: Seq<Canister>, after: Seq<Canister>, c: Canister, pos: int)
    requires
        canisters_ordered(before),
        c.wf(),
        0 <= pos < before.len(),
        before[pos].spec_key() == c.spec_key(),
        after == before.update(pos, c),
    ensures
        canisters_ordered(after),
        has_canister_key(after, c.spec_key()),
        forall|i: int|
            0 <= i < before.len() && (#[trigger] before[i]).spec_key() != c.spec_key()
                ==> after.contains(before[i]),
        forall|i: int|
            0 <= i < after.len() && (#[trigger] after[i]).spec_key() == c.spec_key() ==> after[i]
                == c,
{
    let kv = c.spec_key();
    assert(after[pos] == c);
    assert forall|i: int|
        0 <= i < before.len() && (#[trigger] before[i]).spec_key() != kv implies after.contains(
        before[i],
    ) by {
        assert(after[i] == before[i]);
    }
    assert forall|i: int|
        0 <= i < after.len() && (#[trigger] after[i]).spec_key() == kv implies after[i] == c by {
        if i != pos {
            assert(after[i] == before[i]);
            lex_lt_irreflexive(kv);
        }
    }
}

} // verus!
