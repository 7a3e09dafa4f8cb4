use mops_cli::canisters::{
    canister_plan, fetched_record, static_record, upsert_canister, CanisterAction, CanisterError,
};
use mops_cli::lock::{Canister, CanisterInfo};

fn type_only_decl() -> CanisterInfo {
    CanisterInfo {
        canister_id: None,
        name: Some("types".to_string()),
        candid: Some("/proj/service.did".to_string()),
        output: Some("/proj/target/Service.mo".to_string()),
    }
}

fn id_decl() -> CanisterInfo {
    CanisterInfo {
        canister_id: Some("aaaaa-aa".to_string()),
        name: Some("mgmt".to_string()),
        candid: None,
        output: None,
    }
}

#[test]
fn type_only_entry_needs_no_network() {
    // An entry with only an interface file and an output compiles locally:
    // the plan never asks for a fetch.
    match canister_plan(None, &type_only_decl()) {
        Ok(CanisterAction::UseStatic) => {}
        other => panic!("unexpected {:?}", other),
    }
    let rec = static_record(type_only_decl());
    assert!(rec.timestamp.is_none());
    assert_eq!(rec.candid, "/proj/service.did");
    assert_eq!(rec.output.as_deref(), Some("/proj/target/Service.mo"));
}

#[test]
fn id_entry_fetches_once_then_hits_the_cache() {
    // First pass: an id-backed entry fetches the live interface and records
    // a timestamp.
    match canister_plan(None, &id_decl()) {
        Ok(CanisterAction::FetchLive { id }) => assert_eq!(id, "aaaaa-aa"),
        other => panic!("unexpected {:?}", other),
    }
    let rec = fetched_record(id_decl(), "1700000000s".to_string(), "service {}".to_string());
    assert_eq!(rec.timestamp.as_deref(), Some("1700000000s"));
    // Second pass: the recorded timestamp answers the same declaration with
    // no re-fetch.
    match canister_plan(Some(&rec), &id_decl()) {
        Ok(CanisterAction::Keep) => {}
        other => panic!("unexpected {:?}", other),
    }
}

#[test]
fn invalid_canister_id_is_rejected() {
    let decl = CanisterInfo {
        canister_id: Some("not-a-principal".to_string()),
        name: None,
        candid: None,
        output: None,
    };
    match canister_plan(None, &decl) {
        Err(CanisterError::InvalidId(id)) => assert_eq!(id, "not-a-principal"),
        other => panic!("unexpected {:?}", other),
    }
}

#[test]
fn upsert_orders_by_key_and_replaces_in_place() {
    let mk = |name: &str, candid: &str| Canister {
        canister_id: None,
        name: Some(name.to_string()),
        timestamp: None,
        output: Some("/o".to_string()),
        candid: candid.to_string(),
    };
    let mut list: Vec<Canister> = Vec::new();
    upsert_canister(&mut list, mk("zeta", "z1"));
    upsert_canister(&mut list, mk("alpha", "a1"));
    upsert_canister(&mut list, mk("mid", "m1"));
    let keys: Vec<String> = list.iter().map(|c| c.get_key()).collect();
    assert_eq!(keys, vec!["alpha", "mid", "zeta"]);
    // Replacing an existing key keeps the order and swaps the record.
    upsert_canister(&mut list, mk("mid", "m2"));
    assert_eq!(list.len(), 3);
    assert_eq!(list[1].candid, "m2");
}
