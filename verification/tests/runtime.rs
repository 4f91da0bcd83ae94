use contract_ffi::account::PublicKey;
use contract_ffi::block_time::BlockTime;
use contract_ffi::cl_type::CLType;
use contract_ffi::cl_value::{open_envelope, CLTypeMismatch, CLValue, CLValueError};
use contract_ffi::contracts::{EntryPoint, EntryPointAccess, EntryPointType, EntryPoints, Parameter};
use contract_ffi::error::ApiError;
use contract_ffi::execution::Phase;
use contract_ffi::host::{Host, Staged};
use contract_ffi::key::Key;
use contract_ffi::ledger::{mint, Ledger};
use contract_ffi::model::{Fetched, Status};
use contract_ffi::named_keys::NamedKeys;
use contract_ffi::runtime::{
    alloc_bytes, call_contract, get_arg, get_blocktime, get_call_result, get_caller, get_key,
    get_phase, has_key, is_valid_uref, key_is_present, list_named_keys, load_arg, put_key,
    remove_key, ret, revert, size_or_absent, upgrade_contract_at_uref, uref_is_valid, ContractRef,
};
use contract_ffi::storage::new_contract;
use contract_ffi::transfer_purse_to_account_stored::{
    call, ACCESS_KEY_NAME, ARG_0_NAME, ARG_1_NAME, ENTRY_FUNCTION_NAME, HASH_KEY_NAME,
    PACKAGE_HASH_KEY_NAME,
};
use contract_ffi::uref::{AccessRights, URef};

fn signer() -> PublicKey {
    PublicKey::new([7u8; 32])
}

fn begin(ledger: Ledger, args: Vec<CLValue>) -> Host {
    Host::new(ledger, signer(), BlockTime::new(1000), Phase::Payment, args)
}

fn table(name: &str) -> EntryPoints {
    let mut t = EntryPoints::new();
    t.add_entry_point(EntryPoint::new(
        String::from(name),
        Vec::new(),
        CLType::Unit,
        EntryPointAccess::Public,
        EntryPointType::Contract,
    ));
    t
}

fn full(addr: [u8; 32]) -> URef {
    URef::new(addr, AccessRights::read_add_write())
}

fn unit() -> CLValue {
    CLValue::from_t(()).unwrap()
}

fn ledger_with_contracts(n: usize) -> Ledger {
    let mut host = begin(Ledger::new(), Vec::new());
    for _ in 0..n {
        new_contract(&mut host, table("f"), None, None, None).unwrap();
    }
    ret(&mut host, unit(), Vec::new());
    assert_eq!(host.status(), Status::Returned);
    host.into_ledger()
}

#[test]
fn buffers_and_sizes() {
    assert_eq!(alloc_bytes(0), Vec::new());
    assert_eq!(alloc_bytes(3), vec![0u8, 0, 0]);
    assert_eq!(size_or_absent(-1), None);
    assert_eq!(size_or_absent(i64::MIN), None);
    assert_eq!(size_or_absent(0), Some(0));
    assert_eq!(size_or_absent(38), Some(38));
    assert_eq!(ContractRef::Hash([1u8; 32]).into_key(), Key::Hash([1u8; 32]));
    assert_eq!(ContractRef::URef(full([1u8; 32])).into_key(), Key::URef(full([1u8; 32])));
}

#[test]
fn arguments_are_positional() {
    let args = vec![
        CLValue::from_t(7u32).unwrap(),
        CLValue::from_t(String::from("to")).unwrap(),
        CLValue::from_t(Key::Hash([1u8; 32])).unwrap(),
    ];
    let mut host = begin(Ledger::new(), args);
    assert_eq!(get_arg::<u32>(&mut host, 0), Some(Ok(7u32)));
    assert_eq!(get_arg::<String>(&mut host, 1), Some(Ok(String::from("to"))));
    assert_eq!(get_arg::<Key>(&mut host, 2), Some(Ok(Key::Hash([1u8; 32]))));
    assert_eq!(get_arg::<u32>(&mut host, 0), Some(Ok(7u32)));
    assert_eq!(host.staged(), &Staged::Nothing);
}

#[test]
fn an_argument_that_was_not_supplied_is_absent() {
    let mut host = begin(Ledger::new(), vec![CLValue::from_t(7u32).unwrap()]);
    assert_eq!(get_arg::<u32>(&mut host, 1), None);
    assert_eq!(get_arg::<u32>(&mut host, u32::MAX), None);
    assert_eq!(load_arg(&mut host, 1), None);
    assert_eq!(load_arg(&mut host, 0), Some(9));
    let mut none = begin(Ledger::new(), Vec::new());
    assert_eq!(get_arg::<()>(&mut none, 0), None);
}

#[test]
fn an_argument_of_another_type_is_a_failure_not_an_absence() {
    let args = vec![
        CLValue::from_t(7u32).unwrap(),
        CLValue::from_components(CLType::U64, vec![1u8, 2]),
    ];
    let mut host = begin(Ledger::new(), args);
    assert_eq!(
        get_arg::<u64>(&mut host, 0),
        Some(Err(CLValueError::Type(CLTypeMismatch { expected: CLType::U64, found: CLType::U32 })))
    );
    assert_eq!(
        get_arg::<u64>(&mut host, 1),
        Some(Err(CLValueError::Serialization(contract_ffi::bytesrepr::Error::EarlyEndOfStream)))
    );
    assert_eq!(host.status(), Status::Running);
}

#[test]
fn facts_about_the_transaction() {
    let host = begin(Ledger::new(), Vec::new());
    assert_eq!(get_caller(&host), signer());
    assert_eq!(get_blocktime(&host), BlockTime::new(1000));
    assert_eq!(get_phase(&host), Phase::Payment);
}

#[test]
fn resolve_exists_bind_unbind() {
    let mut host = begin(Ledger::new(), Vec::new());
    assert_eq!(get_key(&mut host, "a"), None);
    assert!(!has_key(&host, "a"));
    put_key(&mut host, "a", Key::Hash([1u8; 32]));
    assert_eq!(get_key(&mut host, "a"), Some(Key::Hash([1u8; 32])));
    assert!(has_key(&host, "a"));
    put_key(&mut host, "a", Key::Account([2u8; 32]));
    assert_eq!(get_key(&mut host, "a"), Some(Key::Account([2u8; 32])));
    put_key(&mut host, "é", Key::Hash([3u8; 32]));
    assert_eq!(get_key(&mut host, "é"), Some(Key::Hash([3u8; 32])));
    remove_key(&mut host, "a");
    assert_eq!(get_key(&mut host, "a"), None);
    assert!(!has_key(&host, "a"));
    remove_key(&mut host, "a");
    assert!(has_key(&host, "é"));
    assert_eq!(host.status(), Status::Running);
}

#[test]
fn an_absent_key_is_not_fetched() {
    let mut host = begin(Ledger::new(), vec![CLValue::from_t(1u8).unwrap()]);
    assert_eq!(get_key(&mut host, "missing"), None);
    assert_eq!(host.staged(), &Staged::Nothing);
    assert_eq!(host.fetched(), &Vec::new());
    assert_eq!(get_arg::<u8>(&mut host, 1), None);
    assert_eq!(host.fetched(), &Vec::new());
    assert_eq!(host.status(), Status::Running);
    put_key(&mut host, "there", Key::Hash([1u8; 32]));
    assert_eq!(get_key(&mut host, "there"), Some(Key::Hash([1u8; 32])));
    assert_eq!(host.fetched(), &vec![Fetched::NamedKey]);
    assert_eq!(get_arg::<u8>(&mut host, 0), Some(Ok(1u8)));
    assert_eq!(get_key(&mut host, "missing"), None);
    assert!(list_named_keys(&mut host).is_some());
    assert_eq!(
        host.fetched(),
        &vec![Fetched::NamedKey, Fetched::Argument, Fetched::NamedKeys]
    );
    assert!(has_key(&host, "there"));
    assert_eq!(get_call_result(&mut host), None);
    assert_eq!(host.fetched().len(), 3);
}

#[test]
fn enumeration_is_in_the_order_of_names() {
    let mut host = begin(Ledger::new(), Vec::new());
    put_key(&mut host, "c", Key::Hash([3u8; 32]));
    put_key(&mut host, "a", Key::Hash([1u8; 32]));
    put_key(&mut host, "b", Key::Hash([2u8; 32]));
    let keys = list_named_keys(&mut host).unwrap();
    assert_eq!(keys.len(), 3);
    assert_eq!(keys.name_at(0), "a");
    assert_eq!(keys.name_at(1), "b");
    assert_eq!(keys.name_at(2), "c");
    assert_eq!(keys.key_at(1), Key::Hash([2u8; 32]));
    let mut other = begin(Ledger::new(), Vec::new());
    put_key(&mut other, "b", Key::Hash([2u8; 32]));
    put_key(&mut other, "c", Key::Hash([3u8; 32]));
    put_key(&mut other, "a", Key::Hash([1u8; 32]));
    assert_eq!(list_named_keys(&mut other).unwrap(), keys);
    let mut empty = begin(Ledger::new(), Vec::new());
    assert_eq!(list_named_keys(&mut empty), Some(NamedKeys::new()));
}

#[test]
fn a_reference_that_was_never_issued_is_not_valid() {
    let mut host = begin(Ledger::new(), Vec::new());
    assert!(!is_valid_uref(&host, full([5u8; 32])));
    assert!(!is_valid_uref(&host, URef::new([5u8; 32], AccessRights::none())));
    let key = new_contract(&mut host, table("f"), None, None, None).unwrap();
    assert_eq!(key, Key::Hash(mint(0)));
    assert!(is_valid_uref(&host, full(mint(0))));
    assert!(is_valid_uref(&host, URef::new(mint(0), AccessRights::read())));
    assert!(!is_valid_uref(&host, full(mint(1))));
}

#[test]
fn binding_a_reference_that_was_never_issued_binds_it_and_grants_nothing() {
    let mut host = begin(Ledger::new(), Vec::new());
    let forged = URef::new([5u8; 32], AccessRights::read());
    assert!(!is_valid_uref(&host, forged));
    put_key(&mut host, "kept", Key::Hash([1u8; 32]));
    put_key(&mut host, "a", Key::URef(forged));
    assert_eq!(host.status(), Status::Running);
    assert_eq!(host.depth(), 1);
    assert_eq!(get_key(&mut host, "a"), Some(Key::URef(forged)));
    assert_eq!(get_key(&mut host, "kept"), Some(Key::Hash([1u8; 32])));
    assert_eq!(host.current().capabilities(), &Vec::new());
    assert!(!is_valid_uref(&host, forged));
    assert!(!is_valid_uref(&host, forged.with_access_rights(AccessRights::none())));
    ret(&mut host, unit(), Vec::new());
    assert_eq!(host.status(), Status::Returned);
    let left = host.into_ledger();
    assert_eq!(left.account().get("a"), Some(Key::URef(forged)));
    assert_eq!(left.granted(), &Vec::new());
    let mut next = begin(left, Vec::new());
    assert_eq!(get_key(&mut next, "a"), Some(Key::URef(forged)));
    assert!(!is_valid_uref(&next, forged));
    assert_eq!(next.current().capabilities(), &Vec::new());
}

#[test]
fn binding_over_a_bound_name_replaces_the_binding() {
    let mut host = begin(Ledger::new(), Vec::new());
    put_key(&mut host, "a", Key::Hash([1u8; 32]));
    put_key(&mut host, "b", Key::Hash([2u8; 32]));
    put_key(&mut host, "a", Key::URef(full([7u8; 32])));
    assert_eq!(host.status(), Status::Running);
    assert_eq!(get_key(&mut host, "a"), Some(Key::URef(full([7u8; 32]))));
    assert_eq!(get_key(&mut host, "b"), Some(Key::Hash([2u8; 32])));
    assert_eq!(list_named_keys(&mut host).unwrap().len(), 2);
    put_key(&mut host, "a", Key::Account([3u8; 32]));
    assert_eq!(get_key(&mut host, "a"), Some(Key::Account([3u8; 32])));
    assert_eq!(list_named_keys(&mut host).unwrap().len(), 2);
}

#[test]
fn a_contract_cannot_bind_its_way_to_another_record() {
    let mut host = begin(ledger_with_contracts(2), Vec::new());
    assert!(call_contract(&mut host, ContractRef::Hash(mint(0)), &Vec::new(), &Vec::new()));
    put_key(&mut host, "theirs", Key::URef(full(mint(1))));
    assert!(!is_valid_uref(&host, full(mint(1))));
    ret(&mut host, unit(), Vec::new());
    assert_eq!(host.status(), Status::Running);
    assert_eq!(host.working().record(0).granted(), &Vec::new());
    assert!(call_contract(&mut host, ContractRef::Hash(mint(0)), &Vec::new(), &Vec::new()));
    assert_eq!(get_key(&mut host, "theirs"), Some(Key::URef(full(mint(1)))));
    assert!(!is_valid_uref(&host, full(mint(1))));
    assert!(!is_valid_uref(&host, URef::new(mint(1), AccessRights::read())));
    upgrade_contract_at_uref(&mut host, "mine", full(mint(1)));
    assert_eq!(host.status(), Status::Reverted(16));
}

#[test]
fn what_was_handed_on_and_bound_is_recognised_at_the_next_call() {
    let mut host = begin(ledger_with_contracts(1), Vec::new());
    new_contract(&mut host, table("g"), None, None, None).unwrap();
    let read_only = URef::new(mint(1), AccessRights::read());
    let handed = vec![Key::URef(read_only)];
    assert!(call_contract(&mut host, ContractRef::Hash(mint(0)), &Vec::new(), &handed));
    put_key(&mut host, "kept", Key::URef(read_only));
    put_key(&mut host, "wider", Key::URef(full(mint(1))));
    ret(&mut host, unit(), Vec::new());
    assert_eq!(host.working().record(0).granted(), &vec![read_only]);
    assert!(call_contract(&mut host, ContractRef::Hash(mint(0)), &Vec::new(), &Vec::new()));
    assert!(is_valid_uref(&host, read_only));
    assert!(!is_valid_uref(&host, full(mint(1))));
    assert_eq!(host.current().capabilities(), &vec![read_only]);
}

#[test]
fn statuses_and_envelopes_are_read() {
    assert!(key_is_present(0));
    assert!(!key_is_present(1));
    assert!(!key_is_present(-1));
    assert!(uref_is_valid(1));
    assert!(uref_is_valid(-7));
    assert!(!uref_is_valid(0));
    assert_eq!(open_envelope::<u32>(&[4u8, 0, 0, 0, 7, 0, 0, 0, 4]), Ok(7u32));
    assert_eq!(
        open_envelope::<u64>(&[4u8, 0, 0, 0, 7, 0, 0, 0, 4]),
        Err(CLValueError::Type(CLTypeMismatch { expected: CLType::U64, found: CLType::U32 }))
    );
    assert_eq!(
        open_envelope::<u32>(&[4u8, 0, 0]),
        Err(CLValueError::Serialization(contract_ffi::bytesrepr::Error::EarlyEndOfStream))
    );
    assert_eq!(
        open_envelope::<u32>(&[2u8, 0, 0, 0, 7, 0, 4]),
        Err(CLValueError::Serialization(contract_ffi::bytesrepr::Error::EarlyEndOfStream))
    );
}

#[test]
fn rights_are_never_widened_on_the_way_to_a_callee() {
    let mut host = begin(ledger_with_contracts(1), Vec::new());
    new_contract(&mut host, table("g"), None, None, None).unwrap();
    let read_only = URef::new(mint(1), AccessRights::read());
    assert!(call_contract(
        &mut host,
        ContractRef::Hash(mint(0)),
        &Vec::new(),
        &vec![Key::URef(read_only)]
    ));
    assert!(is_valid_uref(&host, read_only));
    assert!(is_valid_uref(&host, read_only.with_access_rights(AccessRights::none())));
    assert!(!is_valid_uref(&host, full(mint(1))));
    assert!(!is_valid_uref(&host, URef::new(mint(1), AccessRights::write())));
    upgrade_contract_at_uref(&mut host, "h", full(mint(1)));
    assert_eq!(host.status(), Status::Reverted(16));
}

#[test]
fn forwarding_what_is_not_held_aborts() {
    let mut host = begin(ledger_with_contracts(1), Vec::new());
    assert!(!call_contract(
        &mut host,
        ContractRef::Hash(mint(0)),
        &Vec::new(),
        &vec![Key::URef(full(mint(0)))]
    ));
    assert_eq!(host.status(), Status::Reverted(16));
}

#[test]
fn a_callee_sees_nothing_that_was_not_handed_on() {
    let mut host = begin(ledger_with_contracts(1), Vec::new());
    let mine = Some(String::from("mine"));
    new_contract(&mut host, table("g"), None, mine, Some(String::from("ref")));
    put_key(&mut host, "other", Key::Account([3u8; 32]));
    assert!(is_valid_uref(&host, full(mint(1))));
    assert!(call_contract(&mut host, ContractRef::Hash(mint(0)), &Vec::new(), &Vec::new()));
    assert_eq!(host.depth(), 2);
    assert!(!has_key(&host, "mine"));
    assert!(!has_key(&host, "ref"));
    assert!(!has_key(&host, "other"));
    assert_eq!(get_key(&mut host, "ref"), None);
    assert_eq!(list_named_keys(&mut host), Some(NamedKeys::new()));
    assert!(!is_valid_uref(&host, full(mint(1))));
    assert!(!is_valid_uref(&host, URef::new(mint(1), AccessRights::read())));
    assert_eq!(host.current().capabilities(), &Vec::new());
    assert_eq!(get_arg::<u32>(&mut host, 0), None);
}

#[test]
fn a_callee_gets_its_arguments_and_what_was_handed_on() {
    let mut host = begin(ledger_with_contracts(1), vec![CLValue::from_t(1u8).unwrap()]);
    new_contract(&mut host, table("g"), None, None, Some(String::from("ref")));
    let args = vec![CLValue::from_t(99u64).unwrap()];
    let handed = vec![Key::URef(full(mint(1))), Key::Hash([4u8; 32])];
    assert!(call_contract(&mut host, ContractRef::Hash(mint(0)), &args, &handed));
    assert_eq!(get_arg::<u64>(&mut host, 0), Some(Ok(99u64)));
    assert_eq!(get_arg::<u8>(&mut host, 1), None);
    assert!(is_valid_uref(&host, full(mint(1))));
    assert!(!has_key(&host, "ref"));
    assert_eq!(host.current().capabilities(), &vec![full(mint(1))]);
}

#[test]
fn the_caller_is_the_signer_at_every_depth() {
    let mut host = begin(ledger_with_contracts(3), Vec::new());
    assert_eq!(get_caller(&host), signer());
    assert!(call_contract(&mut host, ContractRef::Hash(mint(0)), &Vec::new(), &Vec::new()));
    assert_eq!(get_caller(&host), signer());
    assert!(call_contract(&mut host, ContractRef::Hash(mint(1)), &Vec::new(), &Vec::new()));
    assert_eq!(get_caller(&host), signer());
    assert!(call_contract(&mut host, ContractRef::Hash(mint(2)), &Vec::new(), &Vec::new()));
    assert_eq!(host.depth(), 4);
    assert_eq!(host.current().depth(), 3);
    assert_eq!(get_caller(&host), signer());
    assert_ne!(get_caller(&host).value(), mint(1));
    assert_eq!(get_phase(&host), Phase::Payment);
    assert_eq!(get_blocktime(&host), BlockTime::new(1000));
}

#[test]
fn a_value_comes_back_from_a_callee() {
    let mut host = begin(ledger_with_contracts(1), Vec::new());
    assert_eq!(get_call_result(&mut host), None);
    assert!(call_contract(&mut host, ContractRef::Hash(mint(0)), &Vec::new(), &Vec::new()));
    put_key(&mut host, "seen", Key::Hash([8u8; 32]));
    ret(&mut host, CLValue::from_t(String::from("done")).unwrap(), Vec::new());
    assert_eq!(host.status(), Status::Running);
    assert_eq!(host.depth(), 1);
    assert!(!has_key(&host, "seen"));
    let value = get_call_result(&mut host).unwrap();
    assert_eq!(value.to_t::<String>(), Ok(String::from("done")));
    assert_eq!(host.fetched(), &vec![Fetched::CallResult]);
    assert_eq!(get_call_result(&mut host), None);
    assert_eq!(host.working().record(0).named_keys().get("seen"), Some(Key::Hash([8u8; 32])));
    assert_eq!(host.committed().record(0).named_keys().get("seen"), None);
}

#[test]
fn a_callee_hands_back_only_what_it_holds() {
    let mut host = begin(ledger_with_contracts(1), Vec::new());
    assert!(call_contract(&mut host, ContractRef::Hash(mint(0)), &Vec::new(), &Vec::new()));
    new_contract(&mut host, table("inner"), None, None, None).unwrap();
    ret(&mut host, unit(), vec![URef::new(mint(1), AccessRights::read())]);
    assert_eq!(host.status(), Status::Running);
    assert!(is_valid_uref(&host, URef::new(mint(1), AccessRights::read())));
    assert!(!is_valid_uref(&host, full(mint(1))));
    assert!(call_contract(&mut host, ContractRef::Hash(mint(0)), &Vec::new(), &Vec::new()));
    ret(&mut host, unit(), vec![full(mint(1))]);
    assert_eq!(host.status(), Status::Reverted(16));
}

#[test]
fn calling_through_a_reference_needs_the_right_to_read() {
    let mut host = begin(Ledger::new(), Vec::new());
    new_contract(&mut host, table("f"), None, None, None).unwrap();
    assert!(call_contract(
        &mut host,
        ContractRef::URef(URef::new(mint(0), AccessRights::read())),
        &Vec::new(),
        &vec![Key::URef(URef::new(mint(0), AccessRights::write()))]
    ));
    assert!(!call_contract(
        &mut host,
        ContractRef::URef(URef::new(mint(0), AccessRights::write())),
        &Vec::new(),
        &Vec::new()
    ));
    assert_eq!(host.status(), Status::Reverted(16));
}

#[test]
fn calling_what_is_not_there_aborts() {
    let mut host = begin(Ledger::new(), Vec::new());
    put_key(&mut host, "a", Key::Hash([1u8; 32]));
    assert!(!call_contract(&mut host, ContractRef::Hash([9u8; 32]), &Vec::new(), &Vec::new()));
    assert_eq!(host.status(), Status::Reverted(7));
    assert_eq!(host.into_ledger(), Ledger::new());
}

#[test]
fn abort_discards_every_change() {
    let mut first = begin(Ledger::new(), Vec::new());
    put_key(&mut first, "kept", Key::Hash([1u8; 32]));
    new_contract(&mut first, table("f"), None, None, None).unwrap();
    ret(&mut first, unit(), Vec::new());
    let ledger = first.into_ledger();
    let found = ledger.duplicate();

    let mut host = begin(ledger, Vec::new());
    put_key(&mut host, "a", Key::Hash([2u8; 32]));
    remove_key(&mut host, "kept");
    put_key(&mut host, "b", Key::Hash([3u8; 32]));
    new_contract(&mut host, table("g"), None, None, None).unwrap();
    upgrade_contract_at_uref(&mut host, "h", full(mint(1)));
    revert(&mut host, ApiError::User(5));
    assert_eq!(host.status(), Status::Reverted(65541));
    assert_eq!(host.depth(), 0);
    assert_eq!(host.committed(), &found);
    assert_eq!(host.working(), &found);
    let left = host.into_ledger();
    assert_eq!(left, found);
    assert_eq!(left.account().get("kept"), Some(Key::Hash([1u8; 32])));
    assert_eq!(left.account().get("a"), None);
    assert_eq!(left.record_count(), 1);
}

#[test]
fn abort_in_a_callee_discards_the_whole_chain() {
    let mut host = begin(ledger_with_contracts(2), Vec::new());
    let found = host.committed().duplicate();
    put_key(&mut host, "outer", Key::Hash([1u8; 32]));
    assert!(call_contract(&mut host, ContractRef::Hash(mint(0)), &Vec::new(), &Vec::new()));
    put_key(&mut host, "middle", Key::Hash([2u8; 32]));
    ret(&mut host, unit(), Vec::new());
    assert!(call_contract(&mut host, ContractRef::Hash(mint(1)), &Vec::new(), &Vec::new()));
    put_key(&mut host, "inner", Key::Hash([3u8; 32]));
    revert(&mut host, ApiError::InvalidArgument);
    assert_eq!(host.status(), Status::Reverted(3));
    assert_eq!(host.depth(), 0);
    assert_eq!(host.into_ledger(), found);
}

#[test]
fn return_keeps_every_change() {
    let mut host = begin(ledger_with_contracts(1), Vec::new());
    put_key(&mut host, "a", Key::Hash([2u8; 32]));
    put_key(&mut host, "b", Key::Hash([3u8; 32]));
    remove_key(&mut host, "a");
    put_key(&mut host, "c", Key::Account([4u8; 32]));
    assert!(call_contract(&mut host, ContractRef::Hash(mint(0)), &Vec::new(), &Vec::new()));
    put_key(&mut host, "inner", Key::Hash([5u8; 32]));
    ret(&mut host, unit(), Vec::new());
    assert_eq!(host.committed().account().len(), 0);
    ret(&mut host, unit(), Vec::new());
    assert_eq!(host.status(), Status::Returned);
    assert_eq!(host.depth(), 0);
    let left = host.into_ledger();
    let mut expected = NamedKeys::new();
    expected.insert(String::from("b"), Key::Hash([3u8; 32]));
    expected.insert(String::from("c"), Key::Account([4u8; 32]));
    assert_eq!(left.account(), &expected);
    assert_eq!(left.record(0).named_keys().get("inner"), Some(Key::Hash([5u8; 32])));

    let mut next = begin(left, Vec::new());
    assert_eq!(get_key(&mut next, "b"), Some(Key::Hash([3u8; 32])));
    assert!(call_contract(&mut next, ContractRef::Hash(mint(0)), &Vec::new(), &Vec::new()));
    assert_eq!(get_key(&mut next, "inner"), Some(Key::Hash([5u8; 32])));
}

#[test]
fn references_in_a_namespace_are_recognised_when_it_is_loaded() {
    let mut host = begin(Ledger::new(), Vec::new());
    new_contract(&mut host, table("f"), None, None, Some(String::from("ref")));
    ret(&mut host, unit(), Vec::new());
    let mut next = begin(host.into_ledger(), Vec::new());
    assert!(is_valid_uref(&next, full(mint(0))));
    assert_eq!(get_key(&mut next, "ref"), Some(Key::URef(full(mint(0)))));
    remove_key(&mut next, "ref");
    assert!(is_valid_uref(&next, full(mint(0))));
}

#[test]
fn upgrade_keeps_the_namespace_of_the_record() {
    let mut host = begin(Ledger::new(), Vec::new());
    new_contract(&mut host, table("f"), None, None, None).unwrap();
    assert!(call_contract(&mut host, ContractRef::Hash(mint(0)), &Vec::new(), &Vec::new()));
    put_key(&mut host, "x", Key::Hash([1u8; 32]));
    put_key(&mut host, "y", Key::Account([2u8; 32]));
    ret(&mut host, unit(), Vec::new());
    let before = host.working().record(0).named_keys().duplicate();
    assert_eq!(before.len(), 2);
    assert_eq!(host.working().record(0).version(), 1);
    assert_eq!(host.working().record(0).entry_points(), &table("f"));

    upgrade_contract_at_uref(&mut host, "g", full(mint(0)));
    assert_eq!(host.status(), Status::Running);
    assert_eq!(host.working().record(0).named_keys(), &before);
    assert_eq!(host.working().record(0).entry_points(), &table("g"));
    assert_eq!(host.working().record(0).version(), 2);
    assert_eq!(host.working().record(0).address(), mint(0));

    upgrade_contract_at_uref(&mut host, "h", URef::new(mint(0), AccessRights::write()));
    assert_eq!(host.working().record(0).version(), 3);
    assert_eq!(host.working().record(0).named_keys(), &before);
}

#[test]
fn replacing_through_registration_keeps_the_namespace_too() {
    let mut host = begin(Ledger::new(), Vec::new());
    new_contract(&mut host, table("f"), None, None, None).unwrap();
    assert!(call_contract(&mut host, ContractRef::Hash(mint(0)), &Vec::new(), &Vec::new()));
    put_key(&mut host, "x", Key::Hash([1u8; 32]));
    ret(&mut host, unit(), Vec::new());
    let mut wide = table("a");
    wide.add_entry_point(EntryPoint::new(
        String::from("b"),
        vec![Parameter::new("n", CLType::U64)],
        CLType::Bool,
        EntryPointAccess::Restricted,
        EntryPointType::Session,
    ));
    let key = new_contract(
        &mut host,
        wide.duplicate(),
        Some(Key::URef(full(mint(0)))),
        Some(String::from("unused")),
        None,
    );
    assert_eq!(key, Some(Key::Hash(mint(0))));
    assert_eq!(host.working().record_count(), 1);
    assert_eq!(host.working().record(0).entry_points(), &wide);
    assert_eq!(host.working().record(0).version(), 2);
    assert_eq!(host.working().record(0).named_keys().get("x"), Some(Key::Hash([1u8; 32])));
    assert!(!has_key(&host, "unused"));
}

#[test]
fn upgrading_what_is_not_held_aborts() {
    let mut host = begin(ledger_with_contracts(1), Vec::new());
    upgrade_contract_at_uref(&mut host, "g", full(mint(0)));
    assert_eq!(host.status(), Status::Reverted(16));
    let mut other = begin(ledger_with_contracts(1), Vec::new());
    assert_eq!(new_contract(&mut other, table("g"), Some(Key::Hash(mint(0))), None, None), None);
    assert_eq!(other.status(), Status::Reverted(9));
}

#[test]
fn the_session_stores_the_contract_and_binds_it() {
    let mut host = begin(Ledger::new(), Vec::new());
    call(&mut host);
    assert_eq!(host.status(), Status::Running);
    assert_eq!(get_key(&mut host, HASH_KEY_NAME), Some(Key::Hash(mint(0))));
    assert_eq!(get_key(&mut host, PACKAGE_HASH_KEY_NAME), Some(Key::Hash(mint(0))));
    assert_eq!(get_key(&mut host, ACCESS_KEY_NAME), Some(Key::URef(full(mint(0)))));
    assert_eq!(list_named_keys(&mut host).unwrap().len(), 3);
    let record = host.working().record(0);
    assert_eq!(record.entry_points().len(), 1);
    let entry = record.entry_points().get(0);
    assert_eq!(entry.name(), ENTRY_FUNCTION_NAME);
    assert_eq!(entry.name(), "transfer");
    assert_eq!(entry.parameters().len(), 2);
    assert_eq!(entry.parameters()[0].name(), ARG_0_NAME);
    assert_eq!(
        entry.parameters()[0].cl_type(),
        &CLType::FixedList(Box::new(CLType::U8), 32)
    );
    assert_eq!(entry.parameters()[1].name(), ARG_1_NAME);
    assert_eq!(entry.parameters()[1].cl_type(), &CLType::U512);
    assert_eq!(entry.ret(), &CLType::Unit);
    assert_eq!(entry.access(), EntryPointAccess::Public);
    assert_eq!(entry.entry_point_type(), EntryPointType::Session);
    ret(&mut host, unit(), Vec::new());
    let left = host.into_ledger();
    assert_eq!(left.account().len(), 3);
    assert_eq!(left.record_count(), 1);
}
