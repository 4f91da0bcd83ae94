use contract_ffi::account::PublicKey;
use contract_ffi::block_time::BlockTime;
use contract_ffi::bytesrepr::{deserialize, ToBytes};
use contract_ffi::cl_type::CLType;
use contract_ffi::cl_value::CLValue;
use contract_ffi::contracts::{EntryPoint, EntryPointAccess, EntryPointType, EntryPoints};
use contract_ffi::execution::Phase;
use contract_ffi::host::{
    copy_bytes, push_all, push_one, read_name, recognises, recognises_all, seed, Host, Staged,
    ABSENT,
};
use contract_ffi::key::{collect_urefs, Key};
use contract_ffi::ledger::{mint, Ledger};
use contract_ffi::model::{Fetched, Status};
use contract_ffi::named_keys::NamedKeys;
use contract_ffi::uref::{copy_urefs, AccessRights, URef};

fn signer() -> PublicKey {
    PublicKey::new([7u8; 32])
}

fn begin(ledger: Ledger, args: Vec<CLValue>) -> Host {
    Host::new(ledger, signer(), BlockTime::new(1000), Phase::Session, args)
}

fn table(name: &str) -> EntryPoints {
    let mut t = EntryPoints::new();
    t.add_entry_point(EntryPoint::new(
        String::from(name),
        Vec::new(),
        CLType::Unit,
        EntryPointAccess::Public,
        EntryPointType::Contract,
    ));
    t
}

fn full(addr: [u8; 32]) -> URef {
    URef::new(addr, AccessRights::read_add_write())
}

#[test]
fn addresses_are_minted_in_order() {
    assert_eq!(mint(0), [0u8; 32]);
    let mut one = [0u8; 32];
    one[0] = 1;
    assert_eq!(mint(1), one);
    let mut big = [0u8; 32];
    big[0] = 0x02;
    big[1] = 0x01;
    assert_eq!(mint(0x0102), big);
    let mut max = [0u8; 32];
    for i in 0..8 {
        max[i] = 255;
    }
    assert_eq!(mint(u64::MAX), max);
}

#[test]
fn a_transaction_begins_in_the_context_of_the_account() {
    let host = begin(Ledger::new(), Vec::new());
    assert_eq!(host.status(), Status::Running);
    assert_eq!(host.depth(), 1);
    assert_eq!(host.signer(), signer());
    assert_eq!(host.staged(), &Staged::Nothing);
    assert_eq!(host.current().depth(), 0);
    assert_eq!(host.current().named_keys(), &NamedKeys::new());
    assert_eq!(host.current().capabilities(), &Vec::new());
    assert_eq!(host.committed().record_count(), 0);
}

#[test]
fn names_are_read_from_bytes() {
    assert_eq!(read_name(b"abc"), Some("abc"));
    assert_eq!(read_name(&[0xc3, 0xa9]), Some("é"));
    assert_eq!(read_name(&[0xff]), None);
    assert_eq!(read_name(&[]), Some(""));
}

#[test]
fn recognising_references() {
    let held = vec![URef::new([1u8; 32], AccessRights::read()), full([2u8; 32])];
    assert!(recognises(&held, &URef::new([1u8; 32], AccessRights::read())));
    assert!(recognises(&held, &URef::new([1u8; 32], AccessRights::none())));
    assert!(!recognises(&held, &URef::new([1u8; 32], AccessRights::write())));
    assert!(recognises(&held, &URef::new([2u8; 32], AccessRights::write())));
    assert!(!recognises(&held, &URef::new([3u8; 32], AccessRights::none())));
    assert!(!recognises(&Vec::new(), &URef::new([1u8; 32], AccessRights::none())));
    let both = vec![full([2u8; 32]), URef::new([1u8; 32], AccessRights::read())];
    assert!(recognises_all(&held, &both));
    assert!(!recognises_all(&held, &vec![full([2u8; 32]), full([1u8; 32])]));
    assert!(recognises_all(&held, &Vec::new()));
}

#[test]
fn collecting_references() {
    let u = full([1u8; 32]);
    let w = URef::new([2u8; 32], AccessRights::add());
    let keys = vec![Key::Hash([9u8; 32]), Key::URef(u), Key::Account([8u8; 32]), Key::URef(w)];
    assert_eq!(collect_urefs(&keys), vec![u, w]);
    assert_eq!(collect_urefs(&Vec::new()), Vec::new());
    let mut caps = vec![u];
    push_all(&mut caps, &vec![w, u]);
    assert_eq!(caps, vec![u, w, u]);
    push_one(&mut caps, w);
    assert_eq!(caps, vec![u, w, u, w]);
    assert_eq!(copy_bytes(&vec![1u8, 2, 3]), vec![1u8, 2, 3]);
}

#[test]
fn sizing_call_for_an_argument_that_was_not_supplied() {
    let mut host = begin(Ledger::new(), vec![CLValue::from_t(7u32).unwrap()]);
    assert_eq!(host.load_arg(1), ABSENT);
    assert_eq!(host.staged(), &Staged::Nothing);
    assert_eq!(host.load_arg(u32::MAX), ABSENT);
    assert_eq!(host.staged(), &Staged::Nothing);
}

#[test]
fn sizing_call_for_an_argument_says_what_the_fetch_writes() {
    let arg = CLValue::from_t(String::from("hello")).unwrap();
    let wire = arg.to_bytes().unwrap();
    let mut host = begin(Ledger::new(), vec![CLValue::from_t(7u32).unwrap(), arg]);
    let size = host.load_arg(1);
    assert_eq!(size, wire.len() as i64);
    assert_eq!(host.staged(), &Staged::Argument(wire.clone()));
    let mut dest = vec![0u8; size as usize];
    host.get_arg(&mut dest);
    assert_eq!(dest.len() as i64, size);
    assert_eq!(dest, wire);
    assert_eq!(host.staged(), &Staged::Nothing);
}

#[test]
fn sizing_call_for_an_absent_key_leaves_nothing_to_fetch() {
    let mut host = begin(Ledger::new(), vec![CLValue::from_t(7u32).unwrap()]);
    assert_eq!(host.load_arg(0), 9);
    assert_eq!(host.get_key(b"missing"), ABSENT);
    assert_eq!(host.staged(), &Staged::Nothing);
    assert_eq!(host.fetched(), &Vec::new());
    assert_eq!(host.get_key(&[0xff, 0xfe]), ABSENT);
    assert_eq!(host.staged(), &Staged::Nothing);
    assert_eq!(host.has_key(b"missing"), 1);
    assert_eq!(host.has_key(&[0xff]), 1);
}

#[test]
fn sizing_call_for_a_key_says_what_the_fetch_writes() {
    let mut host = begin(Ledger::new(), Vec::new());
    let key = Key::Hash([3u8; 32]);
    assert_eq!(host.put_key(b"here", &key.to_bytes().unwrap()), 0);
    assert_eq!(host.has_key(b"here"), 0);
    let size = host.get_key(b"here");
    assert_eq!(size, 38);
    let mut dest = vec![0u8; size as usize];
    host.read_key(&mut dest);
    assert_eq!(dest.len(), 38);
    let envelope = deserialize::<CLValue>(&dest).unwrap();
    assert_eq!(envelope.cl_type(), &CLType::Key);
    assert_eq!(envelope.to_t::<Key>(), Ok(key));
    assert_eq!(host.staged(), &Staged::Nothing);
    assert_eq!(host.fetched(), &vec![Fetched::NamedKey]);
}

#[test]
fn binding_is_refused_for_what_is_no_name_or_no_key() {
    let mut host = begin(Ledger::new(), Vec::new());
    let key = Key::Hash([3u8; 32]).to_bytes().unwrap();
    assert_eq!(host.put_key(&[0xff], &key), 3);
    assert_eq!(host.put_key(b"a", &[9u8]), 20);
    assert_eq!(host.put_key(b"a", &[1u8, 2]), 19);
    let mut long = key.clone();
    long.push(0);
    assert_eq!(host.put_key(b"a", &long), 21);
    assert_eq!(host.current().named_keys(), &NamedKeys::new());
    assert_eq!(host.status(), Status::Running);
}

#[test]
fn binding_a_reference_that_was_never_issued_grants_nothing() {
    let mut host = begin(Ledger::new(), Vec::new());
    let forged = Key::URef(full([5u8; 32])).to_bytes().unwrap();
    assert_eq!(host.is_valid_uref(&full([5u8; 32]).to_bytes().unwrap()), 0);
    assert_eq!(host.put_key(b"forged", &forged), 0);
    assert_eq!(host.has_key(b"forged"), 0);
    assert_eq!(host.status(), Status::Running);
    assert_eq!(host.current().capabilities(), &Vec::new());
    assert_eq!(host.is_valid_uref(&full([5u8; 32]).to_bytes().unwrap()), 0);
    assert_eq!(host.is_valid_uref(&[1u8, 2, 3]), 0);
}

#[test]
fn a_context_starts_with_what_was_issued_and_is_bound() {
    let issued = vec![full([1u8; 32]), URef::new([2u8; 32], AccessRights::read())];
    let mut keys = NamedKeys::new();
    keys.insert(String::from("a"), Key::URef(URef::new([1u8; 32], AccessRights::write())));
    keys.insert(String::from("b"), Key::URef(full([2u8; 32])));
    keys.insert(String::from("c"), Key::URef(full([3u8; 32])));
    keys.insert(String::from("d"), Key::Hash([1u8; 32]));
    keys.insert(String::from("e"), Key::URef(URef::new([2u8; 32], AccessRights::read())));
    assert_eq!(
        seed(&keys, &issued),
        vec![
            URef::new([1u8; 32], AccessRights::write()),
            URef::new([2u8; 32], AccessRights::read())
        ]
    );
    assert_eq!(seed(&keys, &Vec::new()), Vec::new());
    assert_eq!(seed(&NamedKeys::new(), &issued), Vec::new());
    assert_eq!(copy_urefs(&issued), issued);
}

#[test]
fn unbinding_by_bytes() {
    let mut host = begin(Ledger::new(), Vec::new());
    let key = Key::Hash([3u8; 32]).to_bytes().unwrap();
    assert_eq!(host.put_key(b"a", &key), 0);
    host.remove_key(&[0xff]);
    assert_eq!(host.has_key(b"a"), 0);
    host.remove_key(b"b");
    assert_eq!(host.has_key(b"a"), 0);
    host.remove_key(b"a");
    assert_eq!(host.has_key(b"a"), 1);
}

#[test]
fn fixed_size_reads() {
    let host = begin(Ledger::new(), Vec::new());
    let mut caller = vec![0u8; 36];
    host.get_caller(&mut caller);
    assert_eq!(deserialize::<PublicKey>(&caller), Ok(signer()));
    let mut time = vec![0u8; 8];
    host.get_blocktime(&mut time);
    assert_eq!(time, vec![0xe8u8, 0x03, 0, 0, 0, 0, 0, 0]);
    let mut phase = vec![0u8; 1];
    host.get_phase(&mut phase);
    assert_eq!(phase, vec![2u8]);
}

#[test]
fn the_namespace_is_listed_in_two_steps() {
    let mut host = begin(Ledger::new(), Vec::new());
    host.put_key(b"b", &Key::Hash([2u8; 32]).to_bytes().unwrap());
    host.put_key(b"a", &Key::Hash([1u8; 32]).to_bytes().unwrap());
    let size = host.load_named_keys();
    assert_eq!(size, 4 + (4 + 2 * (4 + 1 + 33)) + 3);
    let mut dest = vec![0u8; size as usize];
    host.list_named_keys(&mut dest);
    let envelope = deserialize::<CLValue>(&dest).unwrap();
    let keys = envelope.to_t::<NamedKeys>().unwrap();
    assert_eq!(keys.len(), 2);
    assert_eq!(keys.name_at(0), "a");
    assert_eq!(keys.name_at(1), "b");
    assert_eq!(&keys, host.current().named_keys());
}

#[test]
fn registering_mints_a_record_and_a_capability() {
    let mut host = begin(Ledger::new(), Vec::new());
    let key = host
        .new_contract(table("f"), None, Some(String::from("pkg")), Some(String::from("access")))
        .unwrap();
    assert_eq!(key, Key::Hash(mint(0)));
    assert_eq!(host.working().record_count(), 1);
    assert_eq!(host.committed().record_count(), 0);
    let record = host.working().record(0);
    assert_eq!(record.address(), mint(0));
    assert_eq!(record.version(), 1);
    assert_eq!(record.entry_points(), &table("f"));
    assert_eq!(record.named_keys(), &NamedKeys::new());
    assert_eq!(record.granted(), &Vec::new());
    assert_eq!(host.working().granted(), &Vec::new());
    assert_eq!(host.current().named_keys().get("pkg"), Some(Key::Hash(mint(0))));
    assert_eq!(host.current().named_keys().get("access"), Some(Key::URef(full(mint(0)))));
    assert_eq!(host.current().capabilities(), &vec![full(mint(0))]);
    let second = host.new_contract(table("g"), None, None, None).unwrap();
    assert_eq!(second, Key::Hash(mint(1)));
    assert_eq!(host.current().named_keys().len(), 2);
    assert_eq!(host.working().find(&mint(1)), Some(1));
    assert_eq!(host.working().find(&mint(2)), None);
}

#[test]
fn registering_at_a_key_that_is_no_reference_is_refused() {
    let mut host = begin(Ledger::new(), Vec::new());
    let before = host.working().duplicate();
    assert_eq!(
        host.new_contract(table("f"), Some(Key::Hash([1u8; 32])), None, None),
        Err(contract_ffi::error::ApiError::UnexpectedKeyVariant)
    );
    assert_eq!(
        host.new_contract(table("f"), Some(Key::URef(full([1u8; 32]))), None, None),
        Err(contract_ffi::error::ApiError::NoAccessRights)
    );
    assert_eq!(host.working(), &before);
}

#[test]
fn calls_are_refused_with_a_status() {
    let mut host = begin(Ledger::new(), Vec::new());
    let no_args: Vec<CLValue> = Vec::new();
    let no_keys: Vec<Key> = Vec::new();
    let args = no_args.to_bytes().unwrap();
    let keys = no_keys.to_bytes().unwrap();
    let missing = Key::Hash([9u8; 32]).to_bytes().unwrap();
    assert_eq!(host.call_contract(&missing, &args, &keys), 7);
    let account = Key::Account([9u8; 32]).to_bytes().unwrap();
    assert_eq!(host.call_contract(&account, &args, &keys), 9);
    let forged = Key::URef(full([9u8; 32])).to_bytes().unwrap();
    assert_eq!(host.call_contract(&forged, &args, &keys), 16);
    assert_eq!(host.call_contract(&[7u8], &args, &keys), 20);
    assert_eq!(host.call_contract(&missing, &[1u8], &keys), 19);
    assert_eq!(host.call_contract(&missing, &args, &[1u8, 0, 0, 0, 5]), 20);
    assert_eq!(host.depth(), 1);
    assert_eq!(host.status(), Status::Running);
    host.new_contract(table("f"), None, None, None).unwrap();
    let target = Key::Hash(mint(0)).to_bytes().unwrap();
    let forged_keys = vec![Key::URef(full([9u8; 32]))].to_bytes().unwrap();
    assert_eq!(host.call_contract(&target, &args, &forged_keys), 16);
    assert_eq!(host.depth(), 1);
    assert_eq!(host.call_contract(&target, &args, &keys), 0);
    assert_eq!(host.depth(), 2);
}

#[test]
fn returning_what_is_no_envelope_aborts() {
    let mut host = begin(Ledger::new(), Vec::new());
    let none: Vec<URef> = Vec::new();
    host.ret(&[1u8, 2, 3], &none.to_bytes().unwrap());
    assert_eq!(host.status(), Status::Reverted(4));
    let mut host = begin(Ledger::new(), Vec::new());
    let value = CLValue::from_t(()).unwrap().to_bytes().unwrap();
    host.ret(&value, &[9u8]);
    assert_eq!(host.status(), Status::Reverted(19));
    let mut host = begin(Ledger::new(), Vec::new());
    host.ret(&value, &vec![full([1u8; 32])].to_bytes().unwrap());
    assert_eq!(host.status(), Status::Reverted(16));
    assert_eq!(host.depth(), 0);
}

#[test]
fn the_result_of_a_call_is_fetched_in_two_steps() {
    let mut host = begin(Ledger::new(), Vec::new());
    host.new_contract(table("f"), None, None, None).unwrap();
    let no_args: Vec<CLValue> = Vec::new();
    let no_keys: Vec<Key> = Vec::new();
    let target = Key::Hash(mint(0)).to_bytes().unwrap();
    assert_eq!(host.load_call_result(), ABSENT);
    assert_eq!(
        host.call_contract(&target, &no_args.to_bytes().unwrap(), &no_keys.to_bytes().unwrap()),
        0
    );
    let value = CLValue::from_t(42u64).unwrap().to_bytes().unwrap();
    let none: Vec<URef> = Vec::new();
    host.ret(&value, &none.to_bytes().unwrap());
    assert_eq!(host.depth(), 1);
    assert_eq!(host.status(), Status::Running);
    let size = host.load_call_result();
    assert_eq!(size, value.len() as i64);
    let mut dest = vec![0u8; size as usize];
    host.get_call_result(&mut dest);
    assert_eq!(dest, value);
    assert_eq!(host.load_call_result(), ABSENT);
}

#[test]
fn upgrading_by_bytes() {
    let mut host = begin(Ledger::new(), Vec::new());
    host.new_contract(table("f"), None, None, None).unwrap();
    let key = Key::URef(full(mint(0))).to_bytes().unwrap();
    assert_eq!(host.upgrade_contract_at_uref(&[0xff], &key), 3);
    assert_eq!(host.upgrade_contract_at_uref(b"g", &[2u8]), 19);
    assert_eq!(
        host.upgrade_contract_at_uref(b"g", &Key::Hash(mint(0)).to_bytes().unwrap()),
        9
    );
    let read_only = Key::URef(URef::new(mint(0), AccessRights::read())).to_bytes().unwrap();
    assert_eq!(host.upgrade_contract_at_uref(b"g", &read_only), 16);
    assert_eq!(host.working().record(0).version(), 1);
    assert_eq!(host.upgrade_contract_at_uref(b"g", &key), 0);
    assert_eq!(host.working().record(0).version(), 2);
    assert_eq!(host.working().record(0).entry_points(), &table("g"));
}
