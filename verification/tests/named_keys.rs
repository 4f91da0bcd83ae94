use contract_ffi::bytesrepr::{deserialize, Error, ToBytes};
use contract_ffi::cl_type::{CLType, CLTyped};
use contract_ffi::contracts::{
    same_text, EntryPoint, EntryPointAccess, EntryPointType, EntryPoints, Parameter,
};
use contract_ffi::key::Key;
use contract_ffi::name_order::{compare_bytes, compare_names, Place};
use contract_ffi::named_keys::{is_sorted, NamedKeys};
use contract_ffi::uref::{AccessRights, URef};

fn names_of(keys: &NamedKeys) -> Vec<String> {
    let mut out = Vec::new();
    for i in 0..keys.len() {
        out.push(keys.name_at(i).clone());
    }
    out
}

#[test]
fn names_are_ordered_by_their_bytes() {
    assert_eq!(compare_bytes(b"a", b"b"), Place::Before);
    assert_eq!(compare_bytes(b"b", b"a"), Place::After);
    assert_eq!(compare_bytes(b"ab", b"ab"), Place::Same);
    assert_eq!(compare_bytes(b"a", b"ab"), Place::Before);
    assert_eq!(compare_bytes(b"ab", b"a"), Place::After);
    assert_eq!(compare_bytes(b"", b""), Place::Same);
    assert_eq!(compare_bytes(b"", b"a"), Place::Before);
    assert_eq!(compare_names("Z", "a"), Place::Before);
    assert_eq!(compare_names("z", "é"), Place::Before);
    assert_eq!(compare_names("key", "key"), Place::Same);
    assert!(same_text("x", "x"));
    assert!(!same_text("x", "y"));
}

#[test]
fn bind_resolve_and_unbind() {
    let mut keys = NamedKeys::new();
    assert_eq!(keys.len(), 0);
    assert_eq!(keys.get("a"), None);
    assert!(!keys.contains("a"));
    keys.insert(String::from("a"), Key::Hash([1u8; 32]));
    assert_eq!(keys.get("a"), Some(Key::Hash([1u8; 32])));
    assert!(keys.contains("a"));
    assert_eq!(keys.len(), 1);
    keys.remove("a");
    assert_eq!(keys.get("a"), None);
    assert_eq!(keys.len(), 0);
}

#[test]
fn binding_is_idempotent_and_overwrites() {
    let mut keys = NamedKeys::new();
    keys.insert(String::from("a"), Key::Hash([1u8; 32]));
    let once = keys.duplicate();
    keys.insert(String::from("a"), Key::Hash([1u8; 32]));
    assert_eq!(keys, once);
    keys.insert(String::from("a"), Key::Account([2u8; 32]));
    assert_eq!(keys.get("a"), Some(Key::Account([2u8; 32])));
    assert_eq!(keys.len(), 1);
}

#[test]
fn unbinding_an_absent_name_changes_nothing() {
    let mut keys = NamedKeys::new();
    keys.insert(String::from("a"), Key::Hash([1u8; 32]));
    let before = keys.duplicate();
    keys.remove("b");
    assert_eq!(keys, before);
}

#[test]
fn enumeration_does_not_depend_on_history() {
    let mut first = NamedKeys::new();
    first.insert(String::from("b"), Key::Hash([2u8; 32]));
    first.insert(String::from("a"), Key::Hash([1u8; 32]));
    first.insert(String::from("c"), Key::Hash([3u8; 32]));
    let mut second = NamedKeys::new();
    second.insert(String::from("c"), Key::Hash([3u8; 32]));
    second.insert(String::from("zz"), Key::Hash([9u8; 32]));
    second.insert(String::from("a"), Key::Hash([7u8; 32]));
    second.insert(String::from("b"), Key::Hash([2u8; 32]));
    second.remove("zz");
    second.insert(String::from("a"), Key::Hash([1u8; 32]));
    assert_eq!(names_of(&first), vec!["a", "b", "c"]);
    assert_eq!(first, second);
    assert_eq!(first.to_bytes(), second.to_bytes());
    assert_eq!(first.key_at(0), Key::Hash([1u8; 32]));
    assert_eq!(first.key_at(2), Key::Hash([3u8; 32]));
}

#[test]
fn namespace_encoding() {
    let mut keys = NamedKeys::new();
    keys.insert(String::from("b"), Key::Hash([2u8; 32]));
    keys.insert(String::from("a"), Key::Account([1u8; 32]));
    let mut expected = vec![2u8, 0, 0, 0];
    expected.extend_from_slice(&[1u8, 0, 0, 0, 97, 0]);
    expected.extend_from_slice(&[1u8; 32]);
    expected.extend_from_slice(&[1u8, 0, 0, 0, 98, 1]);
    expected.extend_from_slice(&[2u8; 32]);
    assert_eq!(keys.to_bytes(), Ok(expected.clone()));
    assert_eq!(deserialize::<NamedKeys>(&expected), Ok(keys));
    assert_eq!(deserialize::<NamedKeys>(&[0u8, 0, 0, 0]), Ok(NamedKeys::new()));
    assert_eq!(
        <NamedKeys as CLTyped>::cl_type(),
        CLType::Mapping { key: Box::new(CLType::String), value: Box::new(CLType::Key) }
    );
}

#[test]
fn namespace_out_of_order_is_refused() {
    let mut bytes = vec![2u8, 0, 0, 0];
    bytes.extend_from_slice(&[1u8, 0, 0, 0, 98, 1]);
    bytes.extend_from_slice(&[2u8; 32]);
    bytes.extend_from_slice(&[1u8, 0, 0, 0, 97, 0]);
    bytes.extend_from_slice(&[1u8; 32]);
    assert_eq!(deserialize::<NamedKeys>(&bytes), Err(Error::FormattingError));
    let mut twice = vec![2u8, 0, 0, 0];
    twice.extend_from_slice(&[1u8, 0, 0, 0, 97, 0]);
    twice.extend_from_slice(&[1u8; 32]);
    twice.extend_from_slice(&[1u8, 0, 0, 0, 97, 0]);
    twice.extend_from_slice(&[1u8; 32]);
    assert_eq!(deserialize::<NamedKeys>(&twice), Err(Error::FormattingError));
    assert!(is_sorted(&vec![
        (String::from("a"), Key::Hash([0u8; 32])),
        (String::from("b"), Key::Hash([0u8; 32]))
    ]));
    assert!(!is_sorted(&vec![
        (String::from("b"), Key::Hash([0u8; 32])),
        (String::from("a"), Key::Hash([0u8; 32]))
    ]));
    assert!(is_sorted(&Vec::new()));
}

#[test]
fn references_among_the_keys() {
    let mut keys = NamedKeys::new();
    let u = URef::new([4u8; 32], AccessRights::read());
    let w = URef::new([5u8; 32], AccessRights::write());
    keys.insert(String::from("b"), Key::URef(u));
    keys.insert(String::from("a"), Key::Hash([1u8; 32]));
    keys.insert(String::from("c"), Key::URef(w));
    assert_eq!(keys.urefs(), vec![u, w]);
    keys.remove("b");
    assert_eq!(keys.urefs(), vec![w]);
    assert_eq!(NamedKeys::new().urefs(), Vec::new());
}

#[test]
fn entry_point_table() {
    let mut table = EntryPoints::new();
    assert_eq!(table.len(), 0);
    let first = EntryPoint::new(
        String::from("pay"),
        vec![Parameter::new("amount", CLType::U512)],
        CLType::Unit,
        EntryPointAccess::Public,
        EntryPointType::Contract,
    );
    table.add_entry_point(first.duplicate());
    let second = EntryPoint::new(
        String::from("read"),
        Vec::new(),
        CLType::U64,
        EntryPointAccess::Restricted,
        EntryPointType::Session,
    );
    table.add_entry_point(second.duplicate());
    assert_eq!(table.len(), 2);
    assert_eq!(table.get(0), &first);
    assert_eq!(table.get(1), &second);
    let again = EntryPoint::new(
        String::from("pay"),
        Vec::new(),
        CLType::Bool,
        EntryPointAccess::Restricted,
        EntryPointType::Contract,
    );
    table.add_entry_point(again.duplicate());
    assert_eq!(table.len(), 2);
    assert_eq!(table.get(0), &again);
    assert_eq!(table.get(1), &second);
    assert_eq!(table.get(0).name(), "pay");
    assert_eq!(table.get(0).ret(), &CLType::Bool);
    assert_eq!(table.get(0).access(), EntryPointAccess::Restricted);
    assert_eq!(table.get(1).entry_point_type(), EntryPointType::Session);
    assert_eq!(first.parameters()[0].name(), "amount");
    assert_eq!(first.parameters()[0].cl_type(), &CLType::U512);
    assert_eq!(table.duplicate(), table);
}

#[test]
fn entry_point_table_encoding() {
    let entry = EntryPoint::new(
        String::from("f"),
        vec![Parameter::new("n", CLType::U64)],
        CLType::Bool,
        EntryPointAccess::Restricted,
        EntryPointType::Contract,
    );
    let expected = vec![1u8, 0, 0, 0, 102, 1, 0, 0, 0, 1, 0, 0, 0, 110, 5, 0, 2, 1];
    assert_eq!(entry.to_bytes(), Ok(expected.clone()));
    assert_eq!(deserialize::<EntryPoint>(&expected), Ok(entry.duplicate()));
    let mut table = EntryPoints::new();
    table.add_entry_point(entry);
    let mut wire = vec![1u8, 0, 0, 0];
    wire.extend_from_slice(&expected);
    assert_eq!(table.to_bytes(), Ok(wire.clone()));
    assert_eq!(deserialize::<EntryPoints>(&wire), Ok(table));
    assert_eq!(EntryPointAccess::Public.to_bytes(), Ok(vec![1u8]));
    assert_eq!(EntryPointType::Session.to_bytes(), Ok(vec![0u8]));
    assert_eq!(deserialize::<EntryPointAccess>(&[3u8]), Err(Error::FormattingError));
    assert_eq!(deserialize::<EntryPointType>(&[2u8]), Err(Error::FormattingError));
    assert_eq!(deserialize::<Parameter>(&[0u8, 0, 0, 0]), Err(Error::EarlyEndOfStream));
}

#[test]
fn optional_value_encoding() {
    let none: Option<u32> = None;
    assert_eq!(none.to_bytes(), Ok(vec![0u8]));
    assert_eq!(Some(5u32).to_bytes(), Ok(vec![1u8, 5, 0, 0, 0]));
    assert_eq!(deserialize::<Option<u32>>(&[0u8]), Ok(None));
    assert_eq!(deserialize::<Option<u32>>(&[1u8, 5, 0, 0, 0]), Ok(Some(5u32)));
    assert_eq!(deserialize::<Option<u32>>(&[2u8]), Err(Error::FormattingError));
    assert_eq!(deserialize::<Option<u32>>(&[1u8, 5]), Err(Error::EarlyEndOfStream));
    assert_eq!(deserialize::<Option<u32>>(&[]), Err(Error::EarlyEndOfStream));
    assert_eq!(
        <Option<Key> as CLTyped>::cl_type(),
        CLType::Option(Box::new(CLType::Key))
    );
}
