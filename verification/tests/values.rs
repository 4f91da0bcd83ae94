use contract_ffi::account::PublicKey;
use contract_ffi::block_time::BlockTime;
use contract_ffi::bytesrepr::{deserialize, Error, ToBytes};
use contract_ffi::cl_type::{CLType, CLTyped};
use contract_ffi::cl_value::{CLTypeMismatch, CLValue, CLValueError};
use contract_ffi::error::{result_from, ApiError};
use contract_ffi::execution::Phase;
use contract_ffi::key::Key;
use contract_ffi::uref::{same_address, AccessRights, URef};

#[test]
fn access_rights_bits() {
    assert_eq!(AccessRights::none().bits(), 0);
    assert_eq!(AccessRights::read().bits(), 1);
    assert_eq!(AccessRights::write().bits(), 2);
    assert_eq!(AccessRights::add().bits(), 4);
    assert_eq!(AccessRights::read_add_write().bits(), 7);
    for bits in 0u8..8 {
        assert_eq!(AccessRights::from_bits(bits).unwrap().bits(), bits);
    }
    assert_eq!(AccessRights::from_bits(8), None);
}

#[test]
fn access_rights_subset() {
    let read = AccessRights::read();
    let all = AccessRights::read_add_write();
    assert!(read.is_subset_of(&all));
    assert!(!all.is_subset_of(&read));
    assert!(AccessRights::none().is_subset_of(&read));
    assert!(read.is_subset_of(&read));
    assert!(!AccessRights::write().is_subset_of(&read));
    assert_eq!(all.intersection(&AccessRights::write()), AccessRights::write());
    assert_eq!(read.intersection(&AccessRights::write()), AccessRights::none());
}

#[test]
fn uref_encoding() {
    let u = URef::new([9u8; 32], AccessRights::read());
    let mut expected = vec![9u8; 32];
    expected.push(1);
    assert_eq!(u.to_bytes(), Ok(expected.clone()));
    assert_eq!(deserialize::<URef>(&expected), Ok(u));
    expected[32] = 8;
    assert_eq!(deserialize::<URef>(&expected), Err(Error::FormattingError));
    assert_eq!(deserialize::<URef>(&[0u8; 32]), Err(Error::EarlyEndOfStream));
}

#[test]
fn uref_narrowing_never_widens() {
    let held = URef::new([3u8; 32], AccessRights::read());
    let asked = held.with_access_rights(AccessRights::read_add_write());
    assert_eq!(asked, held);
    assert!(asked.is_covered_by(&held));
    let none = held.with_access_rights(AccessRights::write());
    assert_eq!(none.access_rights(), AccessRights::none());
    assert_eq!(none.addr(), [3u8; 32]);
    let full = URef::new([3u8; 32], AccessRights::read_add_write());
    assert!(held.is_covered_by(&full));
    assert!(!full.is_covered_by(&held));
    let elsewhere = URef::new([4u8; 32], AccessRights::read());
    assert!(!elsewhere.is_covered_by(&full));
    assert!(held.same(&held));
    assert!(!held.same(&full));
}

#[test]
fn addresses_compare_byte_by_byte() {
    let mut a = [0u8; 32];
    let b = [0u8; 32];
    assert!(same_address(&a, &b));
    a[31] = 1;
    assert!(!same_address(&a, &b));
}

#[test]
fn key_encoding() {
    let mut account = vec![0u8];
    account.extend_from_slice(&[1u8; 32]);
    assert_eq!(Key::Account([1u8; 32]).to_bytes(), Ok(account.clone()));
    assert_eq!(deserialize::<Key>(&account), Ok(Key::Account([1u8; 32])));

    let mut hash = vec![1u8];
    hash.extend_from_slice(&[2u8; 32]);
    assert_eq!(Key::Hash([2u8; 32]).to_bytes(), Ok(hash.clone()));
    assert_eq!(deserialize::<Key>(&hash), Ok(Key::Hash([2u8; 32])));

    let u = URef::new([3u8; 32], AccessRights::read_add_write());
    let mut uref = vec![2u8];
    uref.extend_from_slice(&[3u8; 32]);
    uref.push(7);
    assert_eq!(Key::URef(u).to_bytes(), Ok(uref.clone()));
    assert_eq!(deserialize::<Key>(&uref), Ok(Key::URef(u)));
}

#[test]
fn key_kinds_are_never_confused() {
    let mut bytes = vec![3u8];
    bytes.extend_from_slice(&[0u8; 32]);
    assert_eq!(deserialize::<Key>(&bytes), Err(Error::FormattingError));
    assert_eq!(deserialize::<Key>(&[0u8, 1, 2]), Err(Error::EarlyEndOfStream));
    assert_eq!(deserialize::<Key>(&[]), Err(Error::EarlyEndOfStream));
    assert_eq!(Key::Hash([1u8; 32]).as_uref(), None);
    assert_eq!(Key::Hash([1u8; 32]).as_hash(), Some([1u8; 32]));
    assert_eq!(Key::Account([1u8; 32]).as_hash(), None);
    assert!(!Key::Account([1u8; 32]).same(&Key::Hash([1u8; 32])));
    assert!(Key::Hash([1u8; 32]).same(&Key::Hash([1u8; 32])));
}

#[test]
fn cl_type_encoding() {
    assert_eq!(CLType::Bool.to_bytes(), Ok(vec![0u8]));
    assert_eq!(CLType::U512.to_bytes(), Ok(vec![8u8]));
    assert_eq!(CLType::Any.to_bytes(), Ok(vec![21u8]));
    assert_eq!(CLType::List(Box::new(CLType::U8)).to_bytes(), Ok(vec![14u8, 3]));
    assert_eq!(CLType::Option(Box::new(CLType::Bool)).to_bytes(), Ok(vec![13u8, 0]));
    assert_eq!(
        CLType::FixedList(Box::new(CLType::U8), 32).to_bytes(),
        Ok(vec![15u8, 3, 32, 0, 0, 0])
    );
    assert_eq!(
        CLType::Mapping { key: Box::new(CLType::String), value: Box::new(CLType::Key) }.to_bytes(),
        Ok(vec![17u8, 10, 11])
    );
}

#[test]
fn cl_type_round_trip_nested() {
    let t = CLType::Mapping {
        key: Box::new(CLType::List(Box::new(CLType::Option(Box::new(CLType::URef))))),
        value: Box::new(CLType::FixedList(Box::new(CLType::U64), 70000)),
    };
    let bytes = t.to_bytes().unwrap();
    assert_eq!(bytes, vec![17u8, 14, 13, 12, 15, 5, 0x70, 0x11, 0x01, 0x00]);
    assert_eq!(deserialize::<CLType>(&bytes), Ok(t.duplicate()));
    assert!(t.same(&t.duplicate()));
    assert!(!t.same(&CLType::Unit));
    assert!(!CLType::List(Box::new(CLType::U8)).same(&CLType::List(Box::new(CLType::U32))));
}

#[test]
fn cl_type_that_is_malformed_is_refused() {
    assert_eq!(deserialize::<CLType>(&[]), Err(Error::EarlyEndOfStream));
    assert_eq!(deserialize::<CLType>(&[14u8]), Err(Error::EarlyEndOfStream));
    assert_eq!(deserialize::<CLType>(&[15u8, 3, 1, 0]), Err(Error::EarlyEndOfStream));
    assert_eq!(deserialize::<CLType>(&[16u8]), Err(Error::FormattingError));
    assert_eq!(deserialize::<CLType>(&[200u8]), Err(Error::FormattingError));
    assert_eq!(deserialize::<CLType>(&[3u8, 3]), Err(Error::LeftOverBytes));
}

#[test]
fn descriptors_of_value_types() {
    assert_eq!(<bool as CLTyped>::cl_type(), CLType::Bool);
    assert_eq!(<u8 as CLTyped>::cl_type(), CLType::U8);
    assert_eq!(<u32 as CLTyped>::cl_type(), CLType::U32);
    assert_eq!(<u64 as CLTyped>::cl_type(), CLType::U64);
    assert_eq!(<() as CLTyped>::cl_type(), CLType::Unit);
    assert_eq!(<String as CLTyped>::cl_type(), CLType::String);
    assert_eq!(<Key as CLTyped>::cl_type(), CLType::Key);
    assert_eq!(<URef as CLTyped>::cl_type(), CLType::URef);
    assert_eq!(<Vec<u8> as CLTyped>::cl_type(), CLType::List(Box::new(CLType::U8)));
}

#[test]
fn envelope_round_trip_for_every_supported_type() {
    assert_eq!(CLValue::from_t(true).unwrap().to_t::<bool>(), Ok(true));
    assert_eq!(CLValue::from_t(7u8).unwrap().to_t::<u8>(), Ok(7u8));
    assert_eq!(CLValue::from_t(70000u32).unwrap().to_t::<u32>(), Ok(70000u32));
    assert_eq!(CLValue::from_t(u64::MAX).unwrap().to_t::<u64>(), Ok(u64::MAX));
    assert_eq!(CLValue::from_t(()).unwrap().to_t::<()>(), Ok(()));
    assert_eq!(
        CLValue::from_t(String::from("héllo")).unwrap().to_t::<String>(),
        Ok(String::from("héllo"))
    );
    let key = Key::URef(URef::new([8u8; 32], AccessRights::add()));
    assert_eq!(CLValue::from_t(key).unwrap().to_t::<Key>(), Ok(key));
    let uref = URef::new([8u8; 32], AccessRights::write());
    assert_eq!(CLValue::from_t(uref).unwrap().to_t::<URef>(), Ok(uref));
    let list = vec![String::from("a"), String::from("b")];
    assert_eq!(CLValue::from_t(list.clone()).unwrap().to_t::<Vec<String>>(), Ok(list));
}

#[test]
fn envelope_holds_type_and_bytes() {
    let v = CLValue::from_t(7u32).unwrap();
    assert_eq!(v.cl_type(), &CLType::U32);
    assert_eq!(v.inner_bytes(), &vec![7u8, 0, 0, 0]);
    assert_eq!(v.to_bytes(), Ok(vec![4u8, 0, 0, 0, 7, 0, 0, 0, 4]));
    assert_eq!(deserialize::<CLValue>(&[4u8, 0, 0, 0, 7, 0, 0, 0, 4]), Ok(v.duplicate()));
    assert_eq!(v.duplicate(), v);
}

#[test]
fn envelope_of_another_type_fails_to_open() {
    let v = CLValue::from_t(7u32).unwrap();
    assert_eq!(
        v.to_t::<u64>(),
        Err(CLValueError::Type(CLTypeMismatch { expected: CLType::U64, found: CLType::U32 }))
    );
    assert_eq!(
        v.to_t::<String>(),
        Err(CLValueError::Type(CLTypeMismatch { expected: CLType::String, found: CLType::U32 }))
    );
    let again = v.to_t::<u64>();
    assert_eq!(again, v.to_t::<u64>());
}

#[test]
fn envelope_with_bad_bytes_fails_to_open() {
    let short = CLValue::from_components(CLType::U32, vec![1u8, 2]);
    assert_eq!(short.to_t::<u32>(), Err(CLValueError::Serialization(Error::EarlyEndOfStream)));
    let long = CLValue::from_components(CLType::U8, vec![1u8, 2]);
    assert_eq!(long.to_t::<u8>(), Err(CLValueError::Serialization(Error::LeftOverBytes)));
    let odd = CLValue::from_components(CLType::Bool, vec![9u8]);
    assert_eq!(odd.to_t::<bool>(), Err(CLValueError::Serialization(Error::FormattingError)));
}

#[test]
fn envelope_that_is_malformed_is_refused() {
    assert_eq!(deserialize::<CLValue>(&[4u8, 0, 0, 0, 7, 0, 0]), Err(Error::EarlyEndOfStream));
    assert_eq!(deserialize::<CLValue>(&[1u8, 0, 0, 0, 7]), Err(Error::EarlyEndOfStream));
    assert_eq!(deserialize::<CLValue>(&[1u8, 0, 0, 0, 7, 99]), Err(Error::FormattingError));
    assert_eq!(deserialize::<CLValue>(&[0u8, 0, 0, 0, 9, 9]), Err(Error::LeftOverBytes));
}

#[test]
fn public_key_encoding() {
    let pk = PublicKey::new([5u8; 32]);
    let mut expected = vec![32u8, 0, 0, 0];
    expected.extend_from_slice(&[5u8; 32]);
    assert_eq!(pk.to_bytes(), Ok(expected.clone()));
    assert_eq!(expected.len(), 36);
    assert_eq!(deserialize::<PublicKey>(&expected), Ok(pk));
    assert_eq!(pk.value(), [5u8; 32]);
    expected[0] = 31;
    assert_eq!(deserialize::<PublicKey>(&expected), Err(Error::FormattingError));
    assert_eq!(deserialize::<PublicKey>(&[32u8, 0, 0, 0, 1]), Err(Error::EarlyEndOfStream));
    assert!(pk.same(&PublicKey::new([5u8; 32])));
    assert!(!pk.same(&PublicKey::new([6u8; 32])));
}

#[test]
fn phase_and_block_time_encoding() {
    assert_eq!(Phase::System.to_bytes(), Ok(vec![0u8]));
    assert_eq!(Phase::Payment.to_bytes(), Ok(vec![1u8]));
    assert_eq!(Phase::Session.to_bytes(), Ok(vec![2u8]));
    assert_eq!(Phase::FinalizeDeploy.to_bytes(), Ok(vec![3u8]));
    assert_eq!(deserialize::<Phase>(&[2u8]), Ok(Phase::Session));
    assert_eq!(deserialize::<Phase>(&[4u8]), Err(Error::FormattingError));
    assert_eq!(BlockTime::new(258).to_bytes(), Ok(vec![2u8, 1, 0, 0, 0, 0, 0, 0]));
    assert_eq!(deserialize::<BlockTime>(&[2u8, 1, 0, 0, 0, 0, 0, 0]), Ok(BlockTime::new(258)));
}

#[test]
fn status_codes() {
    assert_eq!(ApiError::NoValue.code(), 1);
    assert_eq!(ApiError::MissingArgument.code(), 2);
    assert_eq!(ApiError::InvalidArgument.code(), 3);
    assert_eq!(ApiError::Deserialize.code(), 4);
    assert_eq!(ApiError::ContractNotFound.code(), 7);
    assert_eq!(ApiError::UnexpectedKeyVariant.code(), 9);
    assert_eq!(ApiError::UpgradeContractAtURef.code(), 14);
    assert_eq!(ApiError::NoAccessRights.code(), 16);
    assert_eq!(ApiError::CLTypeMismatch.code(), 18);
    assert_eq!(ApiError::EarlyEndOfStream.code(), 19);
    assert_eq!(ApiError::Formatting.code(), 20);
    assert_eq!(ApiError::LeftOverBytes.code(), 21);
    assert_eq!(ApiError::OutOfMemory.code(), 22);
    assert_eq!(ApiError::Unhandled.code(), 31);
    assert_eq!(ApiError::User(0).code(), 65536);
    assert_eq!(ApiError::User(3).code(), 65539);
    assert_eq!(ApiError::User(u16::MAX).code(), 131071);
    assert_eq!(ApiError::NoAccessRights.status(), 16);
}

#[test]
fn status_codes_read_back() {
    assert_eq!(result_from(0), Ok(()));
    assert_eq!(result_from(16), Err(ApiError::NoAccessRights));
    assert_eq!(result_from(7), Err(ApiError::ContractNotFound));
    assert_eq!(result_from(65539), Err(ApiError::User(3)));
    assert_eq!(result_from(131071), Err(ApiError::User(u16::MAX)));
    assert_eq!(result_from(131072), Err(ApiError::Unhandled));
    assert_eq!(result_from(23), Err(ApiError::Unhandled));
    assert_eq!(result_from(-1), Err(ApiError::Unhandled));
    for code in 1u32..23 {
        assert_eq!(ApiError::from_code(code).code(), code);
    }
}

#[test]
fn decoding_failures_as_error_kinds() {
    assert_eq!(ApiError::from_bytesrepr(Error::EarlyEndOfStream), ApiError::EarlyEndOfStream);
    assert_eq!(ApiError::from_bytesrepr(Error::FormattingError), ApiError::Formatting);
    assert_eq!(ApiError::from_bytesrepr(Error::LeftOverBytes), ApiError::LeftOverBytes);
    assert_eq!(ApiError::from_bytesrepr(Error::OutOfMemoryError), ApiError::OutOfMemory);
    assert_eq!(
        ApiError::from_cl_value_error(&CLValueError::Serialization(Error::LeftOverBytes)),
        ApiError::LeftOverBytes
    );
    assert_eq!(
        ApiError::from_cl_value_error(&CLValueError::Type(CLTypeMismatch {
            expected: CLType::U8,
            found: CLType::Bool,
        })),
        ApiError::CLTypeMismatch
    );
}
