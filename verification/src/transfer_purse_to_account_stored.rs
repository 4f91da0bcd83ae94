//! A session that stores a contract with one entry point and binds its
//! identity in the namespace of the account.

use vstd::prelude::*;

use crate::cl_type::CLType;
use crate::contracts::{
    EntryPoint, EntryPointAccess, EntryPointType, EntryPointView, EntryPoints, Parameter,
    ParameterView,
};
use crate::error::spec_code;
use crate::host::Host;

use crate::model::{bound, register_outcome, reverted, HostView};
use crate::runtime::put_key;
use crate::storage::new_contract;

verus! {

/// The name of the entry point.
pub const ENTRY_FUNCTION_NAME: &'static str = "transfer";

/// The name under which the identity of the contract is bound on registration.
pub const PACKAGE_HASH_KEY_NAME: &'static str = "transfer_purse_to_account";

/// The name under which the session binds the identity of the contract.
pub const HASH_KEY_NAME: &'static str = "transfer_purse_to_account_hash";

/// The name under which the reference to the record is bound.
pub const ACCESS_KEY_NAME: &'static str = "transfer_purse_to_account_access";

/// The name of the first parameter: the account to pay.
pub const ARG_0_NAME: &'static str = "target_account_addr";

/// The name of the second parameter: how much to pay.
pub const ARG_1_NAME: &'static str = "amount";

/// The table that the session registers: the entry point `transfer`, which
/// takes an account address and an amount and returns nothing.
pub open spec fn transfer_table() -> Seq<EntryPointView> {
    seq![
        EntryPointView {
            name: ENTRY_FUNCTION_NAME@,
            parameters: seq![
                ParameterView {
                    name: ARG_0_NAME@,
                    cl_type: CLType::FixedList(Box::new(CLType::U8), 32),
                },
                ParameterView { name: ARG_1_NAME@, cl_type: CLType::U512 },
            ],
            ret: CLType::Unit,
            access: EntryPointAccess::Public,
            entry_point_type: EntryPointType::Session,
        },
    ]
}

/// What the session does: it registers the contract, which binds the
/// identity of the contract and the reference to its record, and binds the
/// identity once more under the session's own name. Where the host rejects
/// the registration the transaction is aborted.
pub open spec fn call_effect(s: HostView) -> HostView {
    match register_outcome(
        s,
        transfer_table(),
        None,
        Some(PACKAGE_HASH_KEY_NAME@),
        Some(ACCESS_KEY_NAME@),
    ) {
        Ok((after, key)) => bound(after, HASH_KEY_NAME@, key),
        Err(e) => reverted(s, spec_code(e)),
    }
}

/// Stores the contract and binds its identity.
pub fn call(host: &mut Host)
    requires
        old(host).wf(),
        old(host)@.running(),
    ensures
        final(host).wf(),
        final(host)@ == call_effect(old(host)@),
{
    let entry_points = {
        let mut entry_points = EntryPoints::new();
        let mut parameters: Vec<Parameter> = Vec::new();
        parameters.push(Parameter::new(ARG_0_NAME, CLType::FixedList(Box::new(CLType::U8), 32)));
        parameters.push(Parameter::new(ARG_1_NAME, CLType::U512));
        proof {
            assert(parameters.deep_view() =~= transfer_table()[0].parameters);
        }
        let entry_point = EntryPoint::new(
            ENTRY_FUNCTION_NAME.to_owned(),
            parameters,
            CLType::Unit,
            EntryPointAccess::Public,
            EntryPointType::Session,
        );
        entry_points.add_entry_point(entry_point);
        proof {
            assert(entry_points@ =~= transfer_table());
        }
        entry_points
    };
    let contract_hash = new_contract(
        host,
        entry_points,
        None,
        Some(PACKAGE_HASH_KEY_NAME.to_owned()),
        Some(ACCESS_KEY_NAME.to_owned()),
    );
    match contract_hash {
        Some(key) => {
            put_key(host, HASH_KEY_NAME, key);
        },
        None => {},
    }
}

} // verus!
