//! Registering contracts: the one operation that decides what code later
//! calls of an address will run.

use vstd::prelude::*;

use crate::contracts::EntryPoints;
use crate::error::spec_code;
use crate::host::{name_in, Host};
use crate::key::Key;
use crate::model::{register_outcome, reverted};
use crate::runtime::revert;

verus! {

/// Registers a contract with `entry_points`, or, where `existing` is a
/// reference to a stored contract, replaces the table of that contract and
/// leaves its namespace as it is. Hands back the identity of the contract,
/// or nothing where the host rejects the operation; the transaction is
/// then aborted.
///
/// That a table is replaced as a whole, and never in part, is the host's
/// doing: the guest relies on it.
pub fn new_contract(
    host: &mut Host,
    entry_points: EntryPoints,
    existing: Option<Key>,
    package_name: Option<String>,
    access_name: Option<String>,
) -> (r: Option<Key>)
    requires
        old(host).wf(),
        old(host)@.running(),
    ensures
        final(host).wf(),
        match register_outcome(
            old(host)@,
            entry_points@,
            existing,
            name_in(package_name),
            name_in(access_name),
        ) {
            Ok((after, key)) => r == Some(key) && final(host)@ == after,
            Err(e) => r.is_none() && final(host)@ == reverted(old(host)@, spec_code(e)),
        },
{
    match host.new_contract(entry_points, existing, package_name, access_name) {
        Ok(key) => Some(key),
        Err(error) => {
            revert(host, error);
            None
        },
    }
}

} // verus!
