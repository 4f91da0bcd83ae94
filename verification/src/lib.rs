//! The protocol between a contract and the ledger host that runs it.
//!
//! A contract is untrusted code. It reaches the state of the ledger only
//! through a narrow set of host operations, and what it may reach is
//! decided by the capability references that the host has issued to it.
//!
//! - [`bytesrepr`] is the byte encoding of everything that crosses the
//!   boundary; [`cl_type`] and [`cl_value`] are the typed envelope that
//!   values travel in.
//! - [`uref`], [`key`] and [`named_keys`] are capability references, the
//!   address space, and the namespace through which a context finds its
//!   keys.
//! - [`model`] describes the state of the host and the step that each
//!   operation makes; [`host`] is the host in executable form, proved to
//!   make those steps; [`laws`] proves what the protocol promises.
//! - [`runtime`] and [`storage`] are what a contract calls;
//!   [`transfer_purse_to_account_stored`] is a session that uses them.
//! - [`account`], [`block_time`], [`execution`], [`contracts`], [`error`],
//!   [`ledger`] and [`name_order`] hold the smaller types: the signer, the
//!   block time, the phase, entry-point tables, status codes, the durable
//!   state, and the order in which names are enumerated.

pub mod account;
pub mod block_time;
pub mod bytesrepr;
pub mod cl_type;
pub mod cl_value;
pub mod contracts;
pub mod error;
pub mod execution;
pub mod host;
pub mod key;
pub mod laws;
pub mod ledger;
pub mod model;
pub mod name_order;
pub mod named_keys;
pub mod runtime;
pub mod storage;
pub mod transfer_purse_to_account_stored;
pub mod uref;
