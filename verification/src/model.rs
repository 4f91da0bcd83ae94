//! The state of the host as the protocol sees it, and what each operation does to it.
//!
//! The host itself is executable ([`crate::host::Host`]); this module is its
//! mathematical description. Every operation of the host is proved to make
//! the step that is written down here, and the laws of the protocol are
//! proved of these steps.

use vstd::prelude::*;

use crate::account::PublicKey;
use crate::block_time::BlockTime;
use crate::bytesrepr::{decoding, le_bytes, ToBytes, MAX_SERIALIZED_LENGTH};
use crate::cl_type::{CLType, CLTyped};
use crate::cl_value::{CLValue, CLValueView};
use crate::contracts::{EntryPointAccess, EntryPointType, EntryPointView};
use crate::error::{spec_code, ApiError};
use crate::execution::Phase;
use crate::key::{urefs_among, Key};
use crate::named_keys::{entries_of, held_in, NamedKeys};
use crate::uref::{address_of, AccessRights, URef};

verus! {

/// A stored contract: its entry points, its namespace and its version marker.
pub struct RecordView {
    /// Where the record lives.
    pub address: [u8; 32],
    /// The entry-point table.
    pub entry_points: Seq<EntryPointView>,
    /// The namespace that calls of the contract start from.
    pub named_keys: Map<Seq<char>, Key>,
    /// The references that the host has issued to the contract: those that
    /// it recognised when the last context of the contract returned.
    pub granted: Set<URef>,
    /// The version marker: it grows with every replacement of the table.
    pub version: u64,
}

/// The durable state: the namespace of the signing account and the stored contracts.
pub struct LedgerView {
    /// The namespace of the account that signed the transaction.
    pub account: Map<Seq<char>, Key>,
    /// The references that the host has issued to the account: those that
    /// it recognised when the last context of the account returned.
    pub granted: Set<URef>,
    /// The stored contracts, in the order in which they were registered.
    pub records: Seq<RecordView>,
}

/// One execution context: a frame of the call stack.
pub struct FrameView {
    /// The step of the transaction that is being executed.
    pub phase: Phase,
    /// The caller that the context observes: the signer of the transaction.
    pub caller: PublicKey,
    /// How many contexts lie below this one.
    pub depth: nat,
    /// The record whose namespace this context works on; none for the
    /// context of the account.
    pub base: Option<int>,
    /// The working copy of the namespace.
    pub named_keys: Map<Seq<char>, Key>,
    /// The capability references that the host recognises in this context.
    pub capabilities: Set<URef>,
    /// The arguments of the invocation.
    pub args: Seq<CLValueView>,
}

/// What the host holds ready for the guest to fetch.
pub enum StagedView {
    /// Nothing: a fetch would be a fault.
    Nothing,
    /// An argument.
    Argument(Seq<u8>),
    /// The key bound to a name.
    NamedKey(Seq<u8>),
    /// The whole namespace.
    NamedKeys(Seq<u8>),
    /// The value that a called contract returned.
    CallResult(Seq<u8>),
}

/// The kinds of value that the guest fetches from the host.
#[derive(Clone, Copy, Debug, PartialEq, Eq, Structural)]
pub enum Fetched {
    /// An argument.
    Argument,
    /// The key bound to a name.
    NamedKey,
    /// The whole namespace.
    NamedKeys,
    /// The value that a called contract returned.
    CallResult,
}

/// How far the transaction has come.
#[derive(Clone, Copy, Debug, PartialEq, Eq, Structural)]
pub enum Status {
    /// Some context is executing.
    Running,
    /// The outermost context returned: its effects are durable.
    Returned,
    /// Some context aborted with the given code: no effect is durable.
    Reverted(u32),
}

/// The state of the host.
pub struct HostView {
    /// The durable state as it was when the transaction began, or as the
    /// transaction left it when it returned.
    pub committed: LedgerView,
    /// The durable state as the contexts that returned so far would leave it.
    pub working: LedgerView,
    /// The account that signed the transaction.
    pub signer: PublicKey,
    /// The time of the block.
    pub block_time: BlockTime,
    /// The contexts that are executing, the outermost first.
    pub stack: Seq<FrameView>,
    /// What is ready to be fetched.
    pub staged: StagedView,
    /// The fetches that the guest has made, in order.
    pub fetched: Seq<Fetched>,
    /// How far the transaction has come.
    pub status: Status,
}

/// The bytes of the address of the `n`th record: `n` in eight bytes, least
/// significant first, and 24 zero bytes.
pub open spec fn mint_bytes(n: nat) -> Seq<u8> {
    le_bytes(n, 8) + Seq::new(24, |i: int| 0u8)
}

/// The address of the `n`th record.
pub open spec fn mint_address(n: nat) -> [u8; 32] {
    address_of(mint_bytes(n))
}

/// Whether the records of a ledger live where the host put them.
pub open spec fn ledger_wf(l: LedgerView) -> bool {
    &&& l.records.len() <= u64::MAX
    &&& forall|i: int|
        0 <= i < l.records.len() ==> (#[trigger] l.records[i]).address@ == mint_bytes(i as nat)
}

/// Whether a value can be marshalled: its lengths fit and its encoding is
/// not longer than a buffer may be.
pub open spec fn encodable<T: ToBytes>(v: T::V) -> bool {
    T::fits(v) && T::wire(v).len() <= MAX_SERIALIZED_LENGTH
}

/// Whether each of the arguments can be marshalled.
pub open spec fn args_encodable(args: Seq<CLValueView>) -> bool {
    forall|i: int| 0 <= i < args.len() ==> encodable::<CLValue>(#[trigger] args[i])
}

/// The bytes that are ready to be fetched, if any.
pub open spec fn staged_bytes(staged: StagedView) -> Option<Seq<u8>> {
    match staged {
        StagedView::Nothing => None,
        StagedView::Argument(b) => Some(b),
        StagedView::NamedKey(b) => Some(b),
        StagedView::NamedKeys(b) => Some(b),
        StagedView::CallResult(b) => Some(b),
    }
}

impl HostView {
    /// The context that is executing.
    pub open spec fn top(self) -> FrameView {
        self.stack[self.stack.len() - 1]
    }

    /// The state with `f` in place of the context that is executing.
    pub open spec fn with_top(self, f: FrameView) -> HostView {
        HostView { stack: self.stack.update(self.stack.len() - 1, f), ..self }
    }

    /// Whether some context is executing.
    pub open spec fn running(self) -> bool {
        self.status == Status::Running
    }

    /// Whether the state is one that the host can be in.
    pub open spec fn wf(self) -> bool {
        &&& ledger_wf(self.committed)
        &&& ledger_wf(self.working)
        &&& self.running() <==> self.stack.len() > 0
        &&& forall|i: int| 0 <= i < self.stack.len() ==> self.frame_wf(i)
        &&& match staged_bytes(self.staged) {
            Some(b) => b.len() <= MAX_SERIALIZED_LENGTH,
            None => true,
        }
        &&& match self.staged {
            StagedView::CallResult(b) => decoding::<CLValue>(b) is Ok,
            _ => true,
        }
    }

    /// Whether the context at `i` is one that the host can have made.
    pub open spec fn frame_wf(self, i: int) -> bool {
        let f = self.stack[i];
        &&& f.depth == i
        &&& f.caller == self.signer
        &&& f.phase == self.stack[0].phase
        &&& (i == 0 <==> f.base is None)
        &&& (f.base matches Some(b) ==> 0 <= b < self.working.records.len())
        &&& args_encodable(f.args)
    }
}

/// Whether the host recognises `u` in a context that holds `caps`: some
/// reference that it holds points where `u` points and carries every right
/// that `u` claims.
pub open spec fn holds(caps: Set<URef>, u: URef) -> bool {
    exists|c: URef| caps.contains(c) && #[trigger] u.spec_is_covered_by(c)
}

/// The place of the record that lives at `addr`, if there is one.
pub open spec fn find_record(l: LedgerView, addr: [u8; 32]) -> Option<int> {
    if exists|i: int| 0 <= i < l.records.len() && (#[trigger] l.records[i]).address == addr {
        Some(choose|i: int| 0 <= i < l.records.len() && (#[trigger] l.records[i]).address == addr)
    } else {
        None
    }
}

/// The envelope, encoded, in which the host hands a key to the guest.
pub open spec fn key_envelope(k: Key) -> Seq<u8> {
    CLValue::wire(CLValueView { cl_type: CLType::Key, bytes: Key::wire(k) })
}

/// The envelope of a key is short: it can always be marshalled.
pub proof fn lemma_key_envelope(k: Key)
    ensures
        Key::wire(k).len() <= 34,
        key_envelope(k).len() <= 39,
        encodable::<Key>(k),
        encodable::<CLValue>(CLValueView { cl_type: CLType::Key, bytes: Key::wire(k) }),
{
    crate::bytesrepr::lemma_le_bytes_len(Key::wire(k).len(), 4);
}

/// The envelope, not yet encoded, in which the host hands a namespace to the guest.
pub open spec fn namespace_value(m: Map<Seq<char>, Key>) -> CLValueView {
    CLValueView { cl_type: NamedKeys::spec_cl_type(), bytes: NamedKeys::wire(entries_of(m)) }
}

/// Whether a namespace can be handed to the guest: it can be marshalled,
/// and so can the envelope that holds it.
pub open spec fn namespace_encodable(m: Map<Seq<char>, Key>) -> bool {
    encodable::<NamedKeys>(entries_of(m)) && encodable::<CLValue>(namespace_value(m))
}

/// Whether the guest reads the namespace back from what the host hands
/// over: the encoded envelope decodes to the envelope, its bytes to the
/// entries of the namespace, and the entries stand for the namespace.
#[verifier::opaque]
pub open spec fn namespace_readable(m: Map<Seq<char>, Key>) -> bool {
    &&& decoding::<CLValue>(CLValue::wire(namespace_value(m))) == Ok::<
        CLValueView,
        crate::bytesrepr::Error,
    >(namespace_value(m))
    &&& decoding::<NamedKeys>(namespace_value(m).bytes) == Ok::<
        Seq<(Seq<char>, Key)>,
        crate::bytesrepr::Error,
    >(entries_of(m))
    &&& crate::named_keys::to_map(entries_of(m)) == m
}

/// The references that the host recognises in a context that starts from
/// the namespace `ns` of a holder to which it has issued `granted`: those
/// that are bound in the namespace and that it has issued. A reference
/// that was bound without having been issued is not among them.
pub open spec fn seeded(ns: Map<Seq<char>, Key>, granted: Set<URef>) -> Set<URef> {
    Set::new(|u: URef| held_in(ns, u) && holds(granted, u))
}

/// A ledger whose records are where they were is well-formed as it was.
pub proof fn lemma_addresses_kept(before: LedgerView, after: LedgerView)
    requires
        ledger_wf(before),
        after.records.len() == before.records.len(),
        forall|i: int|
            0 <= i < before.records.len() ==> (#[trigger] after.records[i]).address
                == before.records[i].address,
    ensures
        ledger_wf(after),
{
    assert forall|i: int| 0 <= i < after.records.len() implies (
    #[trigger] after.records[i]).address@ == mint_bytes(i as nat) by {
        assert(before.records[i].address@ == mint_bytes(i as nat));
    }
}

/// A ledger to which a record was added at the next address is well-formed
/// as it was.
pub proof fn lemma_record_added(before: LedgerView, rec: RecordView)
    requires
        ledger_wf(before),
        before.records.len() < u64::MAX,
        rec.address@ == mint_bytes(before.records.len()),
    ensures
        ledger_wf(LedgerView { records: before.records.push(rec), ..before }),
{
    let after = LedgerView { records: before.records.push(rec), ..before };
    assert forall|i: int| 0 <= i < after.records.len() implies (
    #[trigger] after.records[i]).address@ == mint_bytes(i as nat) by {
        if i < before.records.len() {
            assert(before.records[i].address@ == mint_bytes(i as nat));
        }
    }
}

/// The state after `name` was bound to `key` in the executing context.
/// Any key can be bound. Binding changes the namespace and nothing else:
/// what the host recognises in the context stays as it is.
pub open spec fn bound(s: HostView, name: Seq<char>, key: Key) -> HostView {
    s.with_top(FrameView { named_keys: s.top().named_keys.insert(name, key), ..s.top() })
}

/// The state after `name` was unbound in the executing context.
pub open spec fn unbound(s: HostView, name: Seq<char>) -> HostView {
    s.with_top(FrameView { named_keys: s.top().named_keys.remove(name), ..s.top() })
}

/// The state with `staged` ready to be fetched.
pub open spec fn with_staged(s: HostView, staged: StagedView) -> HostView {
    HostView { staged, ..s }
}

/// The state after the guest has fetched what was ready: nothing is ready
/// any more, and the fetch is on record.
pub open spec fn after_fetch(s: HostView, kind: Fetched) -> HostView {
    HostView { staged: StagedView::Nothing, fetched: s.fetched.push(kind), ..s }
}

/// The state after an abort with `code`: nothing that happened since the
/// transaction began is durable, and no context is left.
pub open spec fn reverted(s: HostView, code: u32) -> HostView {
    HostView {
        working: s.committed,
        stack: Seq::empty(),
        staged: StagedView::Nothing,
        status: Status::Reverted(code),
        ..s
    }
}

/// The ledger with `ns` stored as the namespace that the context of `base`
/// worked on, and `caps`, which the host recognised in that context, as
/// what it has issued to the holder of that namespace.
pub open spec fn stored(
    l: LedgerView,
    base: Option<int>,
    ns: Map<Seq<char>, Key>,
    caps: Set<URef>,
) -> LedgerView {
    match base {
        None => LedgerView { account: ns, granted: caps, ..l },
        Some(b) => LedgerView {
            records: l.records.update(
                b,
                RecordView { named_keys: ns, granted: caps, ..l.records[b] },
            ),
            ..l
        },
    }
}

/// Whether the executing context may hand `urefs` on: the host must
/// recognise each of them there.
pub open spec fn may_forward(s: HostView, urefs: Seq<URef>) -> bool {
    forall|i: int| 0 <= i < urefs.len() ==> holds(s.top().capabilities, #[trigger] urefs[i])
}

/// The state after the executing context returned `value` and handed
/// `urefs` back: its namespace is stored, together with what the host
/// recognised in it; the outermost context makes the working state
/// durable, any other leaves the value and the references to the context
/// below.
pub open spec fn returned(s: HostView, value: Seq<u8>, urefs: Seq<URef>) -> HostView {
    let w = stored(s.working, s.top().base, s.top().named_keys, s.top().capabilities);
    if s.stack.len() == 1 {
        HostView {
            committed: w,
            working: w,
            stack: Seq::empty(),
            staged: StagedView::Nothing,
            status: Status::Returned,
            ..s
        }
    } else {
        let below = s.stack[s.stack.len() - 2];
        HostView {
            working: w,
            stack: s.stack.drop_last().update(
                s.stack.len() - 2,
                FrameView {
                    capabilities: below.capabilities.union(urefs.to_set()),
                    ..below
                },
            ),
            staged: StagedView::CallResult(value),
            ..s
        }
    }
}

/// What `ret` does: the return where the value is an envelope of
/// marshallable size and the references may be handed on, an abort otherwise.
pub open spec fn ret_outcome(s: HostView, value: Seq<u8>, urefs: Seq<URef>) -> HostView {
    if decoding::<CLValue>(value) is Err {
        reverted(s, spec_code(ApiError::Deserialize))
    } else if value.len() > MAX_SERIALIZED_LENGTH {
        reverted(s, spec_code(ApiError::OutOfMemory))
    } else if !may_forward(s, urefs) {
        reverted(s, spec_code(ApiError::NoAccessRights))
    } else {
        returned(s, value, urefs)
    }
}

/// The record that a key calls, or why it calls none.
pub open spec fn target_of(s: HostView, key: Key) -> Result<int, ApiError> {
    match key {
        Key::Account(_) => Err(ApiError::UnexpectedKeyVariant),
        Key::Hash(a) => match find_record(s.working, a) {
            Some(b) => Ok(b),
            None => Err(ApiError::ContractNotFound),
        },
        Key::URef(u) => if holds(s.top().capabilities, u) && u.access_rights.read {
            match find_record(s.working, u.addr) {
                Some(b) => Ok(b),
                None => Err(ApiError::ContractNotFound),
            }
        } else {
            Err(ApiError::NoAccessRights)
        },
    }
}

/// The context in which the record at `b` starts when it is called with
/// `args` and `urefs`: the namespace is the record's own, and the host
/// recognises the references in that namespace that it has issued to the
/// contract, and those handed on, and no others.
pub open spec fn callee_frame(
    s: HostView,
    b: int,
    args: Seq<CLValueView>,
    urefs: Seq<URef>,
) -> FrameView {
    let ns = s.working.records[b].named_keys;
    let granted = s.working.records[b].granted;
    FrameView {
        phase: s.top().phase,
        caller: s.signer,
        depth: s.stack.len(),
        base: Some(b),
        named_keys: ns,
        capabilities: Set::new(|u: URef| seeded(ns, granted).contains(u) || urefs.contains(u)),
        args,
    }
}

/// What a call does: the state with the callee's context on top, or why
/// the host rejects the call.
pub open spec fn call_outcome(
    s: HostView,
    key: Key,
    args: Seq<CLValueView>,
    keys: Seq<Key>,
) -> Result<HostView, ApiError> {
    if !args_encodable(args) {
        Err(ApiError::OutOfMemory)
    } else {
        match target_of(s, key) {
            Err(e) => Err(e),
            Ok(b) => if !may_forward(s, urefs_among(keys)) {
                Err(ApiError::NoAccessRights)
            } else {
                Ok(
                    HostView {
                        stack: s.stack.push(callee_frame(s, b, args, urefs_among(keys))),
                        staged: StagedView::Nothing,
                        ..s
                    },
                )
            },
        }
    }
}

/// The table of a contract that consists of the one function `name`.
pub open spec fn single_entry_table(name: Seq<char>) -> Seq<EntryPointView> {
    seq![
        EntryPointView {
            name,
            parameters: Seq::empty(),
            ret: CLType::Unit,
            access: EntryPointAccess::Public,
            entry_point_type: EntryPointType::Contract,
        },
    ]
}

/// The state after the table of the record at `b` was replaced: the
/// namespace of the record stays, its version marker grows by one.
pub open spec fn replaced(s: HostView, b: int, table: Seq<EntryPointView>) -> HostView {
    let rec = s.working.records[b];
    HostView {
        working: LedgerView {
            records: s.working.records.update(
                b,
                RecordView { entry_points: table, version: (rec.version + 1) as u64, ..rec },
            ),
            ..s.working
        },
        ..s
    }
}

/// What replacing the table at a reference does: the state after it, or
/// why the host rejects it.
pub open spec fn replace_outcome(s: HostView, uref: URef, table: Seq<EntryPointView>) -> Result<
    HostView,
    ApiError,
> {
    if !(holds(s.top().capabilities, uref) && uref.access_rights.write) {
        Err(ApiError::NoAccessRights)
    } else {
        match find_record(s.working, uref.addr) {
            None => Err(ApiError::ContractNotFound),
            Some(b) => if s.working.records[b].version == u64::MAX {
                Err(ApiError::UpgradeContractAtURef)
            } else {
                Ok(replaced(s, b, table))
            },
        }
    }
}

/// The reference to a record that carries every right.
pub open spec fn full_reference(addr: [u8; 32]) -> URef {
    URef { addr, access_rights: AccessRights { read: true, write: true, add: true } }
}

/// The namespace with `key` bound to `name`, where a name is given.
pub open spec fn bound_if(ns: Map<Seq<char>, Key>, name: Option<Seq<char>>, key: Key) -> Map<
    Seq<char>,
    Key,
> {
    match name {
        Some(n) => ns.insert(n, key),
        None => ns,
    }
}

/// The state after a fresh record with `table` was registered: the record
/// is the last of the ledger, the executing context holds the reference to
/// it with every right, and has the identity of the contract bound to
/// `package_name` and that reference to `access_name`, where they are given.
pub open spec fn registered(
    s: HostView,
    table: Seq<EntryPointView>,
    package_name: Option<Seq<char>>,
    access_name: Option<Seq<char>>,
) -> HostView {
    let addr = mint_address(s.working.records.len());
    let rec = RecordView {
        address: addr,
        entry_points: table,
        named_keys: Map::empty(),
        granted: Set::empty(),
        version: 1,
    };
    let top = s.top();
    HostView {
        working: LedgerView { records: s.working.records.push(rec), ..s.working },
        ..s.with_top(
            FrameView {
                named_keys: bound_if(
                    bound_if(top.named_keys, package_name, Key::Hash(addr)),
                    access_name,
                    Key::URef(full_reference(addr)),
                ),
                capabilities: top.capabilities.insert(full_reference(addr)),
                ..top
            },
        )
    }
}

/// What registering or replacing a contract does: the state after it and
/// the identity of the contract, or why the host rejects it.
pub open spec fn register_outcome(
    s: HostView,
    table: Seq<EntryPointView>,
    existing: Option<Key>,
    package_name: Option<Seq<char>>,
    access_name: Option<Seq<char>>,
) -> Result<(HostView, Key), ApiError> {
    match existing {
        Some(Key::URef(u)) => match replace_outcome(s, u, table) {
            Ok(after) => Ok((after, Key::Hash(u.addr))),
            Err(e) => Err(e),
        },
        Some(_) => Err(ApiError::UnexpectedKeyVariant),
        None => if s.working.records.len() >= u64::MAX {
            Err(ApiError::OutOfMemory)
        } else {
            Ok(
                (
                    registered(s, table, package_name, access_name),
                    Key::Hash(mint_address(s.working.records.len())),
                ),
            )
        },
    }
}

} // verus!
