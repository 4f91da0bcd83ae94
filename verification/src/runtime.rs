//! What a contract calls: typed functions that marshal their arguments,
//! make the host call, and unmarshal what comes back.
//!
//! Values that come from the host are fetched in two steps: a sizing call
//! says how long the value is, or that there is none; the guest then makes
//! a buffer of that length and has the host copy the value into it. Where
//! the host rejects an operation, these functions abort the transaction.

use vstd::prelude::*;
use vstd::string::StringSliceAdditionalSpecFns;

use crate::account::{PublicKey, PUBLIC_KEY_SERIALIZED_LENGTH};
use crate::block_time::{BlockTime, BLOCKTIME_SER_SIZE};
use crate::bytesrepr::{
    decoding, deserialize, lemma_decoding_encoding, lemma_le_bytes_len, Error, FromBytes, ToBytes,
};
use crate::cl_type::CLTyped;
use crate::cl_value::{open_envelope, spec_to_t, CLValue, CLValueError, CLValueView};
use crate::error::{lemma_code_round_trip, result_from, spec_code, ApiError};
use crate::execution::{Phase, PHASE_SIZE};
use crate::host::{lemma_name_of_bytes, load_arg_step, Host};
use crate::key::Key;
use crate::model::{
    after_fetch, bound, call_outcome, encodable, holds, lemma_key_envelope, may_forward,
    namespace_encodable, namespace_readable, replace_outcome, returned, reverted,
    single_entry_table, unbound, with_staged, Fetched, HostView, StagedView,
};
use crate::named_keys::NamedKeys;
use crate::uref::URef;

verus! {

/// A reference to a stored contract.
#[derive(Clone, Copy, Debug, PartialEq, Eq)]
pub enum ContractRef {
    /// By the address of its record.
    Hash([u8; 32]),
    /// By a capability reference to its record.
    URef(URef),
}

impl ContractRef {
    /// The key that the reference stands for.
    pub open spec fn spec_key(self) -> Key {
        match self {
            ContractRef::Hash(a) => Key::Hash(a),
            ContractRef::URef(u) => Key::URef(u),
        }
    }

    /// The key that the reference stands for.
    pub fn into_key(self) -> (r: Key)
        ensures
            r == self.spec_key(),
    {
        match self {
            ContractRef::Hash(a) => Key::Hash(a),
            ContractRef::URef(u) => Key::URef(u),
        }
    }
}

/// A buffer of `n` bytes for the host to write into.
pub fn alloc_bytes(n: usize) -> (r: Vec<u8>)
    ensures
        r@.len() == n,
        forall|i: int| 0 <= i < n ==> r@[i] == 0,
{
    let mut out: Vec<u8> = Vec::new();
    let mut i: usize = 0;
    while i < n
        invariant
            i <= n,
            out@.len() == i,
            forall|j: int| 0 <= j < i ==> out@[j] == 0,
        decreases n - i,
    {
        out.push(0u8);
        i = i + 1;
    }
    out
}

/// What a sizing call says: the length of the value that is ready, or
/// nothing where the host answered with the sentinel. A length that no
/// buffer of the guest can have is no length either.
pub fn size_or_absent(size: i64) -> (r: Option<usize>)
    ensures
        size < 0 ==> r.is_none(),
        0 <= size <= usize::MAX ==> r == Some(size as usize),
        size > usize::MAX ==> r.is_none(),
{
    if size < 0 {
        None
    } else if size as u64 > usize::MAX as u64 {
        None
    } else {
        Some(size as usize)
    }
}

/// Stops the transaction and discards its effects, with `error` as the reason.
pub fn revert(host: &mut Host, error: ApiError)
    requires
        old(host).wf(),
        old(host)@.running(),
    ensures
        final(host).wf(),
        final(host)@ == reverted(old(host)@, spec_code(error)),
{
    host.revert(error.code());
}

/// What returning `value` and handing `urefs` back does: the return where
/// both can be marshalled and the host recognises the references, an
/// abort otherwise.
pub open spec fn ret_effect(s: HostView, value: CLValueView, urefs: Seq<URef>) -> HostView {
    if !encodable::<CLValue>(value) || !encodable::<Vec<URef>>(urefs) {
        reverted(s, spec_code(ApiError::OutOfMemory))
    } else if !may_forward(s, urefs) {
        reverted(s, spec_code(ApiError::NoAccessRights))
    } else {
        returned(s, CLValue::wire(value), urefs)
    }
}

/// Ends the executing context with `value` and hands `extra_urefs` to its
/// caller. The effects of the context are kept: the namespace it worked on
/// is stored, and where it is the outermost context everything becomes
/// durable.
pub fn ret(host: &mut Host, value: CLValue, extra_urefs: Vec<URef>)
    requires
        old(host).wf(),
        old(host)@.running(),
    ensures
        final(host).wf(),
        final(host)@ == ret_effect(old(host)@, value@, extra_urefs@),
{
    proof {
        assert(extra_urefs.deep_view() =~= extra_urefs@);
    }
    let bytes = match value.to_bytes() {
        Ok(b) => b,
        Err(e) => {
            revert(host, ApiError::from_bytesrepr(e));
            return ;
        },
    };
    let urefs_bytes = match extra_urefs.to_bytes() {
        Ok(b) => b,
        Err(e) => {
            revert(host, ApiError::from_bytesrepr(e));
            return ;
        },
    };
    proof {
        lemma_decoding_encoding::<CLValue>(value);
        lemma_decoding_encoding::<Vec<URef>>(extra_urefs);
    }
    host.ret(bytes.as_slice(), urefs_bytes.as_slice());
}

/// What calling `key` with `args` and `keys` does: the state with the
/// callee's context on top, or an abort where the arguments cannot be
/// marshalled or the host rejects the call.
pub open spec fn call_effect(
    s: HostView,
    key: Key,
    args: Seq<CLValueView>,
    keys: Seq<Key>,
) -> HostView {
    if !encodable::<Vec<CLValue>>(args) || !encodable::<Vec<Key>>(keys) {
        reverted(s, spec_code(ApiError::OutOfMemory))
    } else {
        match call_outcome(s, key, args, keys) {
            Ok(after) => after,
            Err(e) => reverted(s, spec_code(e)),
        }
    }
}

/// Calls the contract at `c_ptr` with `args`, handing it `extra_urefs`
/// and nothing else of what the caller holds. Says whether the callee is
/// now executing; where it is not, the transaction was aborted. What the
/// callee returns is fetched with [`get_call_result`] once it has returned.
pub fn call_contract(
    host: &mut Host,
    c_ptr: ContractRef,
    args: &Vec<CLValue>,
    extra_urefs: &Vec<Key>,
) -> (entered: bool)
    requires
        old(host).wf(),
        old(host)@.running(),
    ensures
        final(host).wf(),
        final(host)@ == call_effect(old(host)@, c_ptr.spec_key(), args.deep_view(), extra_urefs@),
        entered == final(host)@.running(),
{
    proof {
        assert(extra_urefs.deep_view() =~= extra_urefs@);
        host.lemma_wf();
    }
    let contract_key = c_ptr.into_key();
    proof {
        lemma_key_envelope(contract_key);
    }
    let key_bytes = match contract_key.to_bytes() {
        Ok(b) => b,
        Err(e) => {
            revert(host, ApiError::from_bytesrepr(e));
            return false;
        },
    };
    let args_bytes = match args.to_bytes() {
        Ok(b) => b,
        Err(e) => {
            revert(host, ApiError::from_bytesrepr(e));
            return false;
        },
    };
    let urefs_bytes = match extra_urefs.to_bytes() {
        Ok(b) => b,
        Err(e) => {
            revert(host, ApiError::from_bytesrepr(e));
            return false;
        },
    };
    proof {
        lemma_decoding_encoding::<Key>(contract_key);
        lemma_decoding_encoding::<Vec<CLValue>>(*args);
        lemma_decoding_encoding::<Vec<Key>>(*extra_urefs);
    }
    let status = host.call_contract(
        key_bytes.as_slice(),
        args_bytes.as_slice(),
        urefs_bytes.as_slice(),
    );
    match result_from(status) {
        Ok(_) => true,
        Err(error) => {
            proof {
                let e = call_outcome(
                    old(host)@,
                    c_ptr.spec_key(),
                    args.deep_view(),
                    extra_urefs@,
                )->Err_0;
                lemma_code_round_trip(e);
            }
            revert(host, error);
            false
        },
    }
}

/// Fetches the value that the contract called last has returned, if it
/// has returned one that was not fetched yet.
pub fn get_call_result(host: &mut Host) -> (r: Option<CLValue>)
    requires
        old(host).wf(),
    ensures
        final(host).wf(),
        match old(host)@.staged {
            StagedView::CallResult(b) => r matches Some(v) && decoding::<CLValue>(b) == Ok::<
                CLValueView,
                Error,
            >(v@) && final(host)@ == after_fetch(old(host)@, Fetched::CallResult),
            _ => r.is_none() && final(host)@ == old(host)@,
        },
{
    proof {
        host.lemma_wf();
    }
    let size = match size_or_absent(host.load_call_result()) {
        Some(n) => n,
        None => {
            return None;
        },
    };
    let mut dest = alloc_bytes(size);
    host.get_call_result(&mut dest);
    match deserialize::<CLValue>(dest.as_slice()) {
        Ok(v) => Some(v),
        Err(_) => unreached(),
    }
}

/// What replacing the contract at `uref` by the function `name` does: the
/// state after it, or an abort where the host rejects it.
pub open spec fn upgrade_effect(s: HostView, name: Seq<char>, uref: URef) -> HostView {
    match replace_outcome(s, uref, single_entry_table(name)) {
        Ok(after) => after,
        Err(e) => reverted(s, spec_code(e)),
    }
}

/// Replaces the contract stored at `uref` by one that consists of the
/// function `name`. The namespace of the record stays as it is and its
/// version marker grows by one. The reference must be one that the host
/// recognises in the executing context, with the right to write.
pub fn upgrade_contract_at_uref(host: &mut Host, name: &str, uref: URef)
    requires
        old(host).wf(),
        old(host)@.running(),
    ensures
        final(host).wf(),
        final(host)@ == upgrade_effect(old(host)@, name@, uref),
{
    let key = Key::URef(uref);
    proof {
        lemma_key_envelope(key);
        lemma_name_of_bytes(name@);
    }
    let key_bytes = match key.to_bytes() {
        Ok(b) => b,
        Err(e) => {
            revert(host, ApiError::from_bytesrepr(e));
            return ;
        },
    };
    proof {
        lemma_decoding_encoding::<Key>(key);
    }
    let status = host.upgrade_contract_at_uref(name.as_bytes(), key_bytes.as_slice());
    match result_from(status) {
        Ok(_) => {},
        Err(error) => {
            proof {
                let e = replace_outcome(old(host)@, uref, single_entry_table(name@))->Err_0;
                lemma_code_round_trip(e);
            }
            revert(host, error);
        },
    }
}

/// The argument at `i` of the executing context, if there is one.
pub open spec fn arg_at(s: HostView, i: u32) -> Option<CLValueView> {
    if i < s.top().args.len() {
        Some(s.top().args[i as int])
    } else {
        None
    }
}

/// Asks the host for the length of the argument at `index`. Where there
/// is such an argument it is then ready to be fetched.
pub fn load_arg(host: &mut Host, index: u32) -> (r: Option<usize>)
    requires
        old(host).wf(),
        old(host)@.running(),
    ensures
        final(host).wf(),
        final(host)@ == load_arg_step(old(host)@, index),
        match arg_at(old(host)@, index) {
            Some(v) => r == Some(CLValue::wire(v).len() as usize) && CLValue::wire(v).len()
                <= usize::MAX && decoding::<CLValue>(CLValue::wire(v)) == Ok::<
                CLValueView,
                Error,
            >(v),
            None => r.is_none(),
        },
{
    proof {
        host.lemma_wf();
        assert(old(host)@.frame_wf(old(host)@.stack.len() - 1));
    }
    let arg_size = host.load_arg(index);
    size_or_absent(arg_size)
}

/// The argument at `i` of the executing context, taken out of its
/// envelope as a `T`. Nothing where there is no such argument, in which
/// case no fetch is made; the failure where the envelope holds a value of
/// another type or its bytes are not those of a `T`.
pub fn get_arg<T: CLTyped + FromBytes>(host: &mut Host, i: u32) -> (r: Option<
    Result<T, CLValueError>,
>)
    requires
        old(host).wf(),
        old(host)@.running(),
    ensures
        final(host).wf(),
        match arg_at(old(host)@, i) {
            None => r.is_none() && final(host)@ == with_staged(old(host)@, StagedView::Nothing),
            Some(v) => r matches Some(found) && (match spec_to_t::<T>(v) {
                Ok(x) => found matches Ok(y) && y.deep_view() == x,
                Err(e) => found matches Err(f) && f == e,
            }) && final(host)@ == after_fetch(old(host)@, Fetched::Argument),
        },
{
    let arg_size = match load_arg(host, i) {
        Some(n) => n,
        None => {
            return None;
        },
    };
    let mut arg_bytes = alloc_bytes(arg_size);
    host.get_arg(&mut arg_bytes);
    Some(open_envelope::<T>(arg_bytes.as_slice()))
}

/// The caller that the executing context observes: the account that
/// signed the transaction, however deep the context lies in the stack.
pub fn get_caller(host: &Host) -> (r: PublicKey)
    requires
        host.wf(),
        host@.running(),
    ensures
        r == host@.signer,
        r == host@.top().caller,
{
    proof {
        lemma_le_bytes_len(32, 4);
        lemma_decoding_encoding::<PublicKey>(host@.top().caller);
    }
    let mut dest = alloc_bytes(PUBLIC_KEY_SERIALIZED_LENGTH);
    host.get_caller(&mut dest);
    match deserialize::<PublicKey>(dest.as_slice()) {
        Ok(caller) => caller,
        Err(_) => unreached(),
    }
}

/// The time of the block that holds the transaction.
pub fn get_blocktime(host: &Host) -> (r: BlockTime)
    requires
        host.wf(),
        host@.running(),
    ensures
        r == host@.block_time,
{
    proof {
        lemma_le_bytes_len(host@.block_time.millis as nat, 8);
        lemma_decoding_encoding::<BlockTime>(host@.block_time);
    }
    let mut dest = alloc_bytes(BLOCKTIME_SER_SIZE);
    host.get_blocktime(&mut dest);
    match deserialize::<BlockTime>(dest.as_slice()) {
        Ok(time) => time,
        Err(_) => unreached(),
    }
}

/// The step of the transaction that is being executed.
pub fn get_phase(host: &Host) -> (r: Phase)
    requires
        host.wf(),
        host@.running(),
    ensures
        r == host@.top().phase,
{
    proof {
        lemma_decoding_encoding::<Phase>(host@.top().phase);
    }
    let mut dest = alloc_bytes(PHASE_SIZE);
    host.get_phase(&mut dest);
    match deserialize::<Phase>(dest.as_slice()) {
        Ok(phase) => phase,
        Err(_) => unreached(),
    }
}

/// The key that the executing context has bound to `name`, if any.
pub open spec fn key_at(s: HostView, name: Seq<char>) -> Option<Key> {
    if s.top().named_keys.contains_key(name) {
        Some(s.top().named_keys[name])
    } else {
        None
    }
}

/// The key bound to `name` in the namespace of the executing context.
/// Where the name is not bound the sizing call says so, and no fetch is
/// made; where it is bound, the key is fetched once.
pub fn get_key(host: &mut Host, name: &str) -> (r: Option<Key>)
    requires
        old(host).wf(),
        old(host)@.running(),
    ensures
        final(host).wf(),
        r == key_at(old(host)@, name@),
        final(host)@ == (if key_at(old(host)@, name@) is Some {
            after_fetch(old(host)@, Fetched::NamedKey)
        } else {
            with_staged(old(host)@, StagedView::Nothing)
        }),
{
    proof {
        lemma_name_of_bytes(name@);
        host.lemma_wf();
        if key_at(old(host)@, name@) is Some {
            let k = key_at(old(host)@, name@)->Some_0;
            lemma_key_envelope(k);
            lemma_decoding_encoding::<Key>(k);
        }
    }
    let key_size = match size_or_absent(host.get_key(name.as_bytes())) {
        Some(n) => n,
        None => {
            return None;
        },
    };
    let mut key_bytes = alloc_bytes(key_size);
    host.read_key(&mut key_bytes);
    match open_envelope::<Key>(key_bytes.as_slice()) {
        Ok(key) => Some(key),
        Err(_) => unreached(),
    }
}

/// What the status of the existence probe says: the name is bound where
/// the status is 0, and is not where it is anything else.
pub fn key_is_present(status: i32) -> (r: bool)
    ensures
        r == (status == 0),
{
    status == 0
}

/// What the answer of the validity check says: the host recognises the
/// reference where the answer is not 0, and does not where it is 0.
pub fn uref_is_valid(answer: i32) -> (r: bool)
    ensures
        r == (answer != 0),
{
    answer != 0
}

/// Whether `name` is bound in the namespace of the executing context.
pub fn has_key(host: &Host, name: &str) -> (r: bool)
    requires
        host.wf(),
        host@.running(),
    ensures
        r == host@.top().named_keys.contains_key(name@),
{
    proof {
        lemma_name_of_bytes(name@);
    }
    let result = host.has_key(name.as_bytes());
    key_is_present(result)
}

/// Binds `name` to `key` in the namespace of the executing context, in
/// place of what it was bound to. Every key is bound, and the transaction
/// goes on. Binding grants nothing: the host recognises in the context what
/// it recognised before, so a reference that it did not recognise is bound
/// and stays unrecognised.
pub fn put_key(host: &mut Host, name: &str, key: Key)
    requires
        old(host).wf(),
        old(host)@.running(),
    ensures
        final(host).wf(),
        final(host)@ == bound(old(host)@, name@, key),
        final(host)@.running(),
        final(host)@.top().named_keys == old(host)@.top().named_keys.insert(name@, key),
        final(host)@.top().capabilities == old(host)@.top().capabilities,
{
    proof {
        host.lemma_wf();
        lemma_name_of_bytes(name@);
        lemma_key_envelope(key);
        lemma_decoding_encoding::<Key>(key);
    }
    let key_bytes = match key.to_bytes() {
        Ok(b) => b,
        Err(_) => unreached(),
    };
    let status = host.put_key(name.as_bytes(), key_bytes.as_slice());
    match result_from(status) {
        Ok(_) => {},
        Err(_) => unreached(),
    }
}

/// Unbinds `name` in the namespace of the executing context. What the
/// host recognises in the context stays as it is.
pub fn remove_key(host: &mut Host, name: &str)
    requires
        old(host).wf(),
        old(host)@.running(),
    ensures
        final(host).wf(),
        final(host)@ == unbound(old(host)@, name@),
{
    proof {
        lemma_name_of_bytes(name@);
    }
    host.remove_key(name.as_bytes());
}

/// The namespace of the executing context, with its names in their
/// order. Nothing where the namespace is too large to be marshalled; the
/// transaction is then aborted.
pub fn list_named_keys(host: &mut Host) -> (r: Option<NamedKeys>)
    requires
        old(host).wf(),
        old(host)@.running(),
    ensures
        final(host).wf(),
        namespace_encodable(old(host)@.top().named_keys) ==> (r matches Some(keys) && keys@
            == old(host)@.top().named_keys && final(host)@ == after_fetch(
            old(host)@,
            Fetched::NamedKeys,
        )),
        !namespace_encodable(old(host)@.top().named_keys) ==> (r.is_none() && final(host)@
            == reverted(old(host)@, spec_code(ApiError::OutOfMemory))),
{
    proof {
        host.lemma_wf();
    }
    let bytes_size = match size_or_absent(host.load_named_keys()) {
        Some(n) => n,
        None => {
            revert(host, ApiError::OutOfMemory);
            return None;
        },
    };
    proof {
        reveal(namespace_readable);
    }
    let mut bytes = alloc_bytes(bytes_size);
    host.list_named_keys(&mut bytes);
    match open_envelope::<NamedKeys>(bytes.as_slice()) {
        Ok(keys) => Some(keys),
        Err(_) => unreached(),
    }
}

/// Whether the host recognises `uref` in the executing context: whether
/// it has issued a reference to the same address that carries every right
/// that `uref` claims.
pub fn is_valid_uref(host: &Host, uref: URef) -> (r: bool)
    requires
        host.wf(),
        host@.running(),
    ensures
        r == holds(host@.top().capabilities, uref),
{
    proof {
        lemma_decoding_encoding::<URef>(uref);
        assert(URef::wire(uref).len() == 33);
    }
    let uref_bytes = match uref.to_bytes() {
        Ok(b) => b,
        Err(_) => unreached(),
    };
    let result = host.is_valid_uref(uref_bytes.as_slice());
    uref_is_valid(result)
}

} // verus!
