//! The host as far as the protocol goes: the call stack, the namespaces,
//! the capabilities and the buffer through which values reach the guest.
//!
//! Every operation takes and returns what crosses the boundary: bytes,
//! status codes and byte counts. What an operation does to the state is
//! written down in [`crate::model`].

use vstd::prelude::*;
use vstd::string::StringSliceAdditionalSpecFns;
use vstd::utf8::{decode_utf8, valid_utf8};

use crate::account::PublicKey;
use crate::block_time::BlockTime;
use crate::bytesrepr::{
    append_bytes, decoding, deserialize, lemma_decoding_encoding, str_from_utf8, Error, FromBytes,
    ToBytes, MAX_SERIALIZED_LENGTH,
};
use crate::cl_type::{CLType, CLTyped};
use crate::cl_value::{CLValue, CLValueView};
use crate::contracts::{EntryPoint, EntryPointAccess, EntryPointType, EntryPoints};
use crate::error::{spec_code, spec_from_bytesrepr, ApiError};
use crate::execution::Phase;
use crate::key::{collect_urefs, Key};
use crate::ledger::{mint, ContractRecord, Ledger};
use crate::model::{
    after_fetch, args_encodable, bound, call_outcome, callee_frame, encodable, holds, key_envelope,
    lemma_addresses_kept, lemma_key_envelope, lemma_record_added, namespace_encodable,
    namespace_readable, namespace_value, register_outcome, registered, replace_outcome, replaced,
    ret_outcome, returned, reverted, seeded, single_entry_table, staged_bytes, stored, unbound,
    with_staged, Fetched, FrameView, HostView, LedgerView, StagedView, Status,
};
use crate::named_keys::{entries_of, held_in, NamedKeys};
use crate::uref::{AccessRights, URef};

verus! {

/// The byte count that stands for a value that is not there.
pub const ABSENT: i64 = -1;

/// One execution context.
#[derive(Debug, PartialEq, Eq)]
pub struct Frame {
    phase: Phase,
    caller: PublicKey,
    depth: usize,
    base: Option<usize>,
    named_keys: NamedKeys,
    capabilities: Vec<URef>,
    args: Vec<CLValue>,
    arg_bytes: Vec<Vec<u8>>,
}

impl View for Frame {
    type V = FrameView;

    closed spec fn view(&self) -> FrameView {
        FrameView {
            phase: self.phase,
            caller: self.caller,
            depth: self.depth as nat,
            base: match self.base {
                Some(b) => Some(b as int),
                None => None,
            },
            named_keys: self.named_keys@,
            capabilities: self.capabilities@.to_set(),
            args: self.args.deep_view(),
        }
    }
}

impl DeepView for Frame {
    type V = FrameView;

    open spec fn deep_view(&self) -> FrameView {
        self@
    }
}

impl Frame {
    /// Whether the encoded arguments are the encodings of the arguments.
    pub closed spec fn marshalled(&self) -> bool {
        &&& self.arg_bytes.len() == self.args.len()
        &&& forall|i: int|
            0 <= i < self.args.len() ==> (#[trigger] self.arg_bytes[i])@ == CLValue::wire(
                self.args[i]@,
            )
    }

    /// The working copy of the namespace.
    pub fn named_keys(&self) -> (r: &NamedKeys)
        ensures
            r@ == self@.named_keys,
    {
        &self.named_keys
    }

    /// The capability references that the host recognises in this context.
    pub fn capabilities(&self) -> (r: &Vec<URef>)
        ensures
            r@.to_set() == self@.capabilities,
    {
        &self.capabilities
    }

    /// How many contexts lie below this one.
    pub fn depth(&self) -> (r: usize)
        ensures
            r == self@.depth,
    {
        self.depth
    }
}

/// What the host holds ready for the guest to fetch.
#[derive(Debug, PartialEq, Eq)]
pub enum Staged {
    /// Nothing.
    Nothing,
    /// An argument.
    Argument(Vec<u8>),
    /// The key bound to a name.
    NamedKey(Vec<u8>),
    /// The whole namespace.
    NamedKeys(Vec<u8>),
    /// The value that a called contract returned.
    CallResult(Vec<u8>),
}

impl View for Staged {
    type V = StagedView;

    open spec fn view(&self) -> StagedView {
        match self {
            Staged::Nothing => StagedView::Nothing,
            Staged::Argument(b) => StagedView::Argument(b@),
            Staged::NamedKey(b) => StagedView::NamedKey(b@),
            Staged::NamedKeys(b) => StagedView::NamedKeys(b@),
            Staged::CallResult(b) => StagedView::CallResult(b@),
        }
    }
}

/// The host of one transaction.
#[derive(Debug, PartialEq, Eq)]
pub struct Host {
    committed: Ledger,
    working: Ledger,
    signer: PublicKey,
    block_time: BlockTime,
    stack: Vec<Frame>,
    staged: Staged,
    fetched: Vec<Fetched>,
    status: Status,
}

impl View for Host {
    type V = HostView;

    closed spec fn view(&self) -> HostView {
        HostView {
            committed: self.committed@,
            working: self.working@,
            signer: self.signer,
            block_time: self.block_time,
            stack: self.stack.deep_view(),
            staged: self.staged@,
            fetched: self.fetched@,
            status: self.status,
        }
    }
}

/// The name that the bytes spell, if they spell one.
pub open spec fn name_of(bytes: Seq<u8>) -> Option<Seq<char>> {
    if valid_utf8(bytes) {
        Some(decode_utf8(bytes))
    } else {
        None
    }
}

/// The state in which a transaction begins: one context, that of the
/// account, which works on a copy of the account's namespace and in which
/// the host recognises the references of that namespace that it has issued
/// to the account.
pub open spec fn begun(
    ledger: LedgerView,
    signer: PublicKey,
    block_time: BlockTime,
    phase: Phase,
    args: Seq<CLValueView>,
) -> HostView {
    HostView {
        committed: ledger,
        working: ledger,
        signer,
        block_time,
        stack: seq![
            FrameView {
                phase,
                caller: signer,
                depth: 0,
                base: None,
                named_keys: ledger.account,
                capabilities: seeded(ledger.account, ledger.granted),
                args,
            },
        ],
        staged: StagedView::Nothing,
        fetched: Seq::empty(),
        status: Status::Running,
    }
}

/// The encodings of the arguments, one for each.
fn marshal_args(args: &Vec<CLValue>) -> (r: Option<Vec<Vec<u8>>>)
    ensures
        r is Some <==> args_encodable(args.deep_view()),
        r matches Some(bytes) ==> bytes.len() == args.len() && forall|i: int|
            0 <= i < args.len() ==> (#[trigger] bytes[i])@ == CLValue::wire(args[i]@),
{
    let mut out: Vec<Vec<u8>> = Vec::new();
    let mut i: usize = 0;
    while i < args.len()
        invariant
            i <= args.len(),
            out.len() == i,
            forall|j: int| 0 <= j < i ==> encodable::<CLValue>(#[trigger] args.deep_view()[j]),
            forall|j: int| 0 <= j < i ==> (#[trigger] out[j])@ == CLValue::wire(args[j]@),
        decreases args.len() - i,
    {
        proof {
            assert(args.deep_view()[i as int] == args[i as int]@);
        }
        match args[i].to_bytes() {
            Ok(bytes) => {
                out.push(bytes);
            },
            Err(_) => {
                return None;
            },
        }
        i = i + 1;
    }
    Some(out)
}

/// Whether the host recognises `u` among `caps`.
pub fn recognises(caps: &Vec<URef>, u: &URef) -> (r: bool)
    ensures
        r == holds(caps@.to_set(), *u),
{
    let mut i: usize = 0;
    while i < caps.len()
        invariant
            i <= caps.len(),
            forall|j: int| 0 <= j < i ==> !u.spec_is_covered_by(#[trigger] caps@[j]),
        decreases caps.len() - i,
    {
        if u.is_covered_by(&caps[i]) {
            proof {
                assert(caps@.to_set().contains(caps@[i as int]));
            }
            return true;
        }
        i = i + 1;
    }
    proof {
        if holds(caps@.to_set(), *u) {
            let c = choose|c: URef|
                caps@.to_set().contains(c) && #[trigger] u.spec_is_covered_by(c);
            assert(caps@.contains(c));
        }
    }
    false
}

/// Whether the host recognises each of `urefs` among `caps`.
pub fn recognises_all(caps: &Vec<URef>, urefs: &Vec<URef>) -> (r: bool)
    ensures
        r == (forall|i: int| 0 <= i < urefs.len() ==> holds(caps@.to_set(), #[trigger] urefs@[i])),
{
    let mut i: usize = 0;
    while i < urefs.len()
        invariant
            i <= urefs.len(),
            forall|j: int| 0 <= j < i ==> holds(caps@.to_set(), #[trigger] urefs@[j]),
        decreases urefs.len() - i,
    {
        if !recognises(caps, &urefs[i]) {
            return false;
        }
        i = i + 1;
    }
    true
}

/// The references of a namespace that the host recognises in a context
/// that starts from it: those that it has issued to the holder.
pub fn seed(named_keys: &NamedKeys, granted: &Vec<URef>) -> (r: Vec<URef>)
    ensures
        r@.to_set() == seeded(named_keys@, granted@.to_set()),
{
    let bound = named_keys.urefs();
    let mut out: Vec<URef> = Vec::new();
    let mut i: usize = 0;
    while i < bound.len()
        invariant
            i <= bound.len(),
            forall|u: URef|
                out@.contains(u) <==> (holds(granted@.to_set(), u) && exists|j: int|
                    0 <= j < i && #[trigger] bound@[j] == u),
        decreases bound.len() - i,
    {
        let ghost before = out@;
        let u = bound[i];
        let keep = recognises(granted, &u);
        if keep {
            out.push(u);
        }
        proof {
            assert forall|v: URef|
                out@.contains(v) <==> (holds(granted@.to_set(), v) && exists|j: int|
                    0 <= j < i + 1 && #[trigger] bound@[j] == v) by {
                if out@.contains(v) {
                    let k = choose|k: int| 0 <= k < out@.len() && out@[k] == v;
                    if k < before.len() {
                        assert(before[k] == v);
                        assert(before.contains(v));
                        let j = choose|j: int| 0 <= j < i && #[trigger] bound@[j] == v;
                        assert(bound@[j] == v);
                    } else {
                        assert(bound@[i as int] == v);
                    }
                }
                if holds(granted@.to_set(), v) && exists|j: int|
                    0 <= j < i + 1 && #[trigger] bound@[j] == v {
                    let j = choose|j: int| 0 <= j < i + 1 && #[trigger] bound@[j] == v;
                    if j < i {
                        assert(before.contains(v));
                        let k = choose|k: int| 0 <= k < before.len() && before[k] == v;
                        assert(out@[k] == v);
                    } else {
                        assert(out@[before.len() as int] == v);
                    }
                }
            }
        }
        i = i + 1;
    }
    proof {
        assert forall|u: URef| out@.to_set().contains(u) == seeded(
            named_keys@,
            granted@.to_set(),
        ).contains(u) by {
            if out@.contains(u) {
                let j = choose|j: int| 0 <= j < i && #[trigger] bound@[j] == u;
                assert(bound@.contains(u));
            }
            if held_in(named_keys@, u) && holds(granted@.to_set(), u) {
                assert(bound@.contains(u));
                let j = choose|j: int| 0 <= j < bound@.len() && bound@[j] == u;
                assert(bound@[j] == u);
            }
        }
        assert(out@.to_set() =~= seeded(named_keys@, granted@.to_set()));
    }
    out
}

/// Adds the references of `more` to `caps`.
pub fn push_all(caps: &mut Vec<URef>, more: &Vec<URef>)
    ensures
        final(caps)@ == old(caps)@ + more@,
        final(caps)@.to_set() == old(caps)@.to_set().union(more@.to_set()),
{
    let mut i: usize = 0;
    while i < more.len()
        invariant
            i <= more.len(),
            caps@ == old(caps)@ + more@.take(i as int),
        decreases more.len() - i,
    {
        caps.push(more[i]);
        i = i + 1;
        proof {
            assert(more@.take(i as int) =~= more@.take(i - 1).push(more@[i - 1]));
        }
    }
    proof {
        assert(more@.take(more@.len() as int) =~= more@);
        vstd::seq_lib::seq_to_set_distributes_over_add(old(caps)@, more@);
    }
}

/// A copy of `bytes`.
pub fn copy_bytes(bytes: &Vec<u8>) -> (r: Vec<u8>)
    ensures
        r@ == bytes@,
{
    let mut out: Vec<u8> = Vec::new();
    append_bytes(&mut out, bytes.as_slice());
    out
}

/// The status code that reports an outcome: 0 for success, the code of the error otherwise.
pub open spec fn status_of(r: Result<(), ApiError>) -> i32 {
    match r {
        Ok(_) => 0,
        Err(e) => spec_code(e) as i32,
    }
}

/// Reads the name that the bytes spell, if they spell one.
pub fn read_name(bytes: &[u8]) -> (r: Option<&str>)
    ensures
        match name_of(bytes@) {
            Some(n) => r matches Some(s) && s@ == n,
            None => r.is_none(),
        },
{
    match str_from_utf8(bytes) {
        Some(s) => {
            proof {
                vstd::utf8::encode_utf8_decode_utf8(s@);
            }
            Some(s)
        },
        None => None,
    }
}

/// The bytes of a name spell that name.
pub proof fn lemma_name_of_bytes(n: Seq<char>)
    ensures
        name_of(vstd::utf8::encode_utf8(n)) == Some(n),
{
    vstd::utf8::encode_utf8_valid_utf8(n);
    vstd::utf8::encode_utf8_decode_utf8(n);
}

/// What the sizing call for the argument at `i` answers: the length of the
/// encoded argument, or [`ABSENT`] where there is none.
pub open spec fn load_arg_size(s: HostView, i: u32) -> i64 {
    if i < s.top().args.len() {
        CLValue::wire(s.top().args[i as int]).len() as i64
    } else {
        ABSENT
    }
}

/// The state after the sizing call for the argument at `i`: the encoded
/// argument is ready to be fetched, or nothing is.
pub open spec fn load_arg_step(s: HostView, i: u32) -> HostView {
    if i < s.top().args.len() {
        with_staged(s, StagedView::Argument(CLValue::wire(s.top().args[i as int])))
    } else {
        with_staged(s, StagedView::Nothing)
    }
}

/// The key that the executing context has bound to the name that `name` spells.
pub open spec fn resolved(s: HostView, name: Seq<u8>) -> Option<Key> {
    match name_of(name) {
        Some(n) => if s.top().named_keys.contains_key(n) {
            Some(s.top().named_keys[n])
        } else {
            None
        },
        None => None,
    }
}

/// What the sizing call for a named key answers: the length of the
/// envelope of the key, or [`ABSENT`] where the name is not bound.
pub open spec fn get_key_size(s: HostView, name: Seq<u8>) -> i64 {
    match resolved(s, name) {
        Some(k) => key_envelope(k).len() as i64,
        None => ABSENT,
    }
}

/// The state after the sizing call for a named key: the envelope of the key
/// is ready to be fetched, or nothing is.
pub open spec fn get_key_step(s: HostView, name: Seq<u8>) -> HostView {
    match resolved(s, name) {
        Some(k) => with_staged(s, StagedView::NamedKey(key_envelope(k))),
        None => with_staged(s, StagedView::Nothing),
    }
}

/// Whether binding succeeds, and why not where it does not: the bytes
/// must spell a name and a key. Every key can be bound.
pub open spec fn put_key_result(s: HostView, name: Seq<u8>, key: Seq<u8>) -> Result<(), ApiError> {
    match name_of(name) {
        None => Err(ApiError::InvalidArgument),
        Some(n) => match decoding::<Key>(key) {
            Err(e) => Err(spec_from_bytesrepr(e)),
            Ok(k) => Ok(()),
        },
    }
}

/// The state after binding: the name is bound where binding succeeds,
/// and nothing has changed where it does not.
pub open spec fn put_key_step(s: HostView, name: Seq<u8>, key: Seq<u8>) -> HostView {
    if put_key_result(s, name, key) is Ok {
        bound(s, name_of(name)->Some_0, decoding::<Key>(key)->Ok_0)
    } else {
        s
    }
}

/// The state after unbinding: the name that the bytes spell is unbound;
/// bytes that spell no name change nothing.
pub open spec fn remove_key_step(s: HostView, name: Seq<u8>) -> HostView {
    match name_of(name) {
        Some(n) => unbound(s, n),
        None => s,
    }
}

/// What the sizing call for the namespace answers: the length of the
/// envelope of the namespace, or [`ABSENT`] where it cannot be marshalled.
pub open spec fn load_named_keys_size(s: HostView) -> i64 {
    if namespace_encodable(s.top().named_keys) {
        CLValue::wire(namespace_value(s.top().named_keys)).len() as i64
    } else {
        ABSENT
    }
}

/// The state after the sizing call for the namespace.
pub open spec fn load_named_keys_step(s: HostView) -> HostView {
    if namespace_encodable(s.top().named_keys) {
        with_staged(s, StagedView::NamedKeys(CLValue::wire(namespace_value(s.top().named_keys))))
    } else {
        with_staged(s, StagedView::Nothing)
    }
}

/// Whether the bytes are a capability reference that the host recognises
/// in the executing context.
pub open spec fn valid_uref(s: HostView, uref: Seq<u8>) -> bool {
    match decoding::<URef>(uref) {
        Ok(u) => holds(s.top().capabilities, u),
        Err(_) => false,
    }
}

/// What a call does, from the bytes that the guest hands over: the state
/// with the callee's context on top, or why the host rejects the call.
pub open spec fn call_attempt(s: HostView, key: Seq<u8>, args: Seq<u8>, urefs: Seq<u8>) -> Result<
    HostView,
    ApiError,
> {
    match decoding::<Key>(key) {
        Err(e) => Err(spec_from_bytesrepr(e)),
        Ok(k) => match decoding::<Vec<CLValue>>(args) {
            Err(e) => Err(spec_from_bytesrepr(e)),
            Ok(a) => match decoding::<Vec<Key>>(urefs) {
                Err(e) => Err(spec_from_bytesrepr(e)),
                Ok(u) => call_outcome(s, k, a, u),
            },
        },
    }
}

/// The outcome without the state: what the status code reports.
pub open spec fn verdict(r: Result<HostView, ApiError>) -> Result<(), ApiError> {
    match r {
        Ok(_) => Ok(()),
        Err(e) => Err(e),
    }
}

/// The state after an attempt: the new state where it succeeded, the old
/// one where the host rejected it.
pub open spec fn state_after(s: HostView, r: Result<HostView, ApiError>) -> HostView {
    match r {
        Ok(after) => after,
        Err(_) => s,
    }
}

/// What `ret` does, from the bytes that the guest hands over.
pub open spec fn ret_step(s: HostView, value: Seq<u8>, urefs: Seq<u8>) -> HostView {
    match decoding::<Vec<URef>>(urefs) {
        Err(e) => reverted(s, spec_code(spec_from_bytesrepr(e))),
        Ok(us) => ret_outcome(s, value, us),
    }
}

/// What the sizing call for the result of a call answers: the length of
/// the value that the callee returned, or [`ABSENT`] where none is ready.
pub open spec fn call_result_size(s: HostView) -> i64 {
    match s.staged {
        StagedView::CallResult(b) => b.len() as i64,
        _ => ABSENT,
    }
}

/// What replacing the table at a reference does, from the bytes that the
/// guest hands over: the new table is that of a contract that consists of
/// the one function that `name` spells.
pub open spec fn upgrade_attempt(s: HostView, name: Seq<u8>, key: Seq<u8>) -> Result<
    HostView,
    ApiError,
> {
    match name_of(name) {
        None => Err(ApiError::InvalidArgument),
        Some(n) => match decoding::<Key>(key) {
            Err(e) => Err(spec_from_bytesrepr(e)),
            Ok(Key::URef(u)) => replace_outcome(s, u, single_entry_table(n)),
            Ok(_) => Err(ApiError::UnexpectedKeyVariant),
        },
    }
}

/// The name that an optional string holds.
pub open spec fn name_in(o: Option<String>) -> Option<Seq<char>> {
    match o {
        Some(n) => Some(n@),
        None => None,
    }
}

/// Adds one reference to `caps`.
pub fn push_one(caps: &mut Vec<URef>, c: URef)
    ensures
        final(caps)@ == old(caps)@.push(c),
        final(caps)@.to_set() == old(caps)@.to_set().insert(c),
{
    caps.push(c);
    proof {
        let before = old(caps)@;
        let after = caps@;
        assert forall|u: URef| after.to_set().contains(u) == before.to_set().insert(c).contains(
            u,
        ) by {
            if after.contains(u) {
                let i = choose|i: int| 0 <= i < after.len() && after[i] == u;
                if i < before.len() {
                    assert(before[i] == u);
                    assert(before.contains(u));
                }
            }
            if before.contains(u) {
                let i = choose|i: int| 0 <= i < before.len() && before[i] == u;
                assert(after[i] == u);
            }
            if u == c {
                assert(after[before.len() as int] == c);
            }
        }
        assert(after.to_set() =~= before.to_set().insert(c));
    }
}

/// The encoded envelope of a namespace, where it can be marshalled.
fn marshal_namespace(named_keys: &NamedKeys) -> (r: Option<Vec<u8>>)
    ensures
        r is Some <==> namespace_encodable(named_keys@),
        r matches Some(bytes) ==> {
            &&& bytes@ == CLValue::wire(namespace_value(named_keys@))
            &&& bytes@.len() <= MAX_SERIALIZED_LENGTH
            &&& namespace_readable(named_keys@)
        },
{
    let _ = named_keys.len();
    let inner = match named_keys.to_bytes() {
        Ok(bytes) => bytes,
        Err(_) => {
            return None;
        },
    };
    assert(decoding::<NamedKeys>(inner@) == Ok::<Seq<(Seq<char>, Key)>, Error>(
        entries_of(named_keys@),
    )) by {
        lemma_decoding_encoding::<NamedKeys>(*named_keys);
    }
    let value = CLValue::from_components(NamedKeys::cl_type(), inner);
    match value.to_bytes() {
        Ok(bytes) => {
            assert(decoding::<CLValue>(bytes@) == Ok::<CLValueView, Error>(value@)) by {
                lemma_decoding_encoding::<CLValue>(value);
            }
            proof {
                reveal(namespace_readable);
            }
            Some(bytes)
        },
        Err(_) => None,
    }
}

impl Host {
    /// Whether the state is one that the host can be in.
    pub closed spec fn wf(&self) -> bool {
        &&& self@.wf()
        &&& forall|i: int| 0 <= i < self.stack.len() ==> (#[trigger] self.stack[i]).marshalled()
    }

    /// A well-formed host is in a well-formed state.
    pub proof fn lemma_wf(&self)
        requires
            self.wf(),
        ensures
            self@.wf(),
    {
    }

    /// Begins a transaction on `ledger`, signed by `signer`, with `args`.
    pub fn new(
        ledger: Ledger,
        signer: PublicKey,
        block_time: BlockTime,
        phase: Phase,
        args: Vec<CLValue>,
    ) -> (r: Host)
        requires
            ledger.wf(),
            args_encodable(args.deep_view()),
        ensures
            r.wf(),
            r@ == begun(ledger@, signer, block_time, phase, args.deep_view()),
    {
        let working = ledger.duplicate();
        let named_keys = ledger.account().duplicate();
        let capabilities = seed(&named_keys, ledger.granted());
        let arg_bytes = match marshal_args(&args) {
            Some(bytes) => bytes,
            None => unreached(),
        };
        let frame = Frame {
            phase,
            caller: signer,
            depth: 0,
            base: None,
            named_keys,
            capabilities,
            args,
            arg_bytes,
        };
        let mut stack: Vec<Frame> = Vec::new();
        stack.push(frame);
        let host = Host {
            committed: ledger,
            working,
            signer,
            block_time,
            stack,
            staged: Staged::Nothing,
            fetched: Vec::new(),
            status: Status::Running,
        };
        proof {
            assert(host@.stack =~= seq![frame@]);
            assert(host@.frame_wf(0));
        }
        host
    }

    /// How far the transaction has come.
    pub fn status(&self) -> (r: Status)
        ensures
            r == self@.status,
    {
        self.status
    }

    /// The number of contexts that are executing.
    pub fn depth(&self) -> (r: usize)
        ensures
            r == self@.stack.len(),
    {
        self.stack.len()
    }

    /// The durable state: what the transaction found, or what it left
    /// where it returned.
    pub fn committed(&self) -> (r: &Ledger)
        ensures
            r@ == self@.committed,
    {
        &self.committed
    }

    /// The durable state as the contexts that returned so far would leave it.
    pub fn working(&self) -> (r: &Ledger)
        ensures
            r@ == self@.working,
    {
        &self.working
    }

    /// The fetches that the guest has made, in order.
    pub fn fetched(&self) -> (r: &Vec<Fetched>)
        ensures
            r@ == self@.fetched,
    {
        &self.fetched
    }

    /// What is ready to be fetched.
    pub fn staged(&self) -> (r: &Staged)
        ensures
            r@ == self@.staged,
    {
        &self.staged
    }

    /// The account that signed the transaction.
    pub fn signer(&self) -> (r: PublicKey)
        ensures
            r == self@.signer,
    {
        self.signer
    }

    /// The durable state that the transaction leaves behind: what it left
    /// where it returned, what it found where it did not.
    pub fn into_ledger(self) -> (r: Ledger)
        requires
            self.wf(),
        ensures
            r.wf(),
            r@ == self@.committed,
    {
        self.committed
    }

    /// The context that is executing.
    pub fn current(&self) -> (r: &Frame)
        requires
            self@.stack.len() > 0,
        ensures
            r@ == self@.top(),
    {
        &self.stack[self.stack.len() - 1]
    }

    /// Takes what is ready to be fetched, and puts the fetch on record.
    fn take_staged(&mut self, kind: Fetched) -> (r: Vec<u8>)
        requires
            old(self).wf(),
            staged_bytes(old(self)@.staged) is Some,
        ensures
            final(self).wf(),
            r@ == staged_bytes(old(self)@.staged)->Some_0,
            final(self)@ == after_fetch(old(self)@, kind),
    {
        let mut staged = Staged::Nothing;
        core::mem::swap(&mut self.staged, &mut staged);
        self.fetched.push(kind);
        proof {
            assert forall|i: int| 0 <= i < self@.stack.len() implies self@.frame_wf(i) by {
                assert(old(self)@.frame_wf(i));
            }
        }
        match staged {
            Staged::Nothing => Vec::new(),
            Staged::Argument(b) => b,
            Staged::NamedKey(b) => b,
            Staged::NamedKeys(b) => b,
            Staged::CallResult(b) => b,
        }
    }

    /// Puts `staged` in place of what is ready to be fetched.
    fn stage(&mut self, staged: Staged)
        requires
            old(self).wf(),
            match staged_bytes(staged@) {
                Some(b) => b.len() <= MAX_SERIALIZED_LENGTH,
                None => true,
            },
            staged@ matches StagedView::CallResult(b) ==> decoding::<CLValue>(b) is Ok,
        ensures
            final(self).wf(),
            final(self)@ == with_staged(old(self)@, staged@),
    {
        self.staged = staged;
        proof {
            assert forall|i: int| 0 <= i < self@.stack.len() implies self@.frame_wf(i) by {
                assert(old(self)@.frame_wf(i));
            }
        }
    }

    /// The sizing call for the argument at `i`.
    pub fn load_arg(&mut self, i: u32) -> (size: i64)
        requires
            old(self).wf(),
            old(self)@.running(),
        ensures
            final(self).wf(),
            size == load_arg_size(old(self)@, i),
            final(self)@ == load_arg_step(old(self)@, i),
            i < old(self)@.top().args.len() ==> decoding::<CLValue>(
                CLValue::wire(old(self)@.top().args[i as int]),
            ) == Ok::<CLValueView, Error>(old(self)@.top().args[i as int]),
    {
        let top = self.stack.len() - 1;
        proof {
            assert(old(self)@.frame_wf(top as int));
            assert(self.stack[top as int].marshalled());
            assert(self@.top() == self.stack[top as int]@);
        }
        if (i as usize) < self.stack[top].arg_bytes.len() {
            proof {
                assert(self@.top().args[i as int] == self.stack[top as int].args[i as int]@);
                assert(encodable::<CLValue>(self@.top().args[i as int]));
                lemma_decoding_encoding::<CLValue>(self.stack[top as int].args[i as int]);
            }
            let bytes = copy_bytes(&self.stack[top].arg_bytes[i as usize]);
            let size = bytes.len() as i64;
            self.stage(Staged::Argument(bytes));
            size
        } else {
            self.stage(Staged::Nothing);
            ABSENT
        }
    }

    /// Copies the argument that is ready into `dest`, which the guest has
    /// made as long as the sizing call said.
    pub fn get_arg(&mut self, dest: &mut Vec<u8>)
        requires
            old(self).wf(),
            old(self)@.staged matches StagedView::Argument(b) && old(dest)@.len() == b.len(),
        ensures
            final(self).wf(),
            old(self)@.staged matches StagedView::Argument(b) && final(dest)@ == b,
            final(self)@ == after_fetch(old(self)@, Fetched::Argument),
    {
        let bytes = self.take_staged(Fetched::Argument);
        *dest = bytes;
    }

    /// The sizing call for the key bound to a name.
    pub fn get_key(&mut self, name: &[u8]) -> (size: i64)
        requires
            old(self).wf(),
            old(self)@.running(),
        ensures
            final(self).wf(),
            size == get_key_size(old(self)@, name@),
            final(self)@ == get_key_step(old(self)@, name@),
            resolved(old(self)@, name@) matches Some(k) ==> decoding::<CLValue>(key_envelope(k))
                == Ok::<CLValueView, Error>(
                CLValueView { cl_type: CLType::Key, bytes: Key::wire(k) },
            ),
    {
        let top = self.stack.len() - 1;
        proof {
            assert(self@.top() == self.stack[top as int]@);
        }
        let found = match read_name(name) {
            Some(n) => self.stack[top].named_keys.get(n),
            None => None,
        };
        match found {
            Some(key) => {
                proof {
                    lemma_key_envelope(key);
                }
                match CLValue::from_t(key) {
                    Ok(value) => match value.to_bytes() {
                        Ok(bytes) => {
                            proof {
                                lemma_decoding_encoding::<CLValue>(value);
                            }
                            let size = bytes.len() as i64;
                            self.stage(Staged::NamedKey(bytes));
                            size
                        },
                        Err(_) => unreached(),
                    },
                    Err(_) => unreached(),
                }
            },
            None => {
                self.stage(Staged::Nothing);
                ABSENT
            },
        }
    }

    /// Copies the envelope of the key that is ready into `dest`, which the
    /// guest has made as long as the sizing call said.
    pub fn read_key(&mut self, dest: &mut Vec<u8>)
        requires
            old(self).wf(),
            old(self)@.staged matches StagedView::NamedKey(b) && old(dest)@.len() == b.len(),
        ensures
            final(self).wf(),
            old(self)@.staged matches StagedView::NamedKey(b) && final(dest)@ == b,
            final(self)@ == after_fetch(old(self)@, Fetched::NamedKey),
    {
        let bytes = self.take_staged(Fetched::NamedKey);
        *dest = bytes;
    }

    /// Whether a name is bound: 0 where it is, another number where it is not.
    pub fn has_key(&self, name: &[u8]) -> (status: i32)
        requires
            self.wf(),
            self@.running(),
        ensures
            status == (if resolved(self@, name@) is Some {
                0i32
            } else {
                1i32
            }),
    {
        let top = self.stack.len() - 1;
        proof {
            assert(self@.top() == self.stack[top as int]@);
        }
        match read_name(name) {
            Some(n) => if self.stack[top].named_keys.contains(n) {
                0
            } else {
                1
            },
            None => 1,
        }
    }

    /// Binds a name to a key in the namespace of the executing context.
    /// Any key is bound; what the host recognises in the context stays as
    /// it is, so that a reference that it never issued is bound and grants
    /// nothing.
    pub fn put_key(&mut self, name: &[u8], key: &[u8]) -> (status: i32)
        requires
            old(self).wf(),
            old(self)@.running(),
        ensures
            final(self).wf(),
            status == status_of(put_key_result(old(self)@, name@, key@)),
            final(self)@ == put_key_step(old(self)@, name@, key@),
    {
        let top = self.stack.len() - 1;
        proof {
            assert(self@.top() == self.stack[top as int]@);
        }
        let n = match read_name(name) {
            Some(n) => n,
            None => {
                return ApiError::InvalidArgument.status();
            },
        };
        let k = match deserialize::<Key>(key) {
            Ok(k) => k,
            Err(e) => {
                return ApiError::from_bytesrepr(e).status();
            },
        };
        let ghost before = self.stack.deep_view();
        let mut frame = self.stack.pop().unwrap();
        frame.named_keys.insert(String::from_str(n), k);
        self.stack.push(frame);
        proof {
            assert(self.stack.deep_view() =~= before.update(top as int, frame@));
            assert(self@ == bound(old(self)@, n@, k));
            assert forall|i: int| 0 <= i < self@.stack.len() implies self@.frame_wf(i) by {
                assert(old(self)@.frame_wf(i));
            }
            assert forall|i: int| 0 <= i < self.stack.len() implies (
            #[trigger] self.stack[i]).marshalled() by {
                assert(old(self).stack[i].marshalled());
            }
        }
        0
    }

    /// Unbinds a name in the namespace of the executing context.
    pub fn remove_key(&mut self, name: &[u8])
        requires
            old(self).wf(),
            old(self)@.running(),
        ensures
            final(self).wf(),
            final(self)@ == remove_key_step(old(self)@, name@),
    {
        let top = self.stack.len() - 1;
        proof {
            assert(self@.top() == self.stack[top as int]@);
        }
        let n = match read_name(name) {
            Some(n) => n,
            None => {
                return ;
            },
        };
        let ghost before = self.stack.deep_view();
        let mut frame = self.stack.pop().unwrap();
        frame.named_keys.remove(n);
        self.stack.push(frame);
        proof {
            assert(self.stack.deep_view() =~= before.update(top as int, frame@));
            assert(self@ == unbound(old(self)@, n@));
            assert forall|i: int| 0 <= i < self@.stack.len() implies self@.frame_wf(i) by {
                assert(old(self)@.frame_wf(i));
            }
            assert forall|i: int| 0 <= i < self.stack.len() implies (
            #[trigger] self.stack[i]).marshalled() by {
                assert(old(self).stack[i].marshalled());
            }
        }
    }

    /// The sizing call for the whole namespace.
    pub fn load_named_keys(&mut self) -> (size: i64)
        requires
            old(self).wf(),
            old(self)@.running(),
        ensures
            final(self).wf(),
            size == load_named_keys_size(old(self)@),
            final(self)@ == load_named_keys_step(old(self)@),
            namespace_encodable(old(self)@.top().named_keys) ==> namespace_readable(
                old(self)@.top().named_keys,
            ),
    {
        let top = self.stack.len() - 1;
        proof {
            assert(self@.top() == self.stack[top as int]@);
        }
        match marshal_namespace(&self.stack[top].named_keys) {
            Some(bytes) => {
                let size = bytes.len() as i64;
                self.stage(Staged::NamedKeys(bytes));
                size
            },
            None => {
                self.stage(Staged::Nothing);
                ABSENT
            },
        }
    }

    /// Copies the envelope of the namespace that is ready into `dest`,
    /// which the guest has made as long as the sizing call said.
    pub fn list_named_keys(&mut self, dest: &mut Vec<u8>)
        requires
            old(self).wf(),
            old(self)@.staged matches StagedView::NamedKeys(b) && old(dest)@.len() == b.len(),
        ensures
            final(self).wf(),
            old(self)@.staged matches StagedView::NamedKeys(b) && final(dest)@ == b,
            final(self)@ == after_fetch(old(self)@, Fetched::NamedKeys),
    {
        let bytes = self.take_staged(Fetched::NamedKeys);
        *dest = bytes;
    }

    /// Whether the host recognises a capability reference in the executing
    /// context: a number other than 0 where it does, 0 where it does not.
    pub fn is_valid_uref(&self, uref: &[u8]) -> (answer: i32)
        requires
            self.wf(),
            self@.running(),
        ensures
            answer == (if valid_uref(self@, uref@) {
                1i32
            } else {
                0i32
            }),
    {
        let top = self.stack.len() - 1;
        proof {
            assert(self@.top() == self.stack[top as int]@);
        }
        match deserialize::<URef>(uref) {
            Ok(u) => if recognises(&self.stack[top].capabilities, &u) {
                1
            } else {
                0
            },
            Err(_) => 0,
        }
    }

    /// Writes the encoded caller into `dest`: the signer of the
    /// transaction, at whatever depth the executing context lies.
    pub fn get_caller(&self, dest: &mut Vec<u8>)
        requires
            self.wf(),
            self@.running(),
            old(dest)@.len() == PublicKey::wire(self@.top().caller).len(),
        ensures
            final(dest)@ == PublicKey::wire(self@.top().caller),
            self@.top().caller == self@.signer,
    {
        let top = self.stack.len() - 1;
        proof {
            assert(self@.top() == self.stack[top as int]@);
            assert(self@.frame_wf(top as int));
        }
        dest.clear();
        self.stack[top].caller.write_bytes(dest);
        proof {
            assert(dest@ =~= PublicKey::wire(self@.top().caller));
        }
    }

    /// Writes the encoded block time into `dest`.
    pub fn get_blocktime(&self, dest: &mut Vec<u8>)
        requires
            self.wf(),
            self@.running(),
            old(dest)@.len() == BlockTime::wire(self@.block_time).len(),
        ensures
            final(dest)@ == BlockTime::wire(self@.block_time),
    {
        dest.clear();
        self.block_time.write_bytes(dest);
        proof {
            assert(dest@ =~= BlockTime::wire(self@.block_time));
        }
    }

    /// Writes the encoded phase into `dest`.
    pub fn get_phase(&self, dest: &mut Vec<u8>)
        requires
            self.wf(),
            self@.running(),
            old(dest)@.len() == Phase::wire(self@.top().phase).len(),
        ensures
            final(dest)@ == Phase::wire(self@.top().phase),
    {
        let top = self.stack.len() - 1;
        proof {
            assert(self@.top() == self.stack[top as int]@);
        }
        dest.clear();
        self.stack[top].phase.write_bytes(dest);
        proof {
            assert(dest@ =~= Phase::wire(self@.top().phase));
        }
    }

    /// Aborts the transaction with `code`: no effect is durable, and no
    /// context is left to go on.
    pub fn revert(&mut self, code: u32)
        requires
            old(self).wf(),
            old(self)@.running(),
        ensures
            final(self).wf(),
            final(self)@ == reverted(old(self)@, code),
    {
        self.working = self.committed.duplicate();
        self.stack = Vec::new();
        self.staged = Staged::Nothing;
        self.status = Status::Reverted(code);
        proof {
            assert(self.stack.deep_view() =~= Seq::<FrameView>::empty());
        }
    }

    /// Whether the frames below the top one are what they were in `before`,
    /// given that the ledger has as many records as it had.
    proof fn lemma_frames_kept(&self, before: HostView, n: int)
        requires
            before.wf(),
            0 <= n <= before.stack.len(),
            n <= self@.stack.len(),
            forall|i: int| 0 <= i < n ==> self@.stack[i] == before.stack[i],
            self@.signer == before.signer,
            self@.working.records.len() >= before.working.records.len(),
        ensures
            forall|i: int| 0 <= i < n ==> self@.frame_wf(i),
    {
        assert forall|i: int| 0 <= i < n implies self@.frame_wf(i) by {
            assert(before.frame_wf(i));
            assert(before.frame_wf(0));
        }
    }

    /// Calls the contract at a key: a context for it is put on top of the
    /// stack. The status is 0 where the call was made.
    pub fn call_contract(&mut self, key: &[u8], args: &[u8], urefs: &[u8]) -> (status: i32)
        requires
            old(self).wf(),
            old(self)@.running(),
        ensures
            final(self).wf(),
            status == status_of(verdict(call_attempt(old(self)@, key@, args@, urefs@))),
            final(self)@ == state_after(
                old(self)@,
                call_attempt(old(self)@, key@, args@, urefs@),
            ),
    {
        let top = self.stack.len() - 1;
        proof {
            assert(self@.top() == self.stack[top as int]@);
            assert(self@.frame_wf(top as int));
        }
        let k = match deserialize::<Key>(key) {
            Ok(k) => k,
            Err(e) => {
                return ApiError::from_bytesrepr(e).status();
            },
        };
        let values = match deserialize::<Vec<CLValue>>(args) {
            Ok(a) => a,
            Err(e) => {
                return ApiError::from_bytesrepr(e).status();
            },
        };
        let keys = match deserialize::<Vec<Key>>(urefs) {
            Ok(u) => u,
            Err(e) => {
                return ApiError::from_bytesrepr(e).status();
            },
        };
        proof {
            assert(keys.deep_view() =~= keys@);
        }
        let arg_bytes = match marshal_args(&values) {
            Some(b) => b,
            None => {
                return ApiError::OutOfMemory.status();
            },
        };
        let target = match k {
            Key::Account(_) => Err(ApiError::UnexpectedKeyVariant),
            Key::Hash(a) => match self.working.find(&a) {
                Some(b) => Ok(b),
                None => Err(ApiError::ContractNotFound),
            },
            Key::URef(u) => if recognises(&self.stack[top].capabilities, &u)
                && u.access_rights().read {
                match self.working.find(&u.addr()) {
                    Some(b) => Ok(b),
                    None => Err(ApiError::ContractNotFound),
                }
            } else {
                Err(ApiError::NoAccessRights)
            },
        };
        let b = match target {
            Ok(b) => b,
            Err(e) => {
                return e.status();
            },
        };
        let forwarded = collect_urefs(&keys);
        if !recognises_all(&self.stack[top].capabilities, &forwarded) {
            return ApiError::NoAccessRights.status();
        }
        let named_keys = self.working.record(b).named_keys().duplicate();
        let mut capabilities = seed(&named_keys, self.working.record(b).granted());
        push_all(&mut capabilities, &forwarded);
        let frame = Frame {
            phase: self.stack[top].phase,
            caller: self.signer,
            depth: self.stack.len(),
            base: Some(b),
            named_keys,
            capabilities,
            args: values,
            arg_bytes,
        };
        let ghost before = self.stack.deep_view();
        proof {
            assert(frame@.capabilities =~= callee_frame(
                old(self)@,
                b as int,
                values.deep_view(),
                forwarded@,
            ).capabilities);
            assert(frame@ == callee_frame(old(self)@, b as int, values.deep_view(), forwarded@));
        }
        self.stack.push(frame);
        self.staged = Staged::Nothing;
        proof {
            assert(self.stack.deep_view() =~= before.push(frame@));
            self.lemma_frames_kept(old(self)@, top + 1);
            assert(self@.frame_wf(top + 1));
            assert forall|i: int| 0 <= i < self.stack.len() implies (
            #[trigger] self.stack[i]).marshalled() by {
                if i <= top {
                    assert(old(self).stack[i].marshalled());
                }
            }
        }
        0
    }

    /// Ends the executing context with a value: its namespace is stored;
    /// the outermost context makes the effects durable, any other leaves
    /// the value and the references to its caller. A value that is no
    /// envelope, or references that the host does not recognise, abort
    /// the transaction instead.
    pub fn ret(&mut self, value: &[u8], urefs: &[u8])
        requires
            old(self).wf(),
            old(self)@.running(),
        ensures
            final(self).wf(),
            final(self)@ == ret_step(old(self)@, value@, urefs@),
    {
        let top = self.stack.len() - 1;
        proof {
            assert(self@.top() == self.stack[top as int]@);
            assert(self@.frame_wf(top as int));
        }
        let handed = match deserialize::<Vec<URef>>(urefs) {
            Ok(u) => u,
            Err(e) => {
                self.revert(ApiError::from_bytesrepr(e).code());
                return ;
            },
        };
        proof {
            assert(handed.deep_view() =~= handed@);
        }
        match deserialize::<CLValue>(value) {
            Ok(_) => {},
            Err(_) => {
                self.revert(ApiError::Deserialize.code());
                return ;
            },
        }
        if value.len() > MAX_SERIALIZED_LENGTH {
            self.revert(ApiError::OutOfMemory.code());
            return ;
        }
        if !recognises_all(&self.stack[top].capabilities, &handed) {
            self.revert(ApiError::NoAccessRights.code());
            return ;
        }
        let ghost before = self.stack.deep_view();
        let frame = self.stack.pop().unwrap();
        proof {
            assert(frame@ == old(self)@.top());
        }
        match frame.base {
            None => {
                self.working.set_account(frame.named_keys, frame.capabilities);
            },
            Some(b) => {
                self.working.set_named_keys(b, frame.named_keys, frame.capabilities);
            },
        }
        proof {
            assert(self.working@ == stored(
                old(self)@.working,
                old(self)@.top().base,
                old(self)@.top().named_keys,
                old(self)@.top().capabilities,
            ));
            lemma_addresses_kept(old(self)@.working, self.working@);
        }
        if self.stack.len() == 0 {
            self.committed = self.working.duplicate();
            self.staged = Staged::Nothing;
            self.status = Status::Returned;
            proof {
                assert(self.stack.deep_view() =~= Seq::<FrameView>::empty());
            }
        } else {
            let mut below = self.stack.pop().unwrap();
            let ghost kept = below@;
            push_all(&mut below.capabilities, &handed);
            self.stack.push(below);
            let mut copy: Vec<u8> = Vec::new();
            append_bytes(&mut copy, value);
            self.staged = Staged::CallResult(copy);
            proof {
                assert(copy@ =~= value@);
                assert(below@ == (FrameView {
                    capabilities: kept.capabilities.union(handed@.to_set()),
                    ..kept
                }));
                assert(self.stack.deep_view() =~= before.drop_last().update(top - 1, below@));
                assert forall|i: int| 0 <= i < self@.stack.len() implies self@.frame_wf(i) by {
                    assert(old(self)@.frame_wf(i));
                    assert(old(self)@.frame_wf(0));
                }
                assert forall|i: int| 0 <= i < self.stack.len() implies (
                #[trigger] self.stack[i]).marshalled() by {
                    assert(old(self).stack[i].marshalled());
                }
            }
        }
    }

    /// The sizing call for the value that a called contract returned.
    pub fn load_call_result(&self) -> (size: i64)
        requires
            self.wf(),
        ensures
            size == call_result_size(self@),
    {
        match &self.staged {
            Staged::CallResult(b) => b.len() as i64,
            _ => ABSENT,
        }
    }

    /// Copies the value that a called contract returned into `dest`, which
    /// the guest has made as long as the sizing call said.
    pub fn get_call_result(&mut self, dest: &mut Vec<u8>)
        requires
            old(self).wf(),
            old(self)@.staged matches StagedView::CallResult(b) && old(dest)@.len() == b.len(),
        ensures
            final(self).wf(),
            old(self)@.staged matches StagedView::CallResult(b) && final(dest)@ == b,
            final(self)@ == after_fetch(old(self)@, Fetched::CallResult),
    {
        let bytes = self.take_staged(Fetched::CallResult);
        *dest = bytes;
    }

    /// Puts `entry_points` in place of the table of the record at `uref`.
    fn replace(&mut self, uref: URef, entry_points: EntryPoints) -> (r: Result<(), ApiError>)
        requires
            old(self).wf(),
            old(self)@.running(),
        ensures
            final(self).wf(),
            r == verdict(replace_outcome(old(self)@, uref, entry_points@)),
            final(self)@ == state_after(
                old(self)@,
                replace_outcome(old(self)@, uref, entry_points@),
            ),
    {
        let top = self.stack.len() - 1;
        proof {
            assert(self@.top() == self.stack[top as int]@);
        }
        if !(recognises(&self.stack[top].capabilities, &uref) && uref.access_rights().write) {
            return Err(ApiError::NoAccessRights);
        }
        let b = match self.working.find(&uref.addr()) {
            Some(b) => b,
            None => {
                return Err(ApiError::ContractNotFound);
            },
        };
        if self.working.record(b).version() == u64::MAX {
            return Err(ApiError::UpgradeContractAtURef);
        }
        self.working.set_entry_points(b, entry_points);
        proof {
            assert(self@ == replaced(old(self)@, b as int, entry_points@));
            lemma_addresses_kept(old(self)@.working, self.working@);
            self.lemma_frames_kept(old(self)@, top + 1);
        }
        Ok(())
    }

    /// Replaces the contract at a reference by one that consists of the
    /// function that `name` spells. The namespace of the record stays, its
    /// version marker grows. The status is 0 where the table was replaced.
    pub fn upgrade_contract_at_uref(&mut self, name: &[u8], key: &[u8]) -> (status: i32)
        requires
            old(self).wf(),
            old(self)@.running(),
        ensures
            final(self).wf(),
            status == status_of(verdict(upgrade_attempt(old(self)@, name@, key@))),
            final(self)@ == state_after(old(self)@, upgrade_attempt(old(self)@, name@, key@)),
    {
        let n = match read_name(name) {
            Some(n) => n,
            None => {
                return ApiError::InvalidArgument.status();
            },
        };
        let k = match deserialize::<Key>(key) {
            Ok(k) => k,
            Err(e) => {
                return ApiError::from_bytesrepr(e).status();
            },
        };
        let uref = match k {
            Key::URef(u) => u,
            _ => {
                return ApiError::UnexpectedKeyVariant.status();
            },
        };
        let parameters: Vec<crate::contracts::Parameter> = Vec::new();
        proof {
            assert(parameters.deep_view() =~= Seq::<crate::contracts::ParameterView>::empty());
        }
        let entry = EntryPoint::new(
            String::from_str(n),
            parameters,
            CLType::Unit,
            EntryPointAccess::Public,
            EntryPointType::Contract,
        );
        let mut table = EntryPoints::new();
        table.add_entry_point(entry);
        proof {
            assert(table@ =~= single_entry_table(n@));
        }
        match self.replace(uref, table) {
            Ok(_) => 0,
            Err(e) => e.status(),
        }
    }

    /// Registers a contract with `entry_points`, or replaces the table of
    /// the one at `existing`. A fresh record gets a fresh address; the
    /// executing context gets the reference to it with every right, and
    /// has the identity of the contract bound to `package_name` and that
    /// reference to `access_name`, where they are given.
    pub fn new_contract(
        &mut self,
        entry_points: EntryPoints,
        existing: Option<Key>,
        package_name: Option<String>,
        access_name: Option<String>,
    ) -> (r: Result<Key, ApiError>)
        requires
            old(self).wf(),
            old(self)@.running(),
        ensures
            final(self).wf(),
            match register_outcome(
                old(self)@,
                entry_points@,
                existing,
                name_in(package_name),
                name_in(access_name),
            ) {
                Ok((after, key)) => r == Ok::<Key, ApiError>(key) && final(self)@ == after,
                Err(e) => r == Err::<Key, ApiError>(e) && final(self)@ == old(self)@,
            },
    {
        match existing {
            Some(Key::URef(u)) => {
                return match self.replace(u, entry_points) {
                    Ok(_) => Ok(Key::Hash(u.addr())),
                    Err(e) => Err(e),
                };
            },
            Some(_) => {
                return Err(ApiError::UnexpectedKeyVariant);
            },
            None => {},
        }
        let top = self.stack.len() - 1;
        proof {
            assert(self@.top() == self.stack[top as int]@);
            assert(self@.frame_wf(top as int));
        }
        let n = self.working.record_count();
        if n as u64 >= u64::MAX {
            return Err(ApiError::OutOfMemory);
        }
        let addr = mint(n as u64);
        let ghost table = entry_points@;
        let record = ContractRecord::new(addr, entry_points, NamedKeys::new(), 1);
        self.working.push_record(record);
        let full = URef::new(addr, AccessRights::read_add_write());
        let ghost before = self.stack.deep_view();
        let mut frame = self.stack.pop().unwrap();
        let ghost kept = frame@;
        match package_name {
            Some(name) => {
                frame.named_keys.insert(name, Key::Hash(addr));
            },
            None => {},
        }
        match access_name {
            Some(name) => {
                frame.named_keys.insert(name, Key::URef(full));
            },
            None => {},
        }
        push_one(&mut frame.capabilities, full);
        self.stack.push(frame);
        proof {
            assert(self.stack.deep_view() =~= before.update(top as int, frame@));
            assert(self@ == registered(
                old(self)@,
                table,
                name_in(package_name),
                name_in(access_name),
            ));
            lemma_record_added(
                old(self)@.working,
                self.working@.records[self.working@.records.len() - 1],
            );
            self.lemma_frames_kept(old(self)@, top as int);
            assert(self@.frame_wf(top as int));
            assert forall|i: int| 0 <= i < self.stack.len() implies (
            #[trigger] self.stack[i]).marshalled() by {
                assert(old(self).stack[i].marshalled());
            }
        }
        Ok(Key::Hash(addr))
    }
}

} // verus!
