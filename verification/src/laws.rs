//! The laws of the protocol, proved of the steps in [`crate::model`].

use vstd::prelude::*;

use crate::bytesrepr::ToBytes;
use crate::cl_value::{CLValue, CLValueView};
use crate::contracts::EntryPointView;
use crate::error::ApiError;
use crate::host::{
    get_key_size, get_key_step, load_arg_size, load_arg_step, load_named_keys_step, resolved,
    ABSENT,
};
use crate::key::{lemma_urefs_among, urefs_among, Key};
use crate::model::{
    after_fetch, bound, call_outcome, encodable, find_record, holds, key_envelope,
    lemma_addresses_kept, may_forward, namespace_encodable, namespace_value, replace_outcome,
    returned, reverted, seeded, staged_bytes, target_of, unbound, Fetched, FrameView, HostView,
    StagedView, Status,
};
use crate::named_keys::held_in;
use crate::runtime::ret_effect;
use crate::uref::URef;

verus! {

/// A change that a context makes to its namespace.
pub enum Mutation {
    /// Binding a name to a key.
    Bind(Seq<char>, Key),
    /// Unbinding a name.
    Unbind(Seq<char>),
}

/// The state after one change.
pub open spec fn applied(s: HostView, m: Mutation) -> HostView {
    match m {
        Mutation::Bind(name, key) => bound(s, name, key),
        Mutation::Unbind(name) => unbound(s, name),
    }
}

/// The state after a sequence of changes, made in order.
pub open spec fn applied_all(s: HostView, ms: Seq<Mutation>) -> HostView
    decreases ms.len(),
{
    if ms.len() == 0 {
        s
    } else {
        applied(applied_all(s, ms.drop_last()), ms.last())
    }
}

/// The namespace after a sequence of changes, made in order.
pub open spec fn namespace_after(ns: Map<Seq<char>, Key>, ms: Seq<Mutation>) -> Map<
    Seq<char>,
    Key,
>
    decreases ms.len(),
{
    if ms.len() == 0 {
        ns
    } else {
        match ms.last() {
            Mutation::Bind(name, key) => namespace_after(ns, ms.drop_last()).insert(name, key),
            Mutation::Unbind(name) => namespace_after(ns, ms.drop_last()).remove(name),
        }
    }
}

/// Binding binds, whatever the key: the name is bound to the key, every
/// other name is bound as it was, and the transaction goes on. An earlier
/// binding of the name is replaced. Nothing but the namespace of the
/// executing context changes; in particular the host recognises there what
/// it recognised before, so that binding a reference that it does not
/// recognise leaves that reference unrecognised.
pub proof fn lemma_binding_binds_and_grants_nothing(s: HostView, name: Seq<char>, key: Key)
    requires
        s.wf(),
        s.running(),
    ensures
        ({
            let t = bound(s, name, key);
            &&& t.wf()
            &&& t.running()
            &&& t.top().named_keys == s.top().named_keys.insert(name, key)
            &&& t.top().named_keys.contains_key(name)
            &&& t.top().named_keys[name] == key
            &&& t.top().named_keys.dom() == s.top().named_keys.dom().insert(name)
            &&& forall|other: Seq<char>|
                other != name ==> (t.top().named_keys.contains_key(other)
                    == s.top().named_keys.contains_key(other) && (s.top().named_keys.contains_key(
                    other,
                ) ==> t.top().named_keys[other] == s.top().named_keys[other]))
            &&& t.top() == (FrameView { named_keys: t.top().named_keys, ..s.top() })
            &&& t.top().capabilities == s.top().capabilities
            &&& forall|u: URef|
                holds(t.top().capabilities, u) == holds(s.top().capabilities, u)
            &&& t.stack.drop_last() == s.stack.drop_last()
            &&& t.committed == s.committed
            &&& t.working == s.working
            &&& t.staged == s.staged
            &&& t.fetched == s.fetched
        }),
{
    let t = bound(s, name, key);
    assert(s.frame_wf(s.stack.len() - 1));
    assert forall|i: int| 0 <= i < t.stack.len() implies t.frame_wf(i) by {
        assert(s.frame_wf(i));
        assert(s.frame_wf(0));
    }
    assert(t.stack.drop_last() =~= s.stack.drop_last());
    assert(t.top().named_keys.dom() =~= s.top().named_keys.dom().insert(name));
}

/// Changes to the namespace touch nothing else, and none is refused: the
/// transaction goes on, the stack is as deep as it was, the contexts below
/// the top are what they were, the top context differs in its namespace
/// only, which holds every change in order, and the ledgers are what they
/// were.
pub proof fn lemma_mutations_touch_the_namespace_only(s: HostView, ms: Seq<Mutation>)
    requires
        s.wf(),
        s.running(),
    ensures
        ({
            let t = applied_all(s, ms);
            &&& t.wf()
            &&& t.running()
            &&& t.committed == s.committed
            &&& t.signer == s.signer
            &&& t.working == s.working
            &&& t.staged == s.staged
            &&& t.fetched == s.fetched
            &&& t.stack.len() == s.stack.len()
            &&& forall|i: int| 0 <= i < s.stack.len() - 1 ==> t.stack[i] == s.stack[i]
            &&& t.top() == (FrameView {
                named_keys: namespace_after(s.top().named_keys, ms),
                ..s.top()
            })
        }),
    decreases ms.len(),
{
    if ms.len() > 0 {
        let before = applied_all(s, ms.drop_last());
        lemma_mutations_touch_the_namespace_only(s, ms.drop_last());
        let t = applied_all(s, ms);
        assert(before.frame_wf(before.stack.len() - 1));
        assert forall|i: int| 0 <= i < t.stack.len() implies t.frame_wf(i) by {
            assert(before.frame_wf(i));
            assert(before.frame_wf(0));
        }
    }
}

/// Something that a contract can do by itself, without another contract
/// or the host handing it anything.
pub enum GuestOp {
    /// Changing the namespace.
    Change(Mutation),
    /// The sizing call for the key bound to the name that the bytes spell.
    ResolveKey(Seq<u8>),
    /// The sizing call for an argument.
    LoadArgument(u32),
    /// The sizing call for the namespace.
    LoadNamedKeys,
    /// Fetching what is ready.
    Fetch(Fetched),
}

/// The state after one such operation.
pub open spec fn performed(s: HostView, op: GuestOp) -> HostView {
    match op {
        GuestOp::Change(m) => applied(s, m),
        GuestOp::ResolveKey(name) => get_key_step(s, name),
        GuestOp::LoadArgument(i) => load_arg_step(s, i),
        GuestOp::LoadNamedKeys => load_named_keys_step(s),
        GuestOp::Fetch(kind) => after_fetch(s, kind),
    }
}

/// The state after a sequence of such operations, made in order.
pub open spec fn performed_all(s: HostView, ops: Seq<GuestOp>) -> HostView
    decreases ops.len(),
{
    if ops.len() == 0 {
        s
    } else {
        performed(performed_all(s, ops.drop_last()), ops.last())
    }
}

/// Capability unforgeability: whatever a contract does by itself, in
/// whatever order, and whatever keys it binds, the host recognises in no
/// context a reference that it did not recognise there before. The
/// contexts keep their capabilities, their arguments, their callers and
/// their places; the ledgers, and with them what the host has issued to
/// each holder, stay as they are.
pub proof fn lemma_guest_operations_grant_nothing(s: HostView, ops: Seq<GuestOp>)
    requires
        s.wf(),
        s.running(),
    ensures
        ({
            let t = performed_all(s, ops);
            &&& t.wf()
            &&& t.running()
            &&& t.committed == s.committed
            &&& t.signer == s.signer
            &&& t.working == s.working
            &&& t.stack.len() == s.stack.len()
            &&& forall|i: int|
                0 <= i < s.stack.len() ==> {
                    &&& (#[trigger] t.stack[i]).capabilities == s.stack[i].capabilities
                    &&& t.stack[i].args == s.stack[i].args
                    &&& t.stack[i].caller == s.stack[i].caller
                    &&& t.stack[i].base == s.stack[i].base
                }
            &&& forall|u: URef| holds(t.top().capabilities, u) == holds(s.top().capabilities, u)
        }),
    decreases ops.len(),
{
    if ops.len() > 0 {
        let before = performed_all(s, ops.drop_last());
        lemma_guest_operations_grant_nothing(s, ops.drop_last());
        let t = performed_all(s, ops);
        let top = before.stack.len() - 1;
        assert(before.frame_wf(top));
        match ops.last() {
            GuestOp::ResolveKey(name) => {
                if resolved(before, name) is Some {
                    crate::model::lemma_key_envelope(resolved(before, name)->Some_0);
                }
            },
            _ => {},
        }
        assert(t.stack.len() == before.stack.len());
        assert forall|i: int| 0 <= i < t.stack.len() implies t.frame_wf(i) by {
            assert(before.frame_wf(i));
            assert(before.frame_wf(0));
        }
        assert(t.top().capabilities == before.top().capabilities);
    }
}

/// Binding is idempotent, and the later of two bindings of a name wins.
pub proof fn lemma_bind_is_idempotent(s: HostView, name: Seq<char>, first: Key, second: Key)
    requires
        s.wf(),
        s.running(),
    ensures
        bound(bound(s, name, second), name, second) == bound(s, name, second),
        bound(bound(s, name, first), name, second) == bound(s, name, second),
        unbound(unbound(s, name), name) == unbound(s, name),
{
    let once = bound(s, name, second);
    assert(once.top().named_keys.insert(name, second) =~= once.top().named_keys);
    assert(bound(once, name, second).stack =~= once.stack);
    let other = bound(s, name, first);
    assert(other.top().named_keys.insert(name, second) =~= s.top().named_keys.insert(
        name,
        second,
    ));
    assert(bound(other, name, second).stack =~= once.stack);
    let gone = unbound(s, name);
    assert(gone.top().named_keys.remove(name) =~= gone.top().named_keys);
    assert(unbound(gone, name).stack =~= gone.stack);
}

/// A context that starts from a namespace recognises only what the host
/// has issued to the holder of that namespace: a reference that was bound
/// without having been issued is in the namespace and is not recognised.
pub proof fn lemma_seed_recognises_only_issued(
    ns: Map<Seq<char>, Key>,
    granted: Set<URef>,
    u: URef,
)
    ensures
        holds(seeded(ns, granted), u) ==> holds(granted, u),
        seeded(ns, granted).contains(u) ==> held_in(ns, u),
        !holds(granted, u) ==> !seeded(ns, granted).contains(u),
{
    if holds(seeded(ns, granted), u) {
        let c = choose|c: URef|
            seeded(ns, granted).contains(c) && #[trigger] u.spec_is_covered_by(c);
        let g = choose|g: URef| granted.contains(g) && #[trigger] c.spec_is_covered_by(g);
        assert(u.spec_is_covered_by(g));
    }
}

/// A reference to an address that the host has issued no reference to is
/// not recognised.
pub proof fn lemma_unissued_is_not_recognised(caps: Set<URef>, u: URef)
    requires
        forall|c: URef| caps.contains(c) ==> c.addr != u.addr,
    ensures
        !holds(caps, u),
{
}

/// A recognised reference is recognised with any part of its rights, and
/// with no right beyond them unless another reference carries it.
pub proof fn lemma_narrower_is_recognised(caps: Set<URef>, u: URef, v: URef)
    requires
        holds(caps, u),
        v.spec_is_covered_by(u),
    ensures
        holds(caps, v),
{
    let c = choose|c: URef| caps.contains(c) && #[trigger] u.spec_is_covered_by(c);
    assert(v.spec_is_covered_by(c));
}

/// A call leaves the state well-formed and changes nothing but the
/// stack: the callee's context lies on top, and it observes the signer of
/// the transaction as its caller.
pub proof fn lemma_call_enters(s: HostView, key: Key, args: Seq<CLValueView>, keys: Seq<Key>)
    requires
        s.wf(),
        s.running(),
        call_outcome(s, key, args, keys) is Ok,
    ensures
        ({
            let after = call_outcome(s, key, args, keys)->Ok_0;
            &&& after.wf()
            &&& after.running()
            &&& after.signer == s.signer
            &&& after.committed == s.committed
            &&& after.working == s.working
            &&& after.stack.len() == s.stack.len() + 1
            &&& after.stack.drop_last() == s.stack
            &&& after.top().caller == s.signer
            &&& after.top().depth == s.stack.len()
        }),
{
    let after = call_outcome(s, key, args, keys)->Ok_0;
    let b = target_of(s, key)->Ok_0;
    assert(s.frame_wf(s.stack.len() - 1));
    assert(s.frame_wf(0));
    assert(after.stack.drop_last() =~= s.stack);
    assert forall|i: int| 0 <= i < after.stack.len() implies after.frame_wf(i) by {
        if i < s.stack.len() {
            assert(s.frame_wf(i));
        }
    }
}

/// No ambient authority: the callee starts from the namespace of its own
/// record, and the host recognises in its context the references of that
/// namespace and those that the caller handed on, which the caller held,
/// and no others. Nothing that the caller has bound reaches the callee
/// unless it was handed on.
pub proof fn lemma_callee_has_no_ambient_authority(
    s: HostView,
    key: Key,
    args: Seq<CLValueView>,
    keys: Seq<Key>,
    u: URef,
)
    requires
        s.wf(),
        s.running(),
        call_outcome(s, key, args, keys) is Ok,
    ensures
        ({
            let after = call_outcome(s, key, args, keys)->Ok_0;
            let b = target_of(s, key)->Ok_0;
            &&& 0 <= b < s.working.records.len()
            &&& after.top().named_keys == s.working.records[b].named_keys
            &&& after.top().args == args
            &&& after.top().capabilities.contains(u) ==> ((held_in(
                s.working.records[b].named_keys,
                u,
            ) && holds(s.working.records[b].granted, u)) || (keys.contains(Key::URef(u))
                && holds(s.top().capabilities, u)))
            &&& (keys.len() == 0 && after.top().capabilities.contains(u)) ==> (held_in(
                s.working.records[b].named_keys,
                u,
            ) && holds(s.working.records[b].granted, u))
        }),
{
    let after = call_outcome(s, key, args, keys)->Ok_0;
    lemma_urefs_among(keys, u);
    if urefs_among(keys).contains(u) {
        let i = choose|i: int| 0 <= i < urefs_among(keys).len() && urefs_among(keys)[i] == u;
        assert(holds(s.top().capabilities, urefs_among(keys)[i]));
    }
}

/// What the callee starts from does not depend on the namespace of the
/// caller: had the caller bound other names, the call would be accepted
/// or rejected alike, and the callee's context would be the same.
pub proof fn lemma_callee_independent_of_caller_namespace(
    s: HostView,
    other: Map<Seq<char>, Key>,
    key: Key,
    args: Seq<CLValueView>,
    keys: Seq<Key>,
)
    requires
        s.wf(),
        s.running(),
    ensures
        ({
            let t = s.with_top(FrameView { named_keys: other, ..s.top() });
            &&& call_outcome(t, key, args, keys) is Ok <==> call_outcome(s, key, args, keys) is Ok
            &&& call_outcome(s, key, args, keys) is Ok ==> call_outcome(
                t,
                key,
                args,
                keys,
            )->Ok_0.top() == call_outcome(s, key, args, keys)->Ok_0.top()
            &&& call_outcome(s, key, args, keys) is Err ==> call_outcome(t, key, args, keys)
                == Err::<HostView, ApiError>(call_outcome(s, key, args, keys)->Err_0)
        }),
{
    let t = s.with_top(FrameView { named_keys: other, ..s.top() });
    assert(t.top().capabilities == s.top().capabilities);
    assert(t.working == s.working);
    assert(may_forward(t, urefs_among(keys)) == may_forward(s, urefs_among(keys)));
}

/// In every context of a well-formed state the caller is the signer of
/// the transaction.
pub proof fn lemma_caller_is_signer(s: HostView, i: int)
    requires
        s.wf(),
        0 <= i < s.stack.len(),
    ensures
        s.stack[i].caller == s.signer,
{
    assert(s.frame_wf(i));
}

/// Identity flattening: after three calls, each made from the context that
/// the one before it entered, the innermost context observes the signer of
/// the transaction as its caller, and lies three frames above where the
/// first call was made.
pub proof fn lemma_identity_flattening(
    s: HostView,
    first: (Key, Seq<CLValueView>, Seq<Key>),
    second: (Key, Seq<CLValueView>, Seq<Key>),
    third: (Key, Seq<CLValueView>, Seq<Key>),
)
    requires
        s.wf(),
        s.running(),
        call_outcome(s, first.0, first.1, first.2) is Ok,
        call_outcome(call_outcome(s, first.0, first.1, first.2)->Ok_0, second.0, second.1, second.2)
            is Ok,
        call_outcome(
            call_outcome(
                call_outcome(s, first.0, first.1, first.2)->Ok_0,
                second.0,
                second.1,
                second.2,
            )->Ok_0,
            third.0,
            third.1,
            third.2,
        ) is Ok,
    ensures
        ({
            let a = call_outcome(s, first.0, first.1, first.2)->Ok_0;
            let b = call_outcome(a, second.0, second.1, second.2)->Ok_0;
            let c = call_outcome(b, third.0, third.1, third.2)->Ok_0;
            &&& c.top().caller == s.signer
            &&& b.top().caller == s.signer
            &&& a.top().caller == s.signer
            &&& c.stack.len() == s.stack.len() + 3
            &&& c.wf()
        }),
{
    let a = call_outcome(s, first.0, first.1, first.2)->Ok_0;
    lemma_call_enters(s, first.0, first.1, first.2);
    let b = call_outcome(a, second.0, second.1, second.2)->Ok_0;
    lemma_call_enters(a, second.0, second.1, second.2);
    lemma_call_enters(b, third.0, third.1, third.2);
}

/// Atomic abort: whatever changes a context made to its namespace, once
/// the transaction is aborted the durable state is what it was when the
/// transaction began, the working state has fallen back to it, and no
/// context is left. What the host had issued to each holder is what it
/// was, too.
pub proof fn lemma_abort_leaves_nothing(s: HostView, ms: Seq<Mutation>, code: u32)
    requires
        s.wf(),
        s.running(),
    ensures
        ({
            let end = reverted(applied_all(s, ms), code);
            &&& end.committed == s.committed
            &&& end.working == s.committed
            &&& end.working.account == s.committed.account
            &&& end.working.granted == s.committed.granted
            &&& end.stack.len() == 0
            &&& end.status == Status::Reverted(code)
        }),
{
    lemma_mutations_touch_the_namespace_only(s, ms);
}

/// Atomic commit: where the outermost context makes changes to its
/// namespace and returns, the durable state holds the namespace with every
/// change made, in order, and the records as the contexts that returned
/// before have left them. What the host has issued to the account is what
/// it recognised in the context; no binding has added to it.
pub proof fn lemma_return_keeps_everything(
    s: HostView,
    ms: Seq<Mutation>,
    value: Seq<u8>,
    urefs: Seq<URef>,
)
    requires
        s.wf(),
        s.running(),
        s.stack.len() == 1,
    ensures
        ({
            let end = returned(applied_all(s, ms), value, urefs);
            &&& end.status == Status::Returned
            &&& end.committed.account == namespace_after(s.top().named_keys, ms)
            &&& end.committed.granted == s.top().capabilities
            &&& end.committed.records == s.working.records
            &&& end.working == end.committed
            &&& end.stack.len() == 0
        }),
{
    lemma_mutations_touch_the_namespace_only(s, ms);
    assert(s.frame_wf(0));
}

/// What `ret` keeps: where a context has made changes to its namespace and
/// then returns a value that can be marshalled and hands back references
/// that the host recognises, every change is kept. The outermost context
/// leaves the changed namespace as the durable namespace of the account;
/// any other leaves it in its record and goes back to its caller.
pub proof fn lemma_ret_keeps_every_mutation(
    s: HostView,
    ms: Seq<Mutation>,
    value: CLValueView,
    urefs: Seq<URef>,
)
    requires
        s.wf(),
        s.running(),
        encodable::<CLValue>(value),
        encodable::<Vec<URef>>(urefs),
        may_forward(s, urefs),
    ensures
        ({
            let end = ret_effect(applied_all(s, ms), value, urefs);
            &&& s.stack.len() == 1 ==> {
                &&& end.status == Status::Returned
                &&& end.committed.account == namespace_after(s.top().named_keys, ms)
                &&& end.working == end.committed
            }
            &&& s.stack.len() > 1 ==> {
                &&& end.running()
                &&& end.stack.len() == s.stack.len() - 1
                &&& s.top().base is Some
                &&& end.working.records[s.top().base->Some_0].named_keys == namespace_after(
                    s.top().named_keys,
                    ms,
                )
                &&& end.staged == StagedView::CallResult(CLValue::wire(value))
            }
        }),
{
    lemma_mutations_touch_the_namespace_only(s, ms);
    let t = applied_all(s, ms);
    assert(s.frame_wf(s.stack.len() - 1));
    assert(may_forward(t, urefs)) by {
        assert forall|i: int| 0 <= i < urefs.len() implies holds(
            t.top().capabilities,
            #[trigger] urefs[i],
        ) by {
            assert(holds(s.top().capabilities, urefs[i]));
        }
    }
}

/// A binding never becomes authority, in this transaction or in a later
/// one: where the outermost context has made changes to its namespace and
/// returned, the next transaction on what it left recognises only what was
/// recognised in that context. A reference that was bound without being
/// recognised is still bound, and still not recognised.
pub proof fn lemma_binding_grants_nothing_later(
    s: HostView,
    ms: Seq<Mutation>,
    value: Seq<u8>,
    urefs: Seq<URef>,
    next: HostView,
    u: URef,
)
    requires
        s.wf(),
        s.running(),
        s.stack.len() == 1,
        next.stack.len() == 1,
        next.top().named_keys == returned(applied_all(s, ms), value, urefs).committed.account,
        next.top().capabilities == seeded(
            returned(applied_all(s, ms), value, urefs).committed.account,
            returned(applied_all(s, ms), value, urefs).committed.granted,
        ),
    ensures
        next.top().named_keys == namespace_after(s.top().named_keys, ms),
        holds(next.top().capabilities, u) ==> holds(s.top().capabilities, u),
        !holds(s.top().capabilities, u) ==> !next.top().capabilities.contains(u),
{
    lemma_return_keeps_everything(s, ms, value, urefs);
    lemma_seed_recognises_only_issued(
        namespace_after(s.top().named_keys, ms),
        s.top().capabilities,
        u,
    );
}

/// The callee lists its own namespace: after a call, the sizing call for
/// the namespace makes ready the envelope of the namespace of the callee's
/// record, whatever the caller has bound, or answers with the sentinel
/// where that namespace is too large to be marshalled.
pub proof fn lemma_callee_lists_its_own_namespace(
    s: HostView,
    key: Key,
    args: Seq<CLValueView>,
    keys: Seq<Key>,
)
    requires
        s.wf(),
        s.running(),
        call_outcome(s, key, args, keys) is Ok,
    ensures
        ({
            let after = call_outcome(s, key, args, keys)->Ok_0;
            let own = s.working.records[target_of(s, key)->Ok_0].named_keys;
            &&& after.top().named_keys == own
            &&& forall|name: Seq<char>|
                !own.contains_key(name) ==> !after.top().named_keys.contains_key(name)
            &&& namespace_encodable(own) ==> load_named_keys_step(after).staged
                == StagedView::NamedKeys(CLValue::wire(namespace_value(own)))
            &&& !namespace_encodable(own) ==> load_named_keys_step(after).staged
                == StagedView::Nothing
        }),
{
}

/// A context that is not the outermost one returns to its caller: its
/// namespace is stored in its record, the value is ready for the caller
/// to fetch, and the caller recognises what it recognised before and what
/// was handed back, which the callee held.
pub proof fn lemma_return_to_caller(s: HostView, value: Seq<u8>, urefs: Seq<URef>, u: URef)
    requires
        s.wf(),
        s.running(),
        s.stack.len() > 1,
        may_forward(s, urefs),
    ensures
        ({
            let end = returned(s, value, urefs);
            let b = s.top().base->Some_0;
            &&& end.running()
            &&& end.stack.len() == s.stack.len() - 1
            &&& end.committed == s.committed
            &&& end.staged == StagedView::CallResult(value)
            &&& end.working.records[b].named_keys == s.top().named_keys
            &&& end.top().named_keys == s.stack[s.stack.len() - 2].named_keys
            &&& end.top().capabilities.contains(u) ==> (s.stack[s.stack.len()
                - 2].capabilities.contains(u) || (urefs.contains(u) && holds(
                s.top().capabilities,
                u,
            )))
        }),
{
    assert(s.frame_wf(s.stack.len() - 1));
    if urefs.contains(u) {
        let i = choose|i: int| 0 <= i < urefs.len() && urefs[i] == u;
        assert(holds(s.top().capabilities, urefs[i]));
    }
}

/// Ending a context leaves the state well-formed, whichever way it ends:
/// by a return, from the outermost context or from any other, or by an
/// abort.
pub proof fn lemma_ending_keeps_wf(s: HostView, value: Seq<u8>, urefs: Seq<URef>, code: u32)
    requires
        s.wf(),
        s.running(),
        value.len() <= crate::bytesrepr::MAX_SERIALIZED_LENGTH,
        crate::bytesrepr::decoding::<CLValue>(value) is Ok,
    ensures
        returned(s, value, urefs).wf(),
        reverted(s, code).wf(),
        !reverted(s, code).running(),
        returned(s, value, urefs).running() <==> s.stack.len() > 1,
{
    let end = returned(s, value, urefs);
    let top = s.stack.len() - 1;
    assert(s.frame_wf(top));
    lemma_addresses_kept(s.working, end.working);
    assert forall|i: int| 0 <= i < end.stack.len() implies end.frame_wf(i) by {
        assert(s.frame_wf(i));
        assert(s.frame_wf(0));
    }
}

/// The two-phase protocol for a named key: for a name that is not bound
/// the sizing call answers with the sentinel and leaves nothing to fetch;
/// for a name that is bound it answers with the length of what the fetch
/// will write, to the byte.
pub proof fn lemma_two_phase_named_key(s: HostView, name: Seq<u8>)
    requires
        s.wf(),
        s.running(),
    ensures
        get_key_step(s, name).fetched == s.fetched,
        resolved(s, name) is None ==> get_key_size(s, name) == ABSENT && staged_bytes(
            get_key_step(s, name).staged,
        ) is None,
        resolved(s, name) is Some ==> get_key_size(s, name) >= 0 && get_key_step(s, name).staged
            == StagedView::NamedKey(key_envelope(resolved(s, name)->Some_0)) && get_key_size(
            s,
            name,
        ) == key_envelope(resolved(s, name)->Some_0).len(),
{
    if resolved(s, name) is Some {
        crate::model::lemma_key_envelope(resolved(s, name)->Some_0);
    }
}

/// The two-phase protocol for an argument: for an index that was not
/// supplied the sizing call answers with the sentinel and leaves nothing
/// to fetch; for one that was supplied it answers with the length of what
/// the fetch will write.
pub proof fn lemma_two_phase_argument(s: HostView, i: u32)
    requires
        s.wf(),
        s.running(),
    ensures
        load_arg_step(s, i).fetched == s.fetched,
        i >= s.top().args.len() ==> load_arg_size(s, i) == ABSENT && staged_bytes(
            load_arg_step(s, i).staged,
        ) is None,
        i < s.top().args.len() ==> load_arg_size(s, i) >= 0 && load_arg_step(s, i).staged
            == StagedView::Argument(CLValue::wire(s.top().args[i as int])) && load_arg_size(s, i)
            == CLValue::wire(s.top().args[i as int]).len(),
{
    assert(s.frame_wf(s.stack.len() - 1));
}

/// Upgrade preserves the namespace: replacing the table of a contract
/// leaves the names bound at its record as they are, puts the new table in
/// place of the old one, and moves the version marker on by one. Every
/// other record, and the namespace of every context, stays as it is.
pub proof fn lemma_upgrade_preserves_namespace(s: HostView, uref: URef, table: Seq<EntryPointView>)
    requires
        s.wf(),
        s.running(),
        replace_outcome(s, uref, table) is Ok,
    ensures
        ({
            let after = replace_outcome(s, uref, table)->Ok_0;
            let b = find_record(s.working, uref.addr)->Some_0;
            &&& find_record(s.working, uref.addr) is Some
            &&& 0 <= b < s.working.records.len()
            &&& after.wf()
            &&& after.working.records.len() == s.working.records.len()
            &&& after.working.records[b].named_keys == s.working.records[b].named_keys
            &&& after.working.records[b].address == s.working.records[b].address
            &&& after.working.records[b].entry_points == table
            &&& after.working.records[b].version == s.working.records[b].version + 1
            &&& after.working.records[b].version > s.working.records[b].version
            &&& forall|i: int|
                0 <= i < s.working.records.len() && i != b ==> after.working.records[i]
                    == s.working.records[i]
            &&& after.working.account == s.working.account
            &&& after.stack == s.stack
            &&& after.committed == s.committed
        }),
{
    let after = replace_outcome(s, uref, table)->Ok_0;
    let b = find_record(s.working, uref.addr)->Some_0;
    assert forall|i: int| 0 <= i < after.stack.len() implies after.frame_wf(i) by {
        assert(s.frame_wf(i));
    }
    lemma_addresses_kept(s.working, after.working);
}

} // verus!
