//! The address space of the ledger: accounts, content hashes and capability references.

use vstd::prelude::*;
use vstd::slice::slice_subrange;

use crate::bytesrepr::{Error, FromBytes, ToBytes};
use crate::uref::{
    address_of, lemma_address_of_view, read_address, same_address, write_address, URef,
};

verus! {

/// Tag byte of an account address.
pub const ACCOUNT_TAG: u8 = 0;

/// Tag byte of a content-hash address.
pub const HASH_TAG: u8 = 1;

/// Tag byte of a capability reference.
pub const UREF_TAG: u8 = 2;

/// An address of one of the three kinds. The kind decides which operations
/// are legal on it; no kind is ever read as another.
#[derive(Clone, Copy, Debug, PartialEq, Eq)]
pub enum Key {
    /// The address of an account.
    Account([u8; 32]),
    /// The address of a stored record, by its hash.
    Hash([u8; 32]),
    /// A capability reference.
    URef(URef),
}

impl Key {
    /// The byte that tells the kind of a key.
    pub open spec fn spec_tag(self) -> u8 {
        match self {
            Key::Account(_) => ACCOUNT_TAG,
            Key::Hash(_) => HASH_TAG,
            Key::URef(_) => UREF_TAG,
        }
    }

    /// The reference inside a key of that kind.
    pub fn as_uref(&self) -> (r: Option<URef>)
        ensures
            r == (match *self {
                Key::URef(u) => Some(u),
                _ => None,
            }),
    {
        match self {
            Key::URef(u) => Some(*u),
            _ => None,
        }
    }

    /// The address inside a key of the hash kind.
    pub fn as_hash(&self) -> (r: Option<[u8; 32]>)
        ensures
            r == (match *self {
                Key::Hash(a) => Some(a),
                _ => None,
            }),
    {
        match self {
            Key::Hash(a) => Some(*a),
            _ => None,
        }
    }

    /// Whether two keys are the same.
    pub fn same(&self, other: &Key) -> (r: bool)
        ensures
            r == (*self == *other),
    {
        match (self, other) {
            (Key::Account(a), Key::Account(b)) => same_address(a, b),
            (Key::Hash(a), Key::Hash(b)) => same_address(a, b),
            (Key::URef(a), Key::URef(b)) => a.same(b),
            _ => false,
        }
    }
}

impl DeepView for Key {
    type V = Key;

    open spec fn deep_view(&self) -> Key {
        *self
    }
}

impl ToBytes for Key {
    open spec fn wire(v: Key) -> Seq<u8> {
        match v {
            Key::Account(a) => seq![ACCOUNT_TAG] + a@,
            Key::Hash(a) => seq![HASH_TAG] + a@,
            Key::URef(u) => seq![UREF_TAG] + URef::wire(u),
        }
    }

    open spec fn fits(v: Key) -> bool {
        true
    }

    fn write_bytes(&self, out: &mut Vec<u8>) -> (ok: bool) {
        match self {
            Key::Account(a) => {
                out.push(ACCOUNT_TAG);
                write_address(a, out);
            },
            Key::Hash(a) => {
                out.push(HASH_TAG);
                write_address(a, out);
            },
            Key::URef(u) => {
                out.push(UREF_TAG);
                u.write_bytes(out);
            },
        }
        proof {
            assert(out@ =~= old(out)@ + Self::wire(*self));
        }
        true
    }
}

impl FromBytes for Key {
    open spec fn parse(bytes: Seq<u8>) -> Result<(Key, int), Error> {
        if bytes.len() < 1 {
            Err(Error::EarlyEndOfStream)
        } else if bytes[0] == ACCOUNT_TAG {
            if bytes.len() < 33 {
                Err(Error::EarlyEndOfStream)
            } else {
                Ok((Key::Account(address_of(bytes.subrange(1, 33))), 33))
            }
        } else if bytes[0] == HASH_TAG {
            if bytes.len() < 33 {
                Err(Error::EarlyEndOfStream)
            } else {
                Ok((Key::Hash(address_of(bytes.subrange(1, 33))), 33))
            }
        } else if bytes[0] == UREF_TAG {
            match URef::parse(bytes.skip(1)) {
                Ok((u, n)) => Ok((Key::URef(u), 1 + n)),
                Err(e) => Err(e),
            }
        } else {
            Err(Error::FormattingError)
        }
    }

    fn from_bytes(bytes: &[u8]) -> (r: Result<(Key, &[u8]), Error>) {
        if bytes.len() < 1 {
            return Err(Error::EarlyEndOfStream);
        }
        let tag: u8 = bytes[0];
        let body = slice_subrange(bytes, 1, bytes.len());
        if tag == ACCOUNT_TAG || tag == HASH_TAG {
            if body.len() < 32 {
                return Err(Error::EarlyEndOfStream);
            }
            let addr = read_address(body);
            let rest = slice_subrange(body, 32, body.len());
            proof {
                assert(body@.take(32) =~= bytes@.subrange(1, 33));
                assert(rest@ =~= bytes@.skip(33));
            }
            if tag == ACCOUNT_TAG {
                Ok((Key::Account(addr), rest))
            } else {
                Ok((Key::Hash(addr), rest))
            }
        } else if tag == UREF_TAG {
            match URef::from_bytes(body) {
                Ok((u, rest)) => {
                    proof {
                        assert(body@ =~= bytes@.skip(1));
                        assert(rest@ =~= bytes@.skip(34));
                    }
                    Ok((Key::URef(u), rest))
                },
                Err(e) => Err(e),
            }
        } else {
            Err(Error::FormattingError)
        }
    }

    proof fn lemma_parse_wire(x: Key, rest: Seq<u8>) {
        let all = Self::wire(x) + rest;
        match x {
            Key::Account(a) => {
                assert(all.subrange(1, 33) =~= a@);
                lemma_address_of_view(a);
            },
            Key::Hash(a) => {
                assert(all.subrange(1, 33) =~= a@);
                lemma_address_of_view(a);
            },
            Key::URef(u) => {
                assert(all.skip(1) =~= URef::wire(u) + rest);
                URef::lemma_parse_wire(u, rest);
            },
        }
    }
}

/// The capability references among `keys`, in their order.
pub open spec fn urefs_among(keys: Seq<Key>) -> Seq<URef>
    decreases keys.len(),
{
    if keys.len() == 0 {
        Seq::empty()
    } else {
        match keys.last() {
            Key::URef(u) => urefs_among(keys.drop_last()).push(u),
            _ => urefs_among(keys.drop_last()),
        }
    }
}

/// The capability references among `keys`, in their order.
pub fn collect_urefs(keys: &Vec<Key>) -> (r: Vec<URef>)
    ensures
        r@ == urefs_among(keys@),
{
    let mut out: Vec<URef> = Vec::new();
    let mut i: usize = 0;
    proof {
        assert(keys@.take(0) =~= Seq::<Key>::empty());
    }
    while i < keys.len()
        invariant
            i <= keys.len(),
            out@ == urefs_among(keys@.take(i as int)),
        decreases keys.len() - i,
    {
        proof {
            assert(keys@.take(i + 1).drop_last() =~= keys@.take(i as int));
            assert(keys@.take(i + 1).last() == keys@[i as int]);
        }
        match keys[i] {
            Key::URef(u) => {
                out.push(u);
            },
            _ => {},
        }
        i = i + 1;
    }
    proof {
        assert(keys@.take(keys@.len() as int) =~= keys@);
    }
    out
}

/// The references among a list of keys are those that occur in it as keys.
pub proof fn lemma_urefs_among(keys: Seq<Key>, u: URef)
    ensures
        urefs_among(keys).contains(u) <==> keys.contains(Key::URef(u)),
    decreases keys.len(),
{
    if keys.len() > 0 {
        let init = keys.drop_last();
        lemma_urefs_among(init, u);
        if keys.contains(Key::URef(u)) {
            let i = choose|i: int| 0 <= i < keys.len() && keys[i] == Key::URef(u);
            if i < init.len() {
                assert(init[i] == Key::URef(u));
                assert(init.contains(Key::URef(u)));
            }
        }
        if init.contains(Key::URef(u)) {
            let i = choose|i: int| 0 <= i < init.len() && init[i] == Key::URef(u);
            assert(keys[i] == Key::URef(u));
        }
        match keys.last() {
            Key::URef(w) => {
                let out = urefs_among(init).push(w);
                if urefs_among(init).contains(u) {
                    let i = choose|i: int|
                        0 <= i < urefs_among(init).len() && urefs_among(init)[i] == u;
                    assert(out[i] == u);
                }
                if w == u {
                    assert(out[out.len() - 1] == u);
                    assert(keys[keys.len() - 1] == Key::URef(u));
                }
                if out.contains(u) && w != u {
                    let i = choose|i: int| 0 <= i < out.len() && out[i] == u;
                    assert(urefs_among(init)[i] == u);
                }
            },
            _ => {},
        }
    }
}

} // verus!
