//! The identity of an account: the one that signed the running transaction.

use vstd::prelude::*;
use vstd::slice::slice_subrange;

use crate::bytesrepr::{
    le_bytes, le_value, lemma_le_value_bytes, pow256, read_le, write_le, Error, FromBytes, ToBytes,
};
use crate::uref::{address_of, lemma_address_of_view, read_address, same_address, write_address};

verus! {

/// Number of bytes in an encoded public key: a length prefix and 32 bytes.
pub const PUBLIC_KEY_SERIALIZED_LENGTH: usize = 36;

/// The public key of an account.
#[derive(Clone, Copy, Debug, PartialEq, Eq)]
pub struct PublicKey {
    /// The 32 bytes of the key.
    pub value: [u8; 32],
}

impl PublicKey {
    /// The key with the given bytes.
    pub fn new(value: [u8; 32]) -> (r: PublicKey)
        ensures
            r.value == value,
    {
        PublicKey { value }
    }

    /// The bytes of the key.
    pub fn value(&self) -> (r: [u8; 32])
        ensures
            r == self.value,
    {
        self.value
    }

    /// Whether two keys are the same.
    pub fn same(&self, other: &PublicKey) -> (r: bool)
        ensures
            r == (*self == *other),
    {
        same_address(&self.value, &other.value)
    }
}

impl DeepView for PublicKey {
    type V = PublicKey;

    open spec fn deep_view(&self) -> PublicKey {
        *self
    }
}

impl ToBytes for PublicKey {
    open spec fn wire(v: PublicKey) -> Seq<u8> {
        le_bytes(32, 4) + v.value@
    }

    open spec fn fits(v: PublicKey) -> bool {
        true
    }

    fn write_bytes(&self, out: &mut Vec<u8>) -> (ok: bool) {
        write_le(out, 32, 4);
        write_address(&self.value, out);
        proof {
            assert(out@ =~= old(out)@ + Self::wire(*self));
        }
        true
    }
}

impl FromBytes for PublicKey {
    open spec fn parse(bytes: Seq<u8>) -> Result<(PublicKey, int), Error> {
        if bytes.len() < 4 {
            Err(Error::EarlyEndOfStream)
        } else if le_value(bytes.take(4)) != 32 {
            Err(Error::FormattingError)
        } else if bytes.len() < 36 {
            Err(Error::EarlyEndOfStream)
        } else {
            Ok((PublicKey { value: address_of(bytes.subrange(4, 36)) }, 36))
        }
    }

    fn from_bytes(bytes: &[u8]) -> (r: Result<(PublicKey, &[u8]), Error>) {
        if bytes.len() < 4 {
            return Err(Error::EarlyEndOfStream);
        }
        let n = read_le(bytes, 4);
        if n != 32 {
            return Err(Error::FormattingError);
        }
        if bytes.len() < 36 {
            return Err(Error::EarlyEndOfStream);
        }
        let body = slice_subrange(bytes, 4, bytes.len());
        let value = read_address(body);
        let rest = slice_subrange(bytes, 36, bytes.len());
        proof {
            assert(body@.take(32) =~= bytes@.subrange(4, 36));
        }
        Ok((PublicKey { value }, rest))
    }

    proof fn lemma_parse_wire(x: PublicKey, rest: Seq<u8>) {
        let all = Self::wire(x) + rest;
        reveal_with_fuel(pow256, 5);
        lemma_le_value_bytes(32, 4, x.value@ + rest);
        assert(all =~= le_bytes(32, 4) + (x.value@ + rest));
        assert(all.subrange(4, 36) =~= x.value@);
        lemma_address_of_view(x.value);
    }
}

} // verus!
