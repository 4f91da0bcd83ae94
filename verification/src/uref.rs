//! Capability references: an address together with the rights it carries.
//!
//! A reference is only a claim. Whether it carries authority is decided by
//! the host, which recognises the references it has issued to the running
//! context and nothing else.

use vstd::prelude::*;
use vstd::slice::slice_subrange;

use crate::bytesrepr::{append_bytes, Error, FromBytes, ToBytes};

verus! {

/// The address whose bytes are `s`.
pub closed spec fn address_of(s: Seq<u8>) -> [u8; 32] {
    choose|a: [u8; 32]| a@ == s
}

/// An address is the address of its own bytes.
pub proof fn lemma_address_of_view(a: [u8; 32])
    ensures
        address_of(a@) == a,
{
    let b = address_of(a@);
    assert(b@ == a@);
    assert(b =~= a);
}

/// Whether two addresses are the same.
pub fn same_address(a: &[u8; 32], b: &[u8; 32]) -> (r: bool)
    ensures
        r == (*a == *b),
{
    let mut i: usize = 0;
    while i < 32
        invariant
            i <= 32,
            forall|j: int| 0 <= j < i ==> a[j] == b[j],
        decreases 32 - i,
    {
        if a[i] != b[i] {
            return false;
        }
        i = i + 1;
    }
    proof {
        assert(*a =~= *b);
    }
    true
}

/// Appends the bytes of an address to `out`.
pub fn write_address(addr: &[u8; 32], out: &mut Vec<u8>)
    ensures
        final(out)@ == old(out)@ + addr@,
{
    append_bytes(out, addr.as_slice());
}

/// Reads the address that the first 32 bytes of `bytes` spell.
pub fn read_address(bytes: &[u8]) -> (r: [u8; 32])
    requires
        bytes@.len() >= 32,
    ensures
        r@ == bytes@.take(32),
        r == address_of(bytes@.take(32)),
{
    let mut addr: [u8; 32] = [0u8;32];
    let mut i: usize = 0;
    while i < 32
        invariant
            i <= 32,
            bytes@.len() >= 32,
            forall|j: int| 0 <= j < i ==> addr[j] == bytes@[j],
        decreases 32 - i,
    {
        addr[i] = bytes[i];
        i = i + 1;
    }
    proof {
        assert(addr@ =~= bytes@.take(32));
        lemma_address_of_view(addr);
    }
    addr
}

/// What the holder of a reference may do with what it points to.
#[derive(Clone, Copy, Debug, PartialEq, Eq, Structural)]
pub struct AccessRights {
    /// The value may be read.
    pub read: bool,
    /// The value may be overwritten.
    pub write: bool,
    /// The value may be added to.
    pub add: bool,
}

impl AccessRights {
    /// Whether every right in `self` is also in `other`.
    pub open spec fn spec_is_subset_of(self, other: AccessRights) -> bool {
        &&& self.read ==> other.read
        &&& self.write ==> other.write
        &&& self.add ==> other.add
    }

    /// The byte that stands for these rights: 1 for read, 2 for write, 4 for add, summed.
    pub open spec fn spec_bits(self) -> u8 {
        ((if self.read {
            1int
        } else {
            0int
        }) + (if self.write {
            2int
        } else {
            0int
        }) + (if self.add {
            4int
        } else {
            0int
        })) as u8
    }

    /// The rights that a byte below 8 stands for.
    pub open spec fn spec_from_bits(bits: u8) -> AccessRights {
        AccessRights { read: bits % 2 == 1, write: (bits / 2) % 2 == 1, add: (bits / 4) % 2 == 1 }
    }

    /// No right at all.
    pub fn none() -> (r: AccessRights)
        ensures
            r == (AccessRights { read: false, write: false, add: false }),
    {
        AccessRights { read: false, write: false, add: false }
    }

    /// The right to read.
    pub fn read() -> (r: AccessRights)
        ensures
            r == (AccessRights { read: true, write: false, add: false }),
    {
        AccessRights { read: true, write: false, add: false }
    }

    /// The right to write.
    pub fn write() -> (r: AccessRights)
        ensures
            r == (AccessRights { read: false, write: true, add: false }),
    {
        AccessRights { read: false, write: true, add: false }
    }

    /// The right to add.
    pub fn add() -> (r: AccessRights)
        ensures
            r == (AccessRights { read: false, write: false, add: true }),
    {
        AccessRights { read: false, write: false, add: true }
    }

    /// Every right.
    pub fn read_add_write() -> (r: AccessRights)
        ensures
            r == (AccessRights { read: true, write: true, add: true }),
    {
        AccessRights { read: true, write: true, add: true }
    }

    /// Whether every right in `self` is also in `other`.
    pub fn is_subset_of(&self, other: &AccessRights) -> (r: bool)
        ensures
            r == self.spec_is_subset_of(*other),
    {
        (!self.read || other.read) && (!self.write || other.write) && (!self.add || other.add)
    }

    /// The rights that are in both `self` and `other`.
    pub fn intersection(&self, other: &AccessRights) -> (r: AccessRights)
        ensures
            r == (AccessRights {
                read: self.read && other.read,
                write: self.write && other.write,
                add: self.add && other.add,
            }),
            r.spec_is_subset_of(*self),
            r.spec_is_subset_of(*other),
    {
        AccessRights {
            read: self.read && other.read,
            write: self.write && other.write,
            add: self.add && other.add,
        }
    }

    /// The byte that stands for these rights.
    pub fn bits(&self) -> (r: u8)
        ensures
            r == self.spec_bits(),
            r < 8,
    {
        let mut bits: u8 = 0;
        if self.read {
            bits = bits + 1;
        }
        if self.write {
            bits = bits + 2;
        }
        if self.add {
            bits = bits + 4;
        }
        bits
    }

    /// The rights that a byte stands for, if it stands for any.
    pub fn from_bits(bits: u8) -> (r: Option<AccessRights>)
        ensures
            bits < 8 ==> r == Some(Self::spec_from_bits(bits)),
            bits >= 8 ==> r.is_none(),
    {
        if bits >= 8 {
            None
        } else {
            Some(
                AccessRights {
                    read: bits % 2 == 1,
                    write: (bits / 2) % 2 == 1,
                    add: (bits / 4) % 2 == 1,
                },
            )
        }
    }
}

impl DeepView for AccessRights {
    type V = AccessRights;

    open spec fn deep_view(&self) -> AccessRights {
        *self
    }
}

impl ToBytes for AccessRights {
    open spec fn wire(v: AccessRights) -> Seq<u8> {
        seq![v.spec_bits()]
    }

    open spec fn fits(v: AccessRights) -> bool {
        true
    }

    fn write_bytes(&self, out: &mut Vec<u8>) -> (ok: bool) {
        out.push(self.bits());
        true
    }
}

impl FromBytes for AccessRights {
    open spec fn parse(bytes: Seq<u8>) -> Result<(AccessRights, int), Error> {
        if bytes.len() < 1 {
            Err(Error::EarlyEndOfStream)
        } else if bytes[0] >= 8 {
            Err(Error::FormattingError)
        } else {
            Ok((AccessRights::spec_from_bits(bytes[0]), 1))
        }
    }

    fn from_bytes(bytes: &[u8]) -> (r: Result<(AccessRights, &[u8]), Error>) {
        if bytes.len() < 1 {
            return Err(Error::EarlyEndOfStream);
        }
        let rest = slice_subrange(bytes, 1, bytes.len());
        match AccessRights::from_bits(bytes[0]) {
            Some(rights) => Ok((rights, rest)),
            None => Err(Error::FormattingError),
        }
    }

    proof fn lemma_parse_wire(x: AccessRights, rest: Seq<u8>) {
    }
}

/// A capability reference: an address and the rights claimed over it.
#[derive(Clone, Copy, Debug, PartialEq, Eq)]
pub struct URef {
    /// Where the referenced value lives.
    pub addr: [u8; 32],
    /// What the holder claims to be allowed to do with it.
    pub access_rights: AccessRights,
}

impl URef {
    /// Whether `self` points where `other` points and claims no right that
    /// `other` lacks: whoever holds `other` may use `self`.
    pub open spec fn spec_is_covered_by(self, other: URef) -> bool {
        self.addr == other.addr && self.access_rights.spec_is_subset_of(other.access_rights)
    }

    /// A reference to `addr` that claims `access_rights`.
    pub fn new(addr: [u8; 32], access_rights: AccessRights) -> (r: URef)
        ensures
            r == (URef { addr, access_rights }),
    {
        URef { addr, access_rights }
    }

    /// The address this reference points to.
    pub fn addr(&self) -> (r: [u8; 32])
        ensures
            r == self.addr,
    {
        self.addr
    }

    /// The rights this reference claims.
    pub fn access_rights(&self) -> (r: AccessRights)
        ensures
            r == self.access_rights,
    {
        self.access_rights
    }

    /// The same reference with its rights narrowed to those also in
    /// `access_rights`. The result never claims more than `self` does.
    pub fn with_access_rights(&self, access_rights: AccessRights) -> (r: URef)
        ensures
            r.addr == self.addr,
            r.access_rights == (AccessRights {
                read: self.access_rights.read && access_rights.read,
                write: self.access_rights.write && access_rights.write,
                add: self.access_rights.add && access_rights.add,
            }),
            r.spec_is_covered_by(*self),
    {
        URef { addr: self.addr, access_rights: self.access_rights.intersection(&access_rights) }
    }

    /// Whether whoever holds `other` may use `self`.
    pub fn is_covered_by(&self, other: &URef) -> (r: bool)
        ensures
            r == self.spec_is_covered_by(*other),
    {
        same_address(&self.addr, &other.addr) && self.access_rights.is_subset_of(
            &other.access_rights,
        )
    }

    /// Whether two references are the same.
    pub fn same(&self, other: &URef) -> (r: bool)
        ensures
            r == (*self == *other),
    {
        same_address(&self.addr, &other.addr) && self.access_rights == other.access_rights
    }
}

impl DeepView for URef {
    type V = URef;

    open spec fn deep_view(&self) -> URef {
        *self
    }
}

impl ToBytes for URef {
    open spec fn wire(v: URef) -> Seq<u8> {
        v.addr@ + seq![v.access_rights.spec_bits()]
    }

    open spec fn fits(v: URef) -> bool {
        true
    }

    fn write_bytes(&self, out: &mut Vec<u8>) -> (ok: bool) {
        write_address(&self.addr, out);
        out.push(self.access_rights.bits());
        proof {
            assert(out@ =~= old(out)@ + Self::wire(*self));
        }
        true
    }
}

impl FromBytes for URef {
    open spec fn parse(bytes: Seq<u8>) -> Result<(URef, int), Error> {
        if bytes.len() < 33 {
            Err(Error::EarlyEndOfStream)
        } else if bytes[32] >= 8 {
            Err(Error::FormattingError)
        } else {
            Ok(
                (
                    URef {
                        addr: address_of(bytes.take(32)),
                        access_rights: AccessRights::spec_from_bits(bytes[32]),
                    },
                    33,
                ),
            )
        }
    }

    fn from_bytes(bytes: &[u8]) -> (r: Result<(URef, &[u8]), Error>) {
        if bytes.len() < 33 {
            return Err(Error::EarlyEndOfStream);
        }
        let addr = read_address(bytes);
        let rest = slice_subrange(bytes, 33, bytes.len());
        match AccessRights::from_bits(bytes[32]) {
            Some(access_rights) => Ok((URef { addr, access_rights }, rest)),
            None => Err(Error::FormattingError),
        }
    }

    proof fn lemma_parse_wire(x: URef, rest: Seq<u8>) {
        let all = Self::wire(x) + rest;
        assert(all.take(32) =~= x.addr@);
        lemma_address_of_view(x.addr);
    }
}

/// A copy of a list of references.
pub fn copy_urefs(urefs: &Vec<URef>) -> (r: Vec<URef>)
    ensures
        r@ == urefs@,
{
    let mut out: Vec<URef> = Vec::new();
    let mut i: usize = 0;
    while i < urefs.len()
        invariant
            i <= urefs.len(),
            out@ == urefs@.take(i as int),
        decreases urefs.len() - i,
    {
        out.push(urefs[i]);
        i = i + 1;
        proof {
            assert(urefs@.take(i as int) =~= urefs@.take(i - 1).push(urefs@[i - 1]));
        }
    }
    proof {
        assert(urefs@.take(urefs@.len() as int) =~= urefs@);
    }
    out
}

} // verus!
