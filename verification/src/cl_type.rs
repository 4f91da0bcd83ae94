//! Type descriptors: what the receiver of a value needs to know to decode it.

use vstd::prelude::*;
use vstd::slice::slice_subrange;

use crate::bytesrepr::{
    le_bytes, le_value, lemma_le_value_bytes, pow256, read_le, write_le, Error, FromBytes, ToBytes,
};
use crate::key::Key;
use crate::uref::URef;

verus! {

/// The type of a value that crosses the boundary.
#[derive(Debug, PartialEq, Eq)]
pub enum CLType {
    /// `bool`.
    Bool,
    /// `i32`.
    I32,
    /// `i64`.
    I64,
    /// `u8`.
    U8,
    /// `u32`.
    U32,
    /// `u64`.
    U64,
    /// An unsigned number of 128 bits.
    U128,
    /// An unsigned number of 256 bits.
    U256,
    /// An unsigned number of 512 bits.
    U512,
    /// The type with one value.
    Unit,
    /// A string.
    String,
    /// A [`Key`].
    Key,
    /// A [`URef`].
    URef,
    /// A value that may be absent.
    Option(Box<CLType>),
    /// A list of any length.
    List(Box<CLType>),
    /// A list of a fixed length.
    FixedList(Box<CLType>, u32),
    /// A mapping.
    Mapping {
        /// The type of the keys.
        key: Box<CLType>,
        /// The type of the values.
        value: Box<CLType>,
    },
    /// A value of a type that is not described.
    Any,
}

/// Tag byte of [`CLType::Option`].
pub const OPTION_TAG: u8 = 13;

/// Tag byte of [`CLType::List`].
pub const LIST_TAG: u8 = 14;

/// Tag byte of [`CLType::FixedList`].
pub const FIXED_LIST_TAG: u8 = 15;

/// Tag byte of [`CLType::Mapping`].
pub const MAP_TAG: u8 = 17;

/// Tag byte of [`CLType::Any`].
pub const ANY_TAG: u8 = 21;

/// The byte that an encoded type starts with.
pub open spec fn type_tag(t: CLType) -> u8 {
    match t {
        CLType::Bool => 0,
        CLType::I32 => 1,
        CLType::I64 => 2,
        CLType::U8 => 3,
        CLType::U32 => 4,
        CLType::U64 => 5,
        CLType::U128 => 6,
        CLType::U256 => 7,
        CLType::U512 => 8,
        CLType::Unit => 9,
        CLType::String => 10,
        CLType::Key => 11,
        CLType::URef => 12,
        CLType::Option(_) => OPTION_TAG,
        CLType::List(_) => LIST_TAG,
        CLType::FixedList(_, _) => FIXED_LIST_TAG,
        CLType::Mapping { .. } => MAP_TAG,
        CLType::Any => ANY_TAG,
    }
}

/// The type without parts that a tag byte stands for, if it stands for one.
pub open spec fn simple_type(tag: u8) -> Option<CLType> {
    if tag == 0 {
        Some(CLType::Bool)
    } else if tag == 1 {
        Some(CLType::I32)
    } else if tag == 2 {
        Some(CLType::I64)
    } else if tag == 3 {
        Some(CLType::U8)
    } else if tag == 4 {
        Some(CLType::U32)
    } else if tag == 5 {
        Some(CLType::U64)
    } else if tag == 6 {
        Some(CLType::U128)
    } else if tag == 7 {
        Some(CLType::U256)
    } else if tag == 8 {
        Some(CLType::U512)
    } else if tag == 9 {
        Some(CLType::Unit)
    } else if tag == 10 {
        Some(CLType::String)
    } else if tag == 11 {
        Some(CLType::Key)
    } else if tag == 12 {
        Some(CLType::URef)
    } else if tag == ANY_TAG {
        Some(CLType::Any)
    } else {
        None
    }
}

/// The encoding of a type: its tag, then its parts in order.
pub open spec fn type_wire(t: CLType) -> Seq<u8>
    decreases t,
{
    match t {
        CLType::Option(inner) => seq![OPTION_TAG] + type_wire(*inner),
        CLType::List(inner) => seq![LIST_TAG] + type_wire(*inner),
        CLType::FixedList(inner, n) => seq![FIXED_LIST_TAG] + type_wire(*inner) + le_bytes(
            n as nat,
            4,
        ),
        CLType::Mapping { key, value } => seq![MAP_TAG] + type_wire(*key) + type_wire(*value),
        _ => seq![type_tag(t)],
    }
}

/// What a byte string starts with, read as a type.
pub open spec fn parse_type(bytes: Seq<u8>) -> Result<(CLType, int), Error>
    decreases bytes.len(),
{
    if bytes.len() < 1 {
        Err(Error::EarlyEndOfStream)
    } else if simple_type(bytes[0]) is Some {
        Ok((simple_type(bytes[0])->Some_0, 1))
    } else if bytes[0] == OPTION_TAG {
        match parse_type(bytes.skip(1)) {
            Ok((inner, n)) => Ok((CLType::Option(Box::new(inner)), 1 + n)),
            Err(e) => Err(e),
        }
    } else if bytes[0] == LIST_TAG {
        match parse_type(bytes.skip(1)) {
            Ok((inner, n)) => Ok((CLType::List(Box::new(inner)), 1 + n)),
            Err(e) => Err(e),
        }
    } else if bytes[0] == FIXED_LIST_TAG {
        match parse_type(bytes.skip(1)) {
            Ok((inner, n)) => if 0 <= n && n + 5 <= bytes.len() {
                Ok(
                    (
                        CLType::FixedList(
                            Box::new(inner),
                            le_value(bytes.subrange(1 + n, 5 + n)) as u32,
                        ),
                        5 + n,
                    ),
                )
            } else {
                Err(Error::EarlyEndOfStream)
            },
            Err(e) => Err(e),
        }
    } else if bytes[0] == MAP_TAG {
        match parse_type(bytes.skip(1)) {
            Ok((key, n)) => if 0 <= n && n + 1 <= bytes.len() {
                match parse_type(bytes.skip(1 + n)) {
                    Ok((value, m)) => Ok(
                        (CLType::Mapping { key: Box::new(key), value: Box::new(value) }, 1 + n + m),
                    ),
                    Err(e) => Err(e),
                }
            } else {
                Err(Error::EarlyEndOfStream)
            },
            Err(e) => Err(e),
        }
    } else {
        Err(Error::FormattingError)
    }
}

/// A type is read back from its encoding, whatever follows it.
pub proof fn lemma_parse_type_wire(t: CLType, rest: Seq<u8>)
    ensures
        parse_type(type_wire(t) + rest) == Ok::<(CLType, int), Error>(
            (t, type_wire(t).len() as int),
        ),
    decreases t,
{
    let all = type_wire(t) + rest;
    match t {
        CLType::Option(inner) => {
            lemma_parse_type_wire(*inner, rest);
            assert(all.skip(1) =~= type_wire(*inner) + rest);
        },
        CLType::List(inner) => {
            lemma_parse_type_wire(*inner, rest);
            assert(all.skip(1) =~= type_wire(*inner) + rest);
        },
        CLType::FixedList(inner, n) => {
            let body = type_wire(*inner);
            lemma_parse_type_wire(*inner, le_bytes(n as nat, 4) + rest);
            assert(all.skip(1) =~= body + (le_bytes(n as nat, 4) + rest));
            reveal_with_fuel(pow256, 5);
            lemma_le_value_bytes(n as nat, 4, rest);
            assert(all.subrange(1 + body.len() as int, 5 + body.len() as int) =~= le_bytes(
                n as nat,
                4,
            ));
        },
        CLType::Mapping { key, value } => {
            let k = type_wire(*key);
            lemma_parse_type_wire(*key, type_wire(*value) + rest);
            assert(all.skip(1) =~= k + (type_wire(*value) + rest));
            lemma_parse_type_wire(*value, rest);
            assert(all.skip(1 + k.len() as int) =~= type_wire(*value) + rest);
        },
        _ => {},
    }
}

impl CLType {
    /// The byte that the encoding of this type starts with.
    pub fn tag(&self) -> (r: u8)
        ensures
            r == type_tag(*self),
    {
        match self {
            CLType::Bool => 0,
            CLType::I32 => 1,
            CLType::I64 => 2,
            CLType::U8 => 3,
            CLType::U32 => 4,
            CLType::U64 => 5,
            CLType::U128 => 6,
            CLType::U256 => 7,
            CLType::U512 => 8,
            CLType::Unit => 9,
            CLType::String => 10,
            CLType::Key => 11,
            CLType::URef => 12,
            CLType::Option(_) => OPTION_TAG,
            CLType::List(_) => LIST_TAG,
            CLType::FixedList(_, _) => FIXED_LIST_TAG,
            CLType::Mapping { .. } => MAP_TAG,
            CLType::Any => ANY_TAG,
        }
    }

    /// The type without parts that a tag byte stands for, if it stands for one.
    pub fn from_simple_tag(tag: u8) -> (r: Option<CLType>)
        ensures
            r == simple_type(tag),
    {
        if tag == 0 {
            Some(CLType::Bool)
        } else if tag == 1 {
            Some(CLType::I32)
        } else if tag == 2 {
            Some(CLType::I64)
        } else if tag == 3 {
            Some(CLType::U8)
        } else if tag == 4 {
            Some(CLType::U32)
        } else if tag == 5 {
            Some(CLType::U64)
        } else if tag == 6 {
            Some(CLType::U128)
        } else if tag == 7 {
            Some(CLType::U256)
        } else if tag == 8 {
            Some(CLType::U512)
        } else if tag == 9 {
            Some(CLType::Unit)
        } else if tag == 10 {
            Some(CLType::String)
        } else if tag == 11 {
            Some(CLType::Key)
        } else if tag == 12 {
            Some(CLType::URef)
        } else if tag == ANY_TAG {
            Some(CLType::Any)
        } else {
            None
        }
    }

    /// Whether two types are the same.
    pub fn same(&self, other: &CLType) -> (r: bool)
        ensures
            r == (*self == *other),
        decreases *self,
    {
        match (self, other) {
            (CLType::Option(a), CLType::Option(b)) => a.same(b),
            (CLType::List(a), CLType::List(b)) => a.same(b),
            (CLType::FixedList(a, n), CLType::FixedList(b, m)) => *n == *m && a.same(b),
            (
                CLType::Mapping { key: ka, value: va },
                CLType::Mapping { key: kb, value: vb },
            ) => ka.same(kb) && va.same(vb),
            (CLType::Option(_), _) => false,
            (CLType::List(_), _) => false,
            (CLType::FixedList(_, _), _) => false,
            (CLType::Mapping { .. }, _) => false,
            _ => self.tag() == other.tag(),
        }
    }

    /// A copy of this type.
    pub fn duplicate(&self) -> (r: CLType)
        ensures
            r == *self,
        decreases *self,
    {
        match self {
            CLType::Option(a) => CLType::Option(Box::new(a.duplicate())),
            CLType::List(a) => CLType::List(Box::new(a.duplicate())),
            CLType::FixedList(a, n) => CLType::FixedList(Box::new(a.duplicate()), *n),
            CLType::Mapping { key, value } => CLType::Mapping {
                key: Box::new(key.duplicate()),
                value: Box::new(value.duplicate()),
            },
            CLType::Bool => CLType::Bool,
            CLType::I32 => CLType::I32,
            CLType::I64 => CLType::I64,
            CLType::U8 => CLType::U8,
            CLType::U32 => CLType::U32,
            CLType::U64 => CLType::U64,
            CLType::U128 => CLType::U128,
            CLType::U256 => CLType::U256,
            CLType::U512 => CLType::U512,
            CLType::Unit => CLType::Unit,
            CLType::String => CLType::String,
            CLType::Key => CLType::Key,
            CLType::URef => CLType::URef,
            CLType::Any => CLType::Any,
        }
    }

    /// Appends the encoding of this type to `out`.
    pub fn write(&self, out: &mut Vec<u8>)
        ensures
            final(out)@ == old(out)@ + type_wire(*self),
        decreases *self,
    {
        out.push(self.tag());
        match self {
            CLType::Option(a) => {
                a.write(out);
            },
            CLType::List(a) => {
                a.write(out);
            },
            CLType::FixedList(a, n) => {
                a.write(out);
                write_le(out, *n as u64, 4);
            },
            CLType::Mapping { key, value } => {
                key.write(out);
                value.write(out);
            },
            _ => {},
        }
        proof {
            assert(out@ =~= old(out)@ + type_wire(*self));
        }
    }

    /// Reads one type from the front of `bytes` and hands back what follows it.
    pub fn read(bytes: &[u8]) -> (r: Result<(CLType, &[u8]), Error>)
        ensures
            match parse_type(bytes@) {
                Ok((t, n)) => r matches Ok((x, rest)) && x == t && 0 <= n <= bytes@.len()
                    && rest@ == bytes@.skip(n),
                Err(e) => r matches Err(f) && f == e,
            },
        decreases bytes@.len(),
    {
        if bytes.len() < 1 {
            return Err(Error::EarlyEndOfStream);
        }
        let tag: u8 = bytes[0];
        let body = slice_subrange(bytes, 1, bytes.len());
        proof {
            assert(body@ =~= bytes@.skip(1));
        }
        match CLType::from_simple_tag(tag) {
            Some(t) => {
                return Ok((t, body));
            },
            None => {},
        }
        if tag == OPTION_TAG {
            match CLType::read(body) {
                Ok((inner, rest)) => {
                    proof {
                        let n = parse_type(body@)->Ok_0.1;
                        assert(rest@ =~= bytes@.skip(1 + n));
                    }
                    Ok((CLType::Option(Box::new(inner)), rest))
                },
                Err(e) => Err(e),
            }
        } else if tag == LIST_TAG {
            match CLType::read(body) {
                Ok((inner, rest)) => {
                    proof {
                        let n = parse_type(body@)->Ok_0.1;
                        assert(rest@ =~= bytes@.skip(1 + n));
                    }
                    Ok((CLType::List(Box::new(inner)), rest))
                },
                Err(e) => Err(e),
            }
        } else if tag == FIXED_LIST_TAG {
            match CLType::read(body) {
                Ok((inner, after)) => {
                    if after.len() < 4 {
                        return Err(Error::EarlyEndOfStream);
                    }
                    let n = read_le(after, 4);
                    let rest = slice_subrange(after, 4, after.len());
                    proof {
                        let k = parse_type(body@)->Ok_0.1;
                        assert(after@.take(4) =~= bytes@.subrange(1 + k, 5 + k));
                        assert(rest@ =~= bytes@.skip(5 + k));
                        reveal_with_fuel(pow256, 5);
                        crate::bytesrepr::lemma_le_value_bound(after@.take(4));
                    }
                    Ok((CLType::FixedList(Box::new(inner), n as u32), rest))
                },
                Err(e) => Err(e),
            }
        } else if tag == MAP_TAG {
            match CLType::read(body) {
                Ok((key, after)) => {
                    proof {
                        let n = parse_type(body@)->Ok_0.1;
                        assert(after@ =~= bytes@.skip(1 + n));
                    }
                    match CLType::read(after) {
                        Ok((value, rest)) => {
                            proof {
                                let n = parse_type(body@)->Ok_0.1;
                                let m = parse_type(after@)->Ok_0.1;
                                assert(rest@ =~= bytes@.skip(1 + n + m));
                            }
                            let found = CLType::Mapping {
                                key: Box::new(key),
                                value: Box::new(value),
                            };
                            Ok((found, rest))
                        },
                        Err(e) => Err(e),
                    }
                },
                Err(e) => Err(e),
            }
        } else {
            Err(Error::FormattingError)
        }
    }
}

impl DeepView for CLType {
    type V = CLType;

    open spec fn deep_view(&self) -> CLType {
        *self
    }
}

impl ToBytes for CLType {
    open spec fn wire(v: CLType) -> Seq<u8> {
        type_wire(v)
    }

    open spec fn fits(v: CLType) -> bool {
        true
    }

    fn write_bytes(&self, out: &mut Vec<u8>) -> (ok: bool) {
        self.write(out);
        true
    }
}

impl FromBytes for CLType {
    open spec fn parse(bytes: Seq<u8>) -> Result<(CLType, int), Error> {
        parse_type(bytes)
    }

    fn from_bytes(bytes: &[u8]) -> (r: Result<(CLType, &[u8]), Error>) {
        CLType::read(bytes)
    }

    proof fn lemma_parse_wire(x: CLType, rest: Seq<u8>) {
        lemma_parse_type_wire(x, rest);
    }
}

/// A type of values that has a descriptor.
pub trait CLTyped {
    /// The descriptor of the type.
    spec fn spec_cl_type() -> CLType;

    /// The descriptor of the type.
    fn cl_type() -> (t: CLType)
        ensures
            t == Self::spec_cl_type(),
    ;
}

impl CLTyped for bool {
    open spec fn spec_cl_type() -> CLType {
        CLType::Bool
    }

    fn cl_type() -> (t: CLType) {
        CLType::Bool
    }
}

impl CLTyped for u8 {
    open spec fn spec_cl_type() -> CLType {
        CLType::U8
    }

    fn cl_type() -> (t: CLType) {
        CLType::U8
    }
}

impl CLTyped for u32 {
    open spec fn spec_cl_type() -> CLType {
        CLType::U32
    }

    fn cl_type() -> (t: CLType) {
        CLType::U32
    }
}

impl CLTyped for u64 {
    open spec fn spec_cl_type() -> CLType {
        CLType::U64
    }

    fn cl_type() -> (t: CLType) {
        CLType::U64
    }
}

impl CLTyped for () {
    open spec fn spec_cl_type() -> CLType {
        CLType::Unit
    }

    fn cl_type() -> (t: CLType) {
        CLType::Unit
    }
}

impl CLTyped for String {
    open spec fn spec_cl_type() -> CLType {
        CLType::String
    }

    fn cl_type() -> (t: CLType) {
        CLType::String
    }
}

impl CLTyped for Key {
    open spec fn spec_cl_type() -> CLType {
        CLType::Key
    }

    fn cl_type() -> (t: CLType) {
        CLType::Key
    }
}

impl CLTyped for URef {
    open spec fn spec_cl_type() -> CLType {
        CLType::URef
    }

    fn cl_type() -> (t: CLType) {
        CLType::URef
    }
}

impl<T: CLTyped> CLTyped for Vec<T> {
    open spec fn spec_cl_type() -> CLType {
        CLType::List(Box::new(T::spec_cl_type()))
    }

    fn cl_type() -> (t: CLType) {
        CLType::List(Box::new(T::cl_type()))
    }
}

impl<T: CLTyped> CLTyped for Option<T> {
    open spec fn spec_cl_type() -> CLType {
        CLType::Option(Box::new(T::spec_cl_type()))
    }

    fn cl_type() -> (t: CLType) {
        CLType::Option(Box::new(T::cl_type()))
    }
}

} // verus!
