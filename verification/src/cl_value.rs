//! The typed value envelope: encoded bytes together with the descriptor of their type.

use vstd::prelude::*;
use vstd::slice::slice_subrange;

use crate::bytesrepr::{
    append_bytes, decoding, deserialize, le_bytes, le_value, lemma_decoding_encoding,
    lemma_le_value_bound, lemma_le_value_bytes, pow256, read_le, write_le, Error, FromBytes,
    ToBytes, MAX_SERIALIZED_LENGTH,
};
use crate::cl_type::{lemma_parse_type_wire, parse_type, type_wire, CLType, CLTyped};

verus! {

/// A value was asked for as one type and is of another.
#[derive(Debug, PartialEq, Eq)]
pub struct CLTypeMismatch {
    /// The type that was asked for.
    pub expected: CLType,
    /// The type that the envelope declares.
    pub found: CLType,
}

/// Why an envelope could not be made or opened.
#[derive(Debug, PartialEq, Eq)]
pub enum CLValueError {
    /// The bytes could not be produced or read.
    Serialization(Error),
    /// The envelope holds a value of another type.
    Type(CLTypeMismatch),
}

/// An encoded value and the descriptor of its type.
#[derive(Debug, PartialEq, Eq)]
pub struct CLValue {
    cl_type: CLType,
    bytes: Vec<u8>,
}

/// The model of an envelope.
pub struct CLValueView {
    /// The declared type.
    pub cl_type: CLType,
    /// The encoded value.
    pub bytes: Seq<u8>,
}

impl View for CLValue {
    type V = CLValueView;

    closed spec fn view(&self) -> CLValueView {
        CLValueView { cl_type: self.cl_type, bytes: self.bytes@ }
    }
}

impl DeepView for CLValue {
    type V = CLValueView;

    open spec fn deep_view(&self) -> CLValueView {
        self@
    }
}

/// The envelope that holds a value of type `T`, or the reason why there is none.
pub open spec fn spec_from_t<T: CLTyped + ToBytes>(v: T::V) -> Result<CLValueView, CLValueError> {
    if T::fits(v) && T::wire(v).len() <= MAX_SERIALIZED_LENGTH {
        Ok(CLValueView { cl_type: T::spec_cl_type(), bytes: T::wire(v) })
    } else {
        Err(CLValueError::Serialization(Error::OutOfMemoryError))
    }
}

/// The value of type `T` that an envelope holds, or the reason why there is none.
pub open spec fn spec_to_t<T: CLTyped + FromBytes>(v: CLValueView) -> Result<T::V, CLValueError> {
    if v.cl_type != T::spec_cl_type() {
        Err(CLValueError::Type(CLTypeMismatch { expected: T::spec_cl_type(), found: v.cl_type }))
    } else {
        match decoding::<T>(v.bytes) {
            Ok(x) => Ok(x),
            Err(e) => Err(CLValueError::Serialization(e)),
        }
    }
}

/// A value put into an envelope comes out of it unchanged.
pub proof fn lemma_envelope_round_trip<T: CLTyped + FromBytes>(x: T)
    requires
        T::fits(x.deep_view()),
        T::wire(x.deep_view()).len() <= MAX_SERIALIZED_LENGTH,
    ensures
        spec_from_t::<T>(x.deep_view()) is Ok,
        spec_to_t::<T>(spec_from_t::<T>(x.deep_view())->Ok_0) == Ok::<T::V, CLValueError>(
            x.deep_view(),
        ),
{
    lemma_decoding_encoding::<T>(x);
}

/// An envelope asked for a value of another type than it declares gives
/// the mismatch, whatever its bytes are.
pub proof fn lemma_envelope_type_mismatch<T: CLTyped + FromBytes>(v: CLValueView)
    requires
        v.cl_type != T::spec_cl_type(),
    ensures
        spec_to_t::<T>(v) == Err::<T::V, CLValueError>(
            CLValueError::Type(
                CLTypeMismatch { expected: T::spec_cl_type(), found: v.cl_type },
            ),
        ),
{
}

impl CLValue {
    /// The envelope with the given type and bytes.
    pub fn from_components(cl_type: CLType, bytes: Vec<u8>) -> (r: CLValue)
        ensures
            r@ == (CLValueView { cl_type, bytes: bytes@ }),
    {
        CLValue { cl_type, bytes }
    }

    /// Puts a value into an envelope.
    pub fn from_t<T: CLTyped + ToBytes>(t: T) -> (r: Result<CLValue, CLValueError>)
        ensures
            match spec_from_t::<T>(t.deep_view()) {
                Ok(v) => r matches Ok(x) && x@ == v,
                Err(e) => r matches Err(f) && f == e,
            },
    {
        match t.to_bytes() {
            Ok(bytes) => Ok(CLValue { cl_type: T::cl_type(), bytes }),
            Err(e) => Err(CLValueError::Serialization(e)),
        }
    }

    /// Takes the value out of an envelope, as the type `T`.
    pub fn to_t<T: CLTyped + FromBytes>(&self) -> (r: Result<T, CLValueError>)
        ensures
            match spec_to_t::<T>(self@) {
                Ok(v) => r matches Ok(x) && x.deep_view() == v,
                Err(e) => r matches Err(f) && f == e,
            },
    {
        let expected = T::cl_type();
        if !expected.same(&self.cl_type) {
            return Err(
                CLValueError::Type(CLTypeMismatch { expected, found: self.cl_type.duplicate() }),
            );
        }
        match deserialize::<T>(self.bytes.as_slice()) {
            Ok(x) => Ok(x),
            Err(e) => Err(CLValueError::Serialization(e)),
        }
    }

    /// The declared type.
    pub fn cl_type(&self) -> (r: &CLType)
        ensures
            *r == self@.cl_type,
    {
        &self.cl_type
    }

    /// The encoded value.
    pub fn inner_bytes(&self) -> (r: &Vec<u8>)
        ensures
            r@ == self@.bytes,
    {
        &self.bytes
    }

    /// A copy of this envelope.
    pub fn duplicate(&self) -> (r: CLValue)
        ensures
            r@ == self@,
    {
        let mut bytes: Vec<u8> = Vec::new();
        append_bytes(&mut bytes, self.bytes.as_slice());
        proof {
            assert(bytes@ =~= self.bytes@);
        }
        CLValue { cl_type: self.cl_type.duplicate(), bytes }
    }
}

impl ToBytes for CLValue {
    open spec fn wire(v: CLValueView) -> Seq<u8> {
        le_bytes(v.bytes.len(), 4) + v.bytes + type_wire(v.cl_type)
    }

    open spec fn fits(v: CLValueView) -> bool {
        v.bytes.len() <= MAX_SERIALIZED_LENGTH
    }

    fn write_bytes(&self, out: &mut Vec<u8>) -> (ok: bool) {
        if self.bytes.len() > MAX_SERIALIZED_LENGTH {
            return false;
        }
        write_le(out, self.bytes.len() as u64, 4);
        append_bytes(out, self.bytes.as_slice());
        self.cl_type.write(out);
        true
    }
}

impl FromBytes for CLValue {
    open spec fn parse(bytes: Seq<u8>) -> Result<(CLValueView, int), Error> {
        if bytes.len() < 4 {
            Err(Error::EarlyEndOfStream)
        } else {
            let n = le_value(bytes.take(4)) as int;
            if bytes.len() - 4 < n {
                Err(Error::EarlyEndOfStream)
            } else {
                match parse_type(bytes.skip(4 + n)) {
                    Ok((cl_type, m)) => Ok(
                        (CLValueView { cl_type, bytes: bytes.subrange(4, 4 + n) }, 4 + n + m),
                    ),
                    Err(e) => Err(e),
                }
            }
        }
    }

    fn from_bytes(bytes: &[u8]) -> (r: Result<(CLValue, &[u8]), Error>) {
        if bytes.len() < 4 {
            return Err(Error::EarlyEndOfStream);
        }
        let n = read_le(bytes, 4);
        proof {
            reveal_with_fuel(pow256, 5);
            lemma_le_value_bound(bytes@.take(4));
        }
        if ((bytes.len() - 4) as u64) < n {
            return Err(Error::EarlyEndOfStream);
        }
        let stop: usize = 4 + n as usize;
        let body = slice_subrange(bytes, 4, stop);
        let after = slice_subrange(bytes, stop, bytes.len());
        proof {
            assert(after@ =~= bytes@.skip(4 + n as int));
        }
        match CLType::read(after) {
            Ok((cl_type, rest)) => {
                let mut inner: Vec<u8> = Vec::new();
                append_bytes(&mut inner, body);
                proof {
                    let m = parse_type(after@)->Ok_0.1;
                    assert(inner@ =~= bytes@.subrange(4, 4 + n as int));
                    assert(rest@ =~= bytes@.skip(4 + n as int + m));
                }
                Ok((CLValue { cl_type, bytes: inner }, rest))
            },
            Err(e) => Err(e),
        }
    }

    proof fn lemma_parse_wire(x: CLValue, rest: Seq<u8>) {
        let v = x@;
        let all = Self::wire(v) + rest;
        let n = v.bytes.len() as int;
        reveal_with_fuel(pow256, 5);
        lemma_le_value_bytes(v.bytes.len(), 4, v.bytes + type_wire(v.cl_type) + rest);
        assert(all =~= le_bytes(v.bytes.len(), 4) + (v.bytes + type_wire(v.cl_type) + rest));
        assert(all.subrange(4, 4 + n) =~= v.bytes);
        assert(all.skip(4 + n) =~= type_wire(v.cl_type) + rest);
        lemma_parse_type_wire(v.cl_type, rest);
    }
}

/// The value of type `T` that an encoded envelope holds, or the reason
/// why there is none: the bytes are no envelope, the envelope holds a value
/// of another type, or its bytes are not those of a `T`.
pub open spec fn spec_open_envelope<T: CLTyped + FromBytes>(bytes: Seq<u8>) -> Result<
    T::V,
    CLValueError,
> {
    match decoding::<CLValue>(bytes) {
        Ok(v) => spec_to_t::<T>(v),
        Err(e) => Err(CLValueError::Serialization(e)),
    }
}

/// Decodes an envelope and takes the value out of it, as the type `T`. A
/// failure is handed back as a value; nothing is aborted.
pub fn open_envelope<T: CLTyped + FromBytes>(bytes: &[u8]) -> (r: Result<T, CLValueError>)
    ensures
        match spec_open_envelope::<T>(bytes@) {
            Ok(v) => r matches Ok(x) && x.deep_view() == v,
            Err(e) => r matches Err(f) && f == e,
        },
{
    match deserialize::<CLValue>(bytes) {
        Ok(cl_value) => cl_value.to_t::<T>(),
        Err(e) => Err(CLValueError::Serialization(e)),
    }
}

} // verus!
