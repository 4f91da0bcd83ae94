//! Flat byte encoding of the values that cross the guest/host boundary.
//!
//! Every encodable type states its encoding as a spec function over the
//! type's model ([`ToBytes::wire`]) and its decoding as another
//! ([`FromBytes::parse`]); the executable functions are proved against them,
//! and each type proves that decoding inverts encoding.

use vstd::prelude::*;
use vstd::slice::slice_subrange;
use vstd::string::StringExecFns;
use vstd::string::StringSliceAdditionalSpecFns;
use vstd::utf8::{decode_utf8, encode_utf8, valid_utf8};

verus! {

/// Why a byte string could not be produced or read back.
#[derive(Clone, Copy, Debug, PartialEq, Eq, Structural)]
pub enum Error {
    /// The input ended before the value was complete.
    EarlyEndOfStream,
    /// The bytes do not denote a value of the requested type.
    FormattingError,
    /// Bytes were left over after a complete value.
    LeftOverBytes,
    /// The encoding would be longer than a length prefix can express.
    OutOfMemoryError,
}

/// Largest number of bytes one encoded value may occupy.
pub const MAX_SERIALIZED_LENGTH: usize = 0xffff_ffff;

/// 256 to the power `n`.
pub open spec fn pow256(n: nat) -> nat
    decreases n,
{
    if n == 0 {
        1
    } else {
        256 * pow256((n - 1) as nat)
    }
}

/// The `n` low-order base-256 digits of `x`, least significant first.
pub open spec fn le_bytes(x: nat, n: nat) -> Seq<u8>
    decreases n,
{
    if n == 0 {
        Seq::empty()
    } else {
        seq![(x % 256) as u8] + le_bytes(x / 256, (n - 1) as nat)
    }
}

/// The number whose base-256 digits, least significant first, are `s`.
pub open spec fn le_value(s: Seq<u8>) -> nat
    decreases s.len(),
{
    if s.len() == 0 {
        0
    } else {
        s[0] as nat + 256 * le_value(s.skip(1))
    }
}

/// `le_bytes(x, n)` has `n` digits.
pub proof fn lemma_le_bytes_len(x: nat, n: nat)
    ensures
        le_bytes(x, n).len() == n,
    decreases n,
{
    if n > 0 {
        lemma_le_bytes_len(x / 256, (n - 1) as nat);
    }
}

/// A number below `256^n` is recovered from its `n` digits, whatever follows them.
pub proof fn lemma_le_value_bytes(x: nat, n: nat, rest: Seq<u8>)
    requires
        x < pow256(n),
    ensures
        le_bytes(x, n).len() == n,
        (le_bytes(x, n) + rest).take(n as int) == le_bytes(x, n),
        le_value(le_bytes(x, n)) == x,
    decreases n,
{
    lemma_le_bytes_len(x, n);
    assert((le_bytes(x, n) + rest).take(n as int) =~= le_bytes(x, n));
    if n > 0 {
        let tail = le_bytes(x / 256, (n - 1) as nat);
        lemma_le_value_bytes(x / 256, (n - 1) as nat, rest);
        assert(le_bytes(x, n).skip(1) =~= tail);
    }
}

/// The value of `n` digits is below `256^n`.
pub proof fn lemma_le_value_bound(s: Seq<u8>)
    ensures
        le_value(s) < pow256(s.len()),
    decreases s.len(),
{
    if s.len() > 0 {
        lemma_le_value_bound(s.skip(1));
    }
}

/// Appends the `n` low-order digits of `x` to `out`.
pub fn write_le(out: &mut Vec<u8>, x: u64, n: usize)
    ensures
        final(out)@ == old(out)@ + le_bytes(x as nat, n as nat),
{
    let mut rem: u64 = x;
    let mut i: usize = 0;
    while i < n
        invariant
            i <= n,
            out@ + le_bytes(rem as nat, (n - i) as nat) == old(out)@ + le_bytes(x as nat, n as nat),
        decreases n - i,
    {
        out.push((rem % 256) as u8);
        rem = rem / 256;
        i = i + 1;
    }
}

/// Reads the number that the first `n` bytes of `bytes` spell.
pub fn read_le(bytes: &[u8], n: usize) -> (r: u64)
    requires
        n <= 8,
        n <= bytes@.len(),
    ensures
        r == le_value(bytes@.take(n as int)),
{
    let mut acc: u64 = 0;
    let mut i: usize = n;
    proof {
        reveal_with_fuel(pow256, 9);
        assert(bytes@.subrange(n as int, n as int) =~= Seq::<u8>::empty());
    }
    while i > 0
        invariant
            i <= n <= 8,
            n <= bytes@.len(),
            acc == le_value(bytes@.subrange(i as int, n as int)),
        decreases i,
    {
        proof {
            reveal_with_fuel(pow256, 9);
            lemma_le_value_bound(bytes@.subrange(i as int, n as int));
            assert(bytes@.subrange(i - 1, n as int).skip(1) =~= bytes@.subrange(
                i as int,
                n as int,
            ));
        }
        i = i - 1;
        acc = acc * 256 + bytes[i] as u64;
    }
    proof {
        assert(bytes@.subrange(0, n as int) =~= bytes@.take(n as int));
    }
    acc
}

/// Appends a copy of `bytes` to `out`.
pub fn append_bytes(out: &mut Vec<u8>, bytes: &[u8])
    ensures
        final(out)@ == old(out)@ + bytes@,
{
    let mut i: usize = 0;
    while i < bytes.len()
        invariant
            i <= bytes@.len(),
            out@ == old(out)@ + bytes@.take(i as int),
        decreases bytes@.len() - i,
    {
        out.push(bytes[i]);
        i = i + 1;
        proof {
            assert(bytes@.take(i as int) =~= bytes@.take(i - 1).push(bytes@[i - 1]));
        }
    }
    proof {
        assert(bytes@.take(bytes@.len() as int) =~= bytes@);
    }
}

/// A type with a byte encoding.
pub trait ToBytes: DeepView + Sized {
    /// The encoding of a value, given by its model.
    spec fn wire(v: Self::V) -> Seq<u8>;

    /// Whether every length inside the value can be written in its
    /// four-byte prefix.
    spec fn fits(v: Self::V) -> bool;

    /// Appends the encoding of `self` to `out` and says whether the value
    /// fits. Where it does not, what was appended is of no use.
    fn write_bytes(&self, out: &mut Vec<u8>) -> (ok: bool)
        ensures
            ok == Self::fits(self.deep_view()),
            ok ==> final(out)@ == old(out)@ + Self::wire(self.deep_view()),
    ;

    /// Encodes `self`. Fails with `OutOfMemoryError` where the value does
    /// not fit or its encoding exceeds [`MAX_SERIALIZED_LENGTH`].
    fn to_bytes(&self) -> (r: Result<Vec<u8>, Error>)
        ensures
            (Self::fits(self.deep_view()) && Self::wire(self.deep_view()).len()
                <= MAX_SERIALIZED_LENGTH) ==> (r matches Ok(out) && out@ == Self::wire(
                self.deep_view(),
            )),
            !(Self::fits(self.deep_view()) && Self::wire(self.deep_view()).len()
                <= MAX_SERIALIZED_LENGTH) ==> (r matches Err(e) && e == Error::OutOfMemoryError),
    {
        let mut out: Vec<u8> = Vec::new();
        let ok = self.write_bytes(&mut out);
        if ok && out.len() <= MAX_SERIALIZED_LENGTH {
            Ok(out)
        } else {
            Err(Error::OutOfMemoryError)
        }
    }
}

/// A type whose values can be read back from their encoding.
pub trait FromBytes: ToBytes {
    /// What a byte string starts with: a value and the number of bytes it
    /// occupies, or the reason why there is none.
    spec fn parse(bytes: Seq<u8>) -> Result<(Self::V, int), Error>;

    /// Reads one value from the front of `bytes` and hands back what follows it.
    fn from_bytes(bytes: &[u8]) -> (r: Result<(Self, &[u8]), Error>)
        ensures
            match Self::parse(bytes@) {
                Ok((v, n)) => r matches Ok((x, rest)) && x.deep_view() == v && 0 <= n
                    <= bytes@.len() && rest@ == bytes@.skip(n),
                Err(e) => r matches Err(f) && f == e,
            },
    ;

    /// Decoding inverts encoding: the encoding of a value that fits,
    /// followed by anything, reads back as the value and ends where the
    /// encoding ends.
    proof fn lemma_parse_wire(x: Self, rest: Seq<u8>)
        requires
            Self::fits(x.deep_view()),
        ensures
            Self::parse(Self::wire(x.deep_view()) + rest) == Ok::<(Self::V, int), Error>(
                (x.deep_view(), Self::wire(x.deep_view()).len() as int),
            ),
    ;
}

/// The result of encoding a value on its own: its bytes, or
/// `OutOfMemoryError` where they are too many.
pub open spec fn encoding<T: ToBytes>(v: T::V) -> Result<Seq<u8>, Error> {
    if T::fits(v) && T::wire(v).len() <= MAX_SERIALIZED_LENGTH {
        Ok(T::wire(v))
    } else {
        Err(Error::OutOfMemoryError)
    }
}

/// The result of decoding a byte string that must hold exactly one value.
pub open spec fn decoding<T: FromBytes>(bytes: Seq<u8>) -> Result<T::V, Error> {
    match T::parse(bytes) {
        Ok((v, n)) => if n == bytes.len() {
            Ok(v)
        } else {
            Err(Error::LeftOverBytes)
        },
        Err(e) => Err(e),
    }
}

/// Decodes a value that must occupy all of `bytes`.
pub fn deserialize<T: FromBytes>(bytes: &[u8]) -> (r: Result<T, Error>)
    ensures
        match decoding::<T>(bytes@) {
            Ok(v) => r matches Ok(x) && x.deep_view() == v,
            Err(e) => r matches Err(f) && f == e,
        },
{
    match T::from_bytes(bytes) {
        Ok((x, rest)) => {
            if rest.len() == 0 {
                Ok(x)
            } else {
                Err(Error::LeftOverBytes)
            }
        },
        Err(e) => Err(e),
    }
}


/// A value that passed through its encoding comes back unchanged.
pub proof fn lemma_decoding_encoding<T: FromBytes>(x: T)
    requires
        T::fits(x.deep_view()),
    ensures
        decoding::<T>(T::wire(x.deep_view())) == Ok::<T::V, Error>(x.deep_view()),
{
    T::lemma_parse_wire(x, Seq::empty());
    assert(T::wire(x.deep_view()) + Seq::<u8>::empty() =~= T::wire(x.deep_view()));
}

impl ToBytes for u8 {
    open spec fn wire(v: u8) -> Seq<u8> {
        seq![v]
    }

    open spec fn fits(v: u8) -> bool {
        true
    }

    fn write_bytes(&self, out: &mut Vec<u8>) -> (ok: bool) {
        out.push(*self);
        true
    }
}

impl FromBytes for u8 {
    open spec fn parse(bytes: Seq<u8>) -> Result<(u8, int), Error> {
        if bytes.len() < 1 {
            Err(Error::EarlyEndOfStream)
        } else {
            Ok((bytes[0], 1))
        }
    }

    fn from_bytes(bytes: &[u8]) -> (r: Result<(u8, &[u8]), Error>) {
        if bytes.len() < 1 {
            return Err(Error::EarlyEndOfStream);
        }
        let rest = slice_subrange(bytes, 1, bytes.len());
        Ok((bytes[0], rest))
    }

    proof fn lemma_parse_wire(x: u8, rest: Seq<u8>) {
    }
}

impl ToBytes for bool {
    open spec fn wire(v: bool) -> Seq<u8> {
        if v {
            seq![1u8]
        } else {
            seq![0u8]
        }
    }

    open spec fn fits(v: bool) -> bool {
        true
    }

    fn write_bytes(&self, out: &mut Vec<u8>) -> (ok: bool) {
        if *self {
            out.push(1u8);
        } else {
            out.push(0u8);
        }
        true
    }
}

impl FromBytes for bool {
    open spec fn parse(bytes: Seq<u8>) -> Result<(bool, int), Error> {
        if bytes.len() < 1 {
            Err(Error::EarlyEndOfStream)
        } else if bytes[0] == 0 {
            Ok((false, 1))
        } else if bytes[0] == 1 {
            Ok((true, 1))
        } else {
            Err(Error::FormattingError)
        }
    }

    fn from_bytes(bytes: &[u8]) -> (r: Result<(bool, &[u8]), Error>) {
        if bytes.len() < 1 {
            return Err(Error::EarlyEndOfStream);
        }
        let rest = slice_subrange(bytes, 1, bytes.len());
        let tag: u8 = bytes[0];
        if tag == 0 {
            Ok((false, rest))
        } else if tag == 1 {
            Ok((true, rest))
        } else {
            Err(Error::FormattingError)
        }
    }

    proof fn lemma_parse_wire(x: bool, rest: Seq<u8>) {
    }
}

impl ToBytes for () {
    open spec fn wire(v: ()) -> Seq<u8> {
        Seq::empty()
    }

    open spec fn fits(v: ()) -> bool {
        true
    }

    fn write_bytes(&self, out: &mut Vec<u8>) -> (ok: bool) {
        true
    }
}

impl FromBytes for () {
    open spec fn parse(bytes: Seq<u8>) -> Result<((), int), Error> {
        Ok(((), 0))
    }

    fn from_bytes(bytes: &[u8]) -> (r: Result<((), &[u8]), Error>) {
        Ok(((), bytes))
    }

    proof fn lemma_parse_wire(x: (), rest: Seq<u8>) {
    }
}

impl ToBytes for u32 {
    open spec fn wire(v: u32) -> Seq<u8> {
        le_bytes(v as nat, 4)
    }

    open spec fn fits(v: u32) -> bool {
        true
    }

    fn write_bytes(&self, out: &mut Vec<u8>) -> (ok: bool) {
        write_le(out, *self as u64, 4);
        true
    }
}

impl FromBytes for u32 {
    open spec fn parse(bytes: Seq<u8>) -> Result<(u32, int), Error> {
        if bytes.len() < 4 {
            Err(Error::EarlyEndOfStream)
        } else {
            Ok((le_value(bytes.take(4)) as u32, 4))
        }
    }

    fn from_bytes(bytes: &[u8]) -> (r: Result<(u32, &[u8]), Error>) {
        if bytes.len() < 4 {
            return Err(Error::EarlyEndOfStream);
        }
        let x = read_le(bytes, 4);
        let rest = slice_subrange(bytes, 4, bytes.len());
        proof {
            reveal_with_fuel(pow256, 5);
            lemma_le_value_bound(bytes@.take(4));
        }
        Ok((x as u32, rest))
    }

    proof fn lemma_parse_wire(x: u32, rest: Seq<u8>) {
        reveal_with_fuel(pow256, 5);
        lemma_le_value_bytes(x as nat, 4, rest);
    }
}

impl ToBytes for u64 {
    open spec fn wire(v: u64) -> Seq<u8> {
        le_bytes(v as nat, 8)
    }

    open spec fn fits(v: u64) -> bool {
        true
    }

    fn write_bytes(&self, out: &mut Vec<u8>) -> (ok: bool) {
        write_le(out, *self, 8);
        true
    }
}

impl FromBytes for u64 {
    open spec fn parse(bytes: Seq<u8>) -> Result<(u64, int), Error> {
        if bytes.len() < 8 {
            Err(Error::EarlyEndOfStream)
        } else {
            Ok((le_value(bytes.take(8)) as u64, 8))
        }
    }

    fn from_bytes(bytes: &[u8]) -> (r: Result<(u64, &[u8]), Error>) {
        if bytes.len() < 8 {
            return Err(Error::EarlyEndOfStream);
        }
        let x = read_le(bytes, 8);
        let rest = slice_subrange(bytes, 8, bytes.len());
        Ok((x, rest))
    }

    proof fn lemma_parse_wire(x: u64, rest: Seq<u8>) {
        reveal_with_fuel(pow256, 9);
        lemma_le_value_bytes(x as nat, 8, rest);
    }
}


/// `core::str::from_utf8`: the bytes as a string slice where they are
/// well-formed UTF-8, and nothing where they are not. The slice it hands
/// back is the input itself, so its bytes are the input's.
#[verifier::external_body]
pub(crate) fn str_from_utf8(bytes: &[u8]) -> (r: Option<&str>)
    ensures
        r is Some <==> valid_utf8(bytes@),
        r matches Some(s) ==> s.spec_bytes() == bytes@,
{
    match core::str::from_utf8(bytes) {
        Ok(s) => Some(s),
        Err(_) => None,
    }
}

impl ToBytes for String {
    open spec fn wire(v: Seq<char>) -> Seq<u8> {
        le_bytes(encode_utf8(v).len(), 4) + encode_utf8(v)
    }

    open spec fn fits(v: Seq<char>) -> bool {
        encode_utf8(v).len() <= MAX_SERIALIZED_LENGTH
    }

    fn write_bytes(&self, out: &mut Vec<u8>) -> (ok: bool) {
        let bytes = self.as_str().as_bytes();
        if bytes.len() > MAX_SERIALIZED_LENGTH {
            return false;
        }
        write_le(out, bytes.len() as u64, 4);
        append_bytes(out, bytes);
        true
    }
}

impl FromBytes for String {
    open spec fn parse(bytes: Seq<u8>) -> Result<(Seq<char>, int), Error> {
        if bytes.len() < 4 {
            Err(Error::EarlyEndOfStream)
        } else {
            let n = le_value(bytes.take(4)) as int;
            if bytes.len() - 4 < n {
                Err(Error::EarlyEndOfStream)
            } else if !valid_utf8(bytes.subrange(4, 4 + n)) {
                Err(Error::FormattingError)
            } else {
                Ok((decode_utf8(bytes.subrange(4, 4 + n)), 4 + n))
            }
        }
    }

    fn from_bytes(bytes: &[u8]) -> (r: Result<(String, &[u8]), Error>) {
        if bytes.len() < 4 {
            return Err(Error::EarlyEndOfStream);
        }
        let n = read_le(bytes, 4);
        proof {
            reveal_with_fuel(pow256, 5);
            lemma_le_value_bound(bytes@.take(4));
        }
        if ((bytes.len() - 4) as u64) < n {
            return Err(Error::EarlyEndOfStream);
        }
        let stop: usize = 4 + n as usize;
        let body = slice_subrange(bytes, 4, stop);
        let rest = slice_subrange(bytes, stop, bytes.len());
        match str_from_utf8(body) {
            Some(s) => {
                proof {
                    vstd::utf8::encode_utf8_decode_utf8(s@);
                }
                Ok((String::from_str(s), rest))
            },
            None => Err(Error::FormattingError),
        }
    }

    proof fn lemma_parse_wire(x: String, rest: Seq<u8>) {
        let body = encode_utf8(x@);
        let all = Self::wire(x@) + rest;
        reveal_with_fuel(pow256, 5);
        lemma_le_value_bytes(body.len(), 4, body + rest);
        assert(all =~= le_bytes(body.len(), 4) + (body + rest));
        assert(all.subrange(4, 4 + body.len() as int) =~= body);
        vstd::utf8::encode_utf8_valid_utf8(x@);
        vstd::utf8::encode_utf8_decode_utf8(x@);
    }
}

/// The encodings of the items of a list, one after the other.
pub open spec fn wire_items<T: ToBytes>(vs: Seq<T::V>) -> Seq<u8>
    decreases vs.len(),
{
    if vs.len() == 0 {
        Seq::empty()
    } else {
        T::wire(vs[0]) + wire_items::<T>(vs.skip(1))
    }
}

/// What a byte string starts with when `count` items are read from it in
/// turn: the items and the number of bytes they occupy together.
pub open spec fn parse_items<T: FromBytes>(bytes: Seq<u8>, count: nat) -> Result<
    (Seq<T::V>, int),
    Error,
>
    decreases count,
{
    if count == 0 {
        Ok((Seq::empty(), 0))
    } else {
        match T::parse(bytes) {
            Err(e) => Err(e),
            Ok((v, n)) => if 0 <= n <= bytes.len() {
                match parse_items::<T>(bytes.skip(n), (count - 1) as nat) {
                    Err(e) => Err(e),
                    Ok((vs, m)) => Ok((seq![v] + vs, n + m)),
                }
            } else {
                Err(Error::FormattingError)
            },
        }
    }
}

/// Whether each item of a list fits.
pub open spec fn items_fit<T: ToBytes>(vs: Seq<T::V>) -> bool {
    forall|i: int| 0 <= i < vs.len() ==> T::fits(#[trigger] vs[i])
}

/// The items of a list are read back from their encodings, whatever follows them.
pub proof fn lemma_parse_items_wire<T: FromBytes>(xs: Seq<T>, rest: Seq<u8>)
    requires
        forall|i: int| 0 <= i < xs.len() ==> T::fits(#[trigger] xs[i].deep_view()),
    ensures
        parse_items::<T>(
            wire_items::<T>(Seq::new(xs.len(), |i: int| xs[i].deep_view())) + rest,
            xs.len(),
        ) == Ok::<(Seq<T::V>, int), Error>(
            (
                Seq::new(xs.len(), |i: int| xs[i].deep_view()),
                wire_items::<T>(Seq::new(xs.len(), |i: int| xs[i].deep_view())).len() as int,
            ),
        ),
    decreases xs.len(),
{
    let vs = Seq::new(xs.len(), |i: int| xs[i].deep_view());
    if xs.len() > 0 {
        let tail = xs.skip(1);
        let tvs = Seq::new(tail.len(), |i: int| tail[i].deep_view());
        assert(tvs =~= vs.skip(1));
        let head = T::wire(vs[0]);
        let all = wire_items::<T>(vs) + rest;
        assert(xs[0].deep_view() == vs[0]);
        T::lemma_parse_wire(xs[0], wire_items::<T>(tvs) + rest);
        assert(all =~= head + (wire_items::<T>(tvs) + rest));
        assert(all.skip(head.len() as int) =~= wire_items::<T>(tvs) + rest);
        assert forall|i: int| 0 <= i < tail.len() implies T::fits(
            #[trigger] tail[i].deep_view(),
        ) by {
            assert(tail[i] == xs[i + 1]);
        }
        lemma_parse_items_wire::<T>(tail, rest);
        assert(seq![vs[0]] + tvs =~= vs);
    } else {
        assert(vs =~= Seq::<T::V>::empty());
    }
}

impl<T: ToBytes> ToBytes for Vec<T> {
    open spec fn wire(v: Seq<T::V>) -> Seq<u8> {
        le_bytes(v.len(), 4) + wire_items::<T>(v)
    }

    open spec fn fits(v: Seq<T::V>) -> bool {
        v.len() <= MAX_SERIALIZED_LENGTH && items_fit::<T>(v)
    }

    fn write_bytes(&self, out: &mut Vec<u8>) -> (ok: bool) {
        let ghost vs = self.deep_view();
        if self.len() > MAX_SERIALIZED_LENGTH {
            return false;
        }
        write_le(out, self.len() as u64, 4);
        let mut i: usize = 0;
        proof {
            assert(vs.skip(0) =~= vs);
        }
        while i < self.len()
            invariant
                i <= self.len(),
                vs == self.deep_view(),
                vs.len() == self.len(),
                forall|j: int| 0 <= j < i ==> T::fits(#[trigger] vs[j]),
                out@ + wire_items::<T>(vs.skip(i as int)) == old(out)@ + le_bytes(vs.len(), 4)
                    + wire_items::<T>(vs),
            decreases self.len() - i,
        {
            proof {
                assert(vs.skip(i as int)[0] == self[i as int].deep_view());
                assert(vs.skip(i as int).skip(1) =~= vs.skip(i + 1));
            }
            let ghost before = out@;
            let ok = self[i].write_bytes(out);
            if !ok {
                proof {
                    assert(!T::fits(vs[i as int]));
                }
                return false;
            }
            proof {
                assert(out@ + wire_items::<T>(vs.skip(i + 1)) =~= before + wire_items::<T>(
                    vs.skip(i as int),
                ));
            }
            i = i + 1;
        }
        proof {
            assert(vs.skip(vs.len() as int) =~= Seq::<T::V>::empty());
            assert(out@ + Seq::<u8>::empty() =~= out@);
        }
        true
    }
}

impl<T: FromBytes> FromBytes for Vec<T> {
    open spec fn parse(bytes: Seq<u8>) -> Result<(Seq<T::V>, int), Error> {
        if bytes.len() < 4 {
            Err(Error::EarlyEndOfStream)
        } else {
            match parse_items::<T>(bytes.skip(4), le_value(bytes.take(4))) {
                Ok((vs, n)) => Ok((vs, 4 + n)),
                Err(e) => Err(e),
            }
        }
    }

    fn from_bytes(bytes: &[u8]) -> (r: Result<(Vec<T>, &[u8]), Error>) {
        if bytes.len() < 4 {
            return Err(Error::EarlyEndOfStream);
        }
        let count = read_le(bytes, 4);
        let mut rest = slice_subrange(bytes, 4, bytes.len());
        let mut items: Vec<T> = Vec::new();
        let mut i: u64 = 0;
        let ghost mut used: int = 0;
        let ghost body = bytes@.skip(4);
        proof {
            assert(rest@ =~= body.skip(0));
            assert(items.deep_view() =~= Seq::<T::V>::empty());
            lemma_parse_items_join::<T>(body, count as nat, Seq::empty(), 0, 0);
        }
        while i < count
            invariant
                i <= count,
                count == le_value(bytes@.take(4)),
                body == bytes@.skip(4),
                bytes@.len() >= 4,
                0 <= used <= body.len(),
                rest@ == body.skip(used),
                parse_items::<T>(body, count as nat) == join_items::<T>(
                    items.deep_view(),
                    used,
                    parse_items::<T>(rest@, (count - i) as nat),
                ),
            decreases count - i,
        {
            let ghost before = items.deep_view();
            match T::from_bytes(rest) {
                Ok((x, tail)) => {
                    proof {
                        let n = T::parse(rest@)->Ok_0.1;
                        lemma_parse_items_join::<T>(
                            rest@,
                            (count - i) as nat,
                            before,
                            used,
                            n,
                        );
                        assert(rest@.skip(n) =~= body.skip(used + n));
                        used = used + n;
                    }
                    items.push(x);
                    rest = tail;
                    proof {
                        assert(items.deep_view() =~= before.push(x.deep_view()));
                    }
                },
                Err(e) => {
                    proof {
                        lemma_parse_items_join::<T>(rest@, (count - i) as nat, before, used, 0);
                    }
                    return Err(e);
                },
            }
            i = i + 1;
        }
        proof {
            assert(items.deep_view() + Seq::<T::V>::empty() =~= items.deep_view());
            assert(body.skip(used) =~= bytes@.skip(4 + used));
        }
        Ok((items, rest))
    }

    proof fn lemma_parse_wire(x: Vec<T>, rest: Seq<u8>) {
        let vs = x.deep_view();
        let all = Self::wire(vs) + rest;
        reveal_with_fuel(pow256, 5);
        lemma_le_value_bytes(vs.len(), 4, wire_items::<T>(vs) + rest);
        assert(all =~= le_bytes(vs.len(), 4) + (wire_items::<T>(vs) + rest));
        assert(all.skip(4) =~= wire_items::<T>(vs) + rest);
        assert forall|i: int| 0 <= i < x@.len() implies T::fits(#[trigger] x@[i].deep_view()) by {
            assert(vs[i] == x@[i].deep_view());
        }
        lemma_parse_items_wire::<T>(x@, rest);
        assert(Seq::new(x@.len(), |i: int| x@[i].deep_view()) =~= vs);
    }
}

/// What reading a list gives once `done` has been read over `used` bytes and
/// `next` is the outcome of reading the items that remain.
pub open spec fn join_items<T: FromBytes>(
    done: Seq<T::V>,
    used: int,
    next: Result<(Seq<T::V>, int), Error>,
) -> Result<(Seq<T::V>, int), Error> {
    match next {
        Ok((vs, m)) => Ok((done + vs, used + m)),
        Err(e) => Err(e),
    }
}

/// One step of reading a list: where the next item is read over `n` bytes,
/// joining before it or after it comes to the same.
pub proof fn lemma_parse_items_join<T: FromBytes>(
    bytes: Seq<u8>,
    count: nat,
    done: Seq<T::V>,
    used: int,
    n: int,
)
    ensures
        join_items::<T>(Seq::empty(), 0, parse_items::<T>(bytes, count)) == parse_items::<T>(
            bytes,
            count,
        ),
        (count > 0 && T::parse(bytes) is Ok && T::parse(bytes)->Ok_0.1 == n && 0 <= n
            <= bytes.len()) ==> join_items::<T>(done, used, parse_items::<T>(bytes, count))
            == join_items::<T>(
            done.push(T::parse(bytes)->Ok_0.0),
            used + n,
            parse_items::<T>(bytes.skip(n), (count - 1) as nat),
        ),
        (count > 0 && T::parse(bytes) is Err) ==> parse_items::<T>(bytes, count) == Err::<
            (Seq<T::V>, int),
            Error,
        >(T::parse(bytes)->Err_0),
{
    match parse_items::<T>(bytes, count) {
        Ok((vs, m)) => {
            assert(Seq::<T::V>::empty() + vs =~= vs);
        },
        Err(_) => {},
    }
    if count > 0 && T::parse(bytes) is Ok && T::parse(bytes)->Ok_0.1 == n && 0 <= n <= bytes.len() {
        let v = T::parse(bytes)->Ok_0.0;
        match parse_items::<T>(bytes.skip(n), (count - 1) as nat) {
            Ok((vs, m)) => {
                assert(done + (seq![v] + vs) =~= done.push(v) + vs);
            },
            Err(_) => {},
        }
    }
}

impl<A: ToBytes, B: ToBytes> ToBytes for (A, B) {
    open spec fn wire(v: (A::V, B::V)) -> Seq<u8> {
        A::wire(v.0) + B::wire(v.1)
    }

    open spec fn fits(v: (A::V, B::V)) -> bool {
        A::fits(v.0) && B::fits(v.1)
    }

    fn write_bytes(&self, out: &mut Vec<u8>) -> (ok: bool) {
        let first = self.0.write_bytes(out);
        if !first {
            return false;
        }
        let second = self.1.write_bytes(out);
        proof {
            assert(old(out)@ + A::wire(self.0.deep_view()) + B::wire(self.1.deep_view())
                =~= old(out)@ + (A::wire(self.0.deep_view()) + B::wire(self.1.deep_view())));
        }
        second
    }
}

impl<A: FromBytes, B: FromBytes> FromBytes for (A, B) {
    open spec fn parse(bytes: Seq<u8>) -> Result<((A::V, B::V), int), Error> {
        match A::parse(bytes) {
            Err(e) => Err(e),
            Ok((a, n)) => if 0 <= n <= bytes.len() {
                match B::parse(bytes.skip(n)) {
                    Err(e) => Err(e),
                    Ok((b, m)) => Ok(((a, b), n + m)),
                }
            } else {
                Err(Error::FormattingError)
            },
        }
    }

    fn from_bytes(bytes: &[u8]) -> (r: Result<((A, B), &[u8]), Error>) {
        match A::from_bytes(bytes) {
            Err(e) => Err(e),
            Ok((a, after)) => match B::from_bytes(after) {
                Err(e) => Err(e),
                Ok((b, rest)) => {
                    proof {
                        let n = A::parse(bytes@)->Ok_0.1;
                        let m = B::parse(after@)->Ok_0.1;
                        assert(bytes@.skip(n).skip(m) =~= bytes@.skip(n + m));
                    }
                    Ok(((a, b), rest))
                },
            },
        }
    }

    proof fn lemma_parse_wire(x: (A, B), rest: Seq<u8>) {
        let a = A::wire(x.0.deep_view());
        let b = B::wire(x.1.deep_view());
        A::lemma_parse_wire(x.0, b + rest);
        B::lemma_parse_wire(x.1, rest);
        assert((a + b) + rest =~= a + (b + rest));
        assert(((a + b) + rest).skip(a.len() as int) =~= b + rest);
    }
}


impl<T: ToBytes> ToBytes for Option<T> {
    open spec fn wire(v: Option<T::V>) -> Seq<u8> {
        match v {
            None => seq![0u8],
            Some(x) => seq![1u8] + T::wire(x),
        }
    }

    open spec fn fits(v: Option<T::V>) -> bool {
        match v {
            None => true,
            Some(x) => T::fits(x),
        }
    }

    fn write_bytes(&self, out: &mut Vec<u8>) -> (ok: bool) {
        match self {
            None => {
                out.push(0u8);
                true
            },
            Some(x) => {
                out.push(1u8);
                let ok = x.write_bytes(out);
                proof {
                    if ok {
                        assert(out@ =~= old(out)@ + (seq![1u8] + T::wire(x.deep_view())));
                    }
                }
                ok
            },
        }
    }
}

impl<T: FromBytes> FromBytes for Option<T> {
    open spec fn parse(bytes: Seq<u8>) -> Result<(Option<T::V>, int), Error> {
        if bytes.len() < 1 {
            Err(Error::EarlyEndOfStream)
        } else if bytes[0] == 0 {
            Ok((None, 1))
        } else if bytes[0] == 1 {
            match T::parse(bytes.skip(1)) {
                Ok((x, n)) => Ok((Some(x), 1 + n)),
                Err(e) => Err(e),
            }
        } else {
            Err(Error::FormattingError)
        }
    }

    fn from_bytes(bytes: &[u8]) -> (r: Result<(Option<T>, &[u8]), Error>) {
        if bytes.len() < 1 {
            return Err(Error::EarlyEndOfStream);
        }
        let tag: u8 = bytes[0];
        let body = slice_subrange(bytes, 1, bytes.len());
        proof {
            assert(body@ =~= bytes@.skip(1));
        }
        if tag == 0 {
            Ok((None, body))
        } else if tag == 1 {
            match T::from_bytes(body) {
                Ok((x, rest)) => {
                    proof {
                        let n = T::parse(body@)->Ok_0.1;
                        assert(rest@ =~= bytes@.skip(1 + n));
                    }
                    Ok((Some(x), rest))
                },
                Err(e) => Err(e),
            }
        } else {
            Err(Error::FormattingError)
        }
    }

    proof fn lemma_parse_wire(x: Option<T>, rest: Seq<u8>) {
        match x {
            None => {},
            Some(inner) => {
                let all = Self::wire(x.deep_view()) + rest;
                T::lemma_parse_wire(inner, rest);
                assert(all.skip(1) =~= T::wire(inner.deep_view()) + rest);
            },
        }
    }
}

} // verus!
