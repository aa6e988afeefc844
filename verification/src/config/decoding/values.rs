//! Values of the pinned binary table protocol: booleans, compact integers,
//! IEEE-754 binary32 and binary64 bit patterns, length-prefixed UTF-8 strings,
//! optional values and length-prefixed lists.

use super::buffer::{
    ByteBuf, DecodeLimits, le_value, spec_read_byte, spec_read_bytes, spec_read_int,
    spec_read_length, spec_read_long,
};
use super::error::DecodeError;
use crate::config::text::{push_unsigned, owned};
use vstd::prelude::*;
use vstd::utf8::{valid_utf8, decode_utf8};

verus! {

/// A value that can be decoded from the pinned binary protocol.
pub trait Decode: Sized + DeepView {
    /// What decoding from `offset` in `data` under `limits` gives: the decoded
    /// value and the offset after it, or the byte offset of the failure.
    spec fn spec_decode(data: Seq<u8>, offset: int, limits: DecodeLimits) -> Result<
        (<Self as DeepView>::V, int),
        int,
    >;

    /// Reads one value from `buf`, returning a contextual error on invalid input.
    fn decode(buf: &mut ByteBuf) -> (res: Result<Self, DecodeError>)
        ensures
            final(buf)@.data == old(buf)@.data,
            final(buf)@.limits == old(buf)@.limits,
            match Self::spec_decode(old(buf)@.data, old(buf)@.offset, old(buf)@.limits) {
                Ok((v, end)) => res matches Ok(r) && r.deep_view() == v && final(buf)@.offset == end,
                Err(at) => res matches Err(e) && e@.offset == at,
            },
            old(buf)@.offset <= final(buf)@.offset,
    ;
}

/// An IEEE-754 binary32 value held by its bit pattern, as the protocol stores it
/// (four little-endian bytes).
#[derive(Debug, Clone, Copy, PartialEq, Eq, Structural)]
pub struct Float32(pub u32);

impl DeepView for Float32 {
    type V = u32;

    open spec fn deep_view(&self) -> u32 {
        self.0
    }
}

/// An IEEE-754 binary64 value held by its bit pattern, as the protocol stores it
/// (eight little-endian bytes).
#[derive(Debug, Clone, Copy, PartialEq, Eq, Structural)]
pub struct Float64(pub u64);

impl DeepView for Float64 {
    type V = u64;

    open spec fn deep_view(&self) -> u64 {
        self.0
    }
}

impl Decode for bool {
    open spec fn spec_decode(data: Seq<u8>, offset: int, limits: DecodeLimits) -> Result<(bool, int), int> {
        match spec_read_byte(data, offset) {
            Err(at) => Err(at),
            Ok((b, end)) => if b == 0 {
                Ok((false, end))
            } else if b == 1 {
                Ok((true, end))
            } else {
                Err(offset)
            },
        }
    }

    fn decode(buf: &mut ByteBuf) -> (res: Result<bool, DecodeError>) {
        let offset = buf.offset();
        match buf.read_byte()? {
            0 => Ok(false),
            1 => Ok(true),
            _ => Err(DecodeError::new(offset, "boolean must be 0 or 1")),
        }
    }
}

impl Decode for i32 {
    open spec fn spec_decode(data: Seq<u8>, offset: int, limits: DecodeLimits) -> Result<(i32, int), int> {
        spec_read_int(data, offset)
    }

    fn decode(buf: &mut ByteBuf) -> (res: Result<i32, DecodeError>) {
        buf.read_int()
    }
}

impl Decode for i64 {
    open spec fn spec_decode(data: Seq<u8>, offset: int, limits: DecodeLimits) -> Result<(i64, int), int> {
        spec_read_long(data, offset)
    }

    fn decode(buf: &mut ByteBuf) -> (res: Result<i64, DecodeError>) {
        buf.read_long()
    }
}

impl Decode for Float32 {
    open spec fn spec_decode(data: Seq<u8>, offset: int, limits: DecodeLimits) -> Result<(u32, int), int> {
        match spec_read_bytes(data, offset, 4) {
            Err(at) => Err(at),
            Ok((bytes, end)) => Ok((le_value(bytes) as u32, end)),
        }
    }

    fn decode(buf: &mut ByteBuf) -> (res: Result<Float32, DecodeError>) {
        Ok(Float32(buf.read_u32_le()?))
    }
}

impl Decode for Float64 {
    open spec fn spec_decode(data: Seq<u8>, offset: int, limits: DecodeLimits) -> Result<(u64, int), int> {
        match spec_read_bytes(data, offset, 8) {
            Err(at) => Err(at),
            Ok((bytes, end)) => Ok((le_value(bytes) as u64, end)),
        }
    }

    fn decode(buf: &mut ByteBuf) -> (res: Result<Float64, DecodeError>) {
        Ok(Float64(buf.read_u64_le()?))
    }
}

/// The length of the longest prefix of `bytes[..n]` that is valid UTF-8.
pub open spec fn longest_valid_prefix(bytes: Seq<u8>, n: int) -> int
    decreases n,
{
    if n <= 0 {
        0
    } else if valid_utf8(bytes.take(n)) {
        n
    } else {
        longest_valid_prefix(bytes, n - 1)
    }
}

/// The position up to which `bytes` is valid UTF-8.
pub open spec fn utf8_valid_up_to(bytes: Seq<u8>) -> int {
    longest_valid_prefix(bytes, bytes.len() as int)
}

/// `std::str::from_utf8`: on valid UTF-8 the decoded text; otherwise
/// `Utf8Error::valid_up_to`, which std documents as the largest index such that
/// the bytes before it are valid UTF-8.
#[verifier::external_body]
fn utf8_text(bytes: &[u8]) -> (res: Result<String, usize>)
    ensures
        match res {
            Ok(text) => valid_utf8(bytes@) && text@ == decode_utf8(bytes@),
            Err(n) => !valid_utf8(bytes@) && n == utf8_valid_up_to(bytes@),
        },
{
    match std::str::from_utf8(bytes) {
        Ok(text) => Ok(text.to_owned()),
        Err(error) => Err(error.valid_up_to()),
    }
}

proof fn lemma_longest_valid_prefix_bound(bytes: Seq<u8>, n: int)
    ensures
        0 <= longest_valid_prefix(bytes, n),
        n >= 0 ==> longest_valid_prefix(bytes, n) <= n,
    decreases n,
{
    if n > 0 {
        lemma_longest_valid_prefix_bound(bytes, n - 1);
    }
}

impl Decode for String {
    open spec fn spec_decode(data: Seq<u8>, offset: int, limits: DecodeLimits) -> Result<(Seq<char>, int), int> {
        match spec_read_length(data, offset, limits.max_string_bytes) {
            Err(at) => Err(at),
            Ok((n, start)) => match spec_read_bytes(data, start, n) {
                Err(at) => Err(at),
                Ok((bytes, end)) => if valid_utf8(bytes) {
                    Ok((decode_utf8(bytes), end))
                } else {
                    Err(start + utf8_valid_up_to(bytes))
                },
            },
        }
    }

    fn decode(buf: &mut ByteBuf) -> (res: Result<String, DecodeError>) {
        let length = buf.read_string_size()?;
        let offset = buf.offset();
        let bytes = buf.read_bytes(length)?;
        let _end = buf.offset();
        match utf8_text(bytes.as_slice()) {
            Ok(text) => Ok(text),
            Err(valid_up_to) => {
                proof {
                    lemma_longest_valid_prefix_bound(bytes@, bytes@.len() as int);
                }
                Err(DecodeError::new(offset + valid_up_to, "invalid UTF-8 string"))
            },
        }
    }
}

impl<T: Decode> Decode for Option<T> {
    open spec fn spec_decode(data: Seq<u8>, offset: int, limits: DecodeLimits) -> Result<(Option<<T as DeepView>::V>, int), int> {
        match <bool as Decode>::spec_decode(data, offset, limits) {
            Err(at) => Err(at),
            Ok((false, end)) => Ok((None, end)),
            Ok((true, start)) => match T::spec_decode(data, start, limits) {
                Err(at) => Err(at),
                Ok((v, end)) => Ok((Some(v), end)),
            },
        }
    }

    fn decode(buf: &mut ByteBuf) -> (res: Result<Option<T>, DecodeError>) {
        if bool::decode(buf)? {
            Ok(Some(T::decode(buf)?))
        } else {
            Ok(None)
        }
    }
}

/// What decoding `n` consecutive values from `offset` gives.
pub open spec fn spec_decode_elements<T: Decode>(
    data: Seq<u8>,
    offset: int,
    n: nat,
    limits: DecodeLimits,
) -> Result<(Seq<<T as DeepView>::V>, int), int>
    decreases n,
{
    if n == 0 {
        Ok((Seq::empty(), offset))
    } else {
        match spec_decode_elements::<T>(data, offset, (n - 1) as nat, limits) {
            Err(at) => Err(at),
            Ok((values, end)) => match T::spec_decode(data, end, limits) {
                Err(at) => Err(at),
                Ok((v, next)) => Ok((values.push(v), next)),
            },
        }
    }
}

impl<T: Decode> Decode for Vec<T> {
    open spec fn spec_decode(data: Seq<u8>, offset: int, limits: DecodeLimits) -> Result<(Seq<<T as DeepView>::V>, int), int> {
        match spec_read_length(data, offset, limits.max_collection_len) {
            Err(at) => Err(at),
            Ok((n, start)) => spec_decode_elements::<T>(data, start, n as nat, limits),
        }
    }

    fn decode(buf: &mut ByteBuf) -> (res: Result<Vec<T>, DecodeError>) {
        let length = buf.read_size()?;
        let ghost start = buf@.offset;
        let ghost data = buf@.data;
        let ghost limits = buf@.limits;
        let mut values: Vec<T> = Vec::new();
        let mut index: usize = 0;
        assert(values.deep_view() =~= Seq::<<T as DeepView>::V>::empty());
        while index < length
            invariant
                index <= length,
                buf@.data == data,
                buf@.limits == limits,
                data == old(buf)@.data,
                limits == old(buf)@.limits,
                Self::spec_decode(data, old(buf)@.offset, limits) == spec_decode_elements::<T>(data, start, length as nat, limits),
                spec_decode_elements::<T>(data, start, index as nat, limits) == Ok::<(Seq<<T as DeepView>::V>, int), int>((values.deep_view(), buf@.offset)),
                old(buf)@.offset <= start <= buf@.offset,
            decreases length - index,
        {
            let ghost before = values.deep_view();
            match T::decode(buf) {
                Ok(v) => {
                    values.push(v);
                    assert(values.deep_view() =~= before.push(v.deep_view()));
                },
                Err(e) => {
                    let mut context = owned("element ");
                    push_unsigned(&mut context, index as u64);
                    proof {
                        assert(spec_decode_elements::<T>(data, start, (index + 1) as nat, limits) is Err);
                        lemma_elements_error_persists::<T>(data, start, (index + 1) as nat, length as nat, limits);
                    }
                    return Err(e.context(context));
                },
            }
            index = index + 1;
        }
        Ok(values)
    }
}

proof fn lemma_elements_error_persists<T: Decode>(
    data: Seq<u8>,
    offset: int,
    i: nat,
    n: nat,
    limits: DecodeLimits,
)
    requires
        i <= n,
        spec_decode_elements::<T>(data, offset, i, limits) is Err,
    ensures
        spec_decode_elements::<T>(data, offset, n, limits) == spec_decode_elements::<T>(data, offset, i, limits),
    decreases n - i,
{
    if i < n {
        lemma_elements_error_persists::<T>(data, offset, i, (n - 1) as nat, limits);
    }
}

} // verus!
