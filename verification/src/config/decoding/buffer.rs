//! An owned, bounds-checked cursor over one binary table file.

use super::error::DecodeError;
use crate::config::text::{decimal, push_str, push_unsigned};
use vstd::prelude::*;

verus! {

/// Per-value bounds applied before allocating variable-length configuration data.
#[derive(Debug, Clone, Copy, PartialEq, Eq, Structural)]
pub struct DecodeLimits {
    /// Maximum number of elements in one collection or rows in one table.
    pub max_collection_len: usize,
    /// Maximum UTF-8 byte length of one string.
    pub max_string_bytes: usize,
}

impl Default for DecodeLimits {
    fn default() -> (limits: Self)
        ensures
            limits.max_collection_len == 1_000_000,
            limits.max_string_bytes == 16 * 1024 * 1024,
    {
        DecodeLimits { max_collection_len: 1_000_000, max_string_bytes: 16 * 1024 * 1024 }
    }
}

/// The mathematical content of a [`ByteBuf`]: the whole file, the position of the
/// next unread byte, and the limits in force.
pub struct ByteBufView {
    pub data: Seq<u8>,
    pub offset: int,
    pub limits: DecodeLimits,
}

/// An owned, bounds-checked cursor over one binary data file.
#[derive(Debug)]
pub struct ByteBuf {
    bytes: Vec<u8>,
    offset: usize,
    limits: DecodeLimits,
}

impl View for ByteBuf {
    type V = ByteBufView;

    closed spec fn view(&self) -> ByteBufView {
        ByteBufView { data: self.bytes@, offset: self.offset as int, limits: self.limits }
    }
}

/// `256` raised to `n`.
pub open spec fn pow256(n: nat) -> nat
    decreases n,
{
    if n == 0 {
        1
    } else {
        256 * pow256((n - 1) as nat)
    }
}

/// The unsigned big-endian value of `s`.
pub open spec fn be_value(s: Seq<u8>) -> nat
    decreases s.len(),
{
    if s.len() == 0 {
        0
    } else {
        be_value(s.drop_last()) * 256 + s.last() as nat
    }
}

/// Result of reading `count` raw bytes at `offset`: the bytes and the next offset,
/// or the offset at which the read failed.
pub open spec fn spec_read_bytes(data: Seq<u8>, offset: int, count: int) -> Result<(Seq<u8>, int), int> {
    if 0 <= offset && offset + count <= data.len() {
        Ok((data.subrange(offset, offset + count), offset + count))
    } else {
        Err(offset)
    }
}

/// Result of reading one byte at `offset`.
pub open spec fn spec_read_byte(data: Seq<u8>, offset: int) -> Result<(u8, int), int> {
    if 0 <= offset < data.len() {
        Ok((data[offset], offset + 1))
    } else {
        Err(offset)
    }
}

/// The number of continuation bytes and the payload mask of a compact 32-bit
/// integer's first byte, or `None` for an invalid first byte.
pub open spec fn int_prefix(head: u8) -> Option<(nat, u8)> {
    if head <= 0x7f {
        Some((0, 0x7f))
    } else if head <= 0xbf {
        Some((1, 0x3f))
    } else if head <= 0xdf {
        Some((2, 0x1f))
    } else if head <= 0xef {
        Some((3, 0x0f))
    } else if head == 0xf0 {
        Some((4, 0))
    } else {
        None
    }
}

/// The number of continuation bytes and the payload mask of a compact 64-bit
/// integer's first byte; every first byte is valid.
pub open spec fn long_prefix(head: u8) -> (nat, u8) {
    if head <= 0x7f {
        (0, 0x7f)
    } else if head <= 0xbf {
        (1, 0x3f)
    } else if head <= 0xdf {
        (2, 0x1f)
    } else if head <= 0xef {
        (3, 0x0f)
    } else if head <= 0xf7 {
        (4, 0x07)
    } else if head <= 0xfb {
        (5, 0x03)
    } else if head <= 0xfd {
        (6, 0x01)
    } else if head == 0xfe {
        (7, 0)
    } else {
        (8, 0)
    }
}

/// Result of reading one compact 32-bit integer at `offset`: the payload bits of
/// the first byte followed by the continuation bytes, big-endian, reinterpreted as
/// a signed two's-complement value.
pub open spec fn spec_read_int(data: Seq<u8>, offset: int) -> Result<(i32, int), int> {
    match spec_read_byte(data, offset) {
        Err(at) => Err(at),
        Ok((head, start)) => match int_prefix(head) {
            None => Err(offset),
            Some((tail, mask)) => match spec_read_bytes(data, start, tail as int) {
                Err(at) => Err(at),
                Ok((bytes, end)) => Ok(
                    ((((head & mask) as nat) * pow256(tail) + be_value(bytes)) as u32 as i32, end),
                ),
            },
        },
    }
}

/// Result of reading one compact 64-bit integer at `offset`.
pub open spec fn spec_read_long(data: Seq<u8>, offset: int) -> Result<(i64, int), int> {
    match spec_read_byte(data, offset) {
        Err(at) => Err(at),
        Ok((head, start)) => {
            let (tail, mask) = long_prefix(head);
            match spec_read_bytes(data, start, tail as int) {
                Err(at) => Err(at),
                Ok((bytes, end)) => Ok(
                    ((((head & mask) as nat) * pow256(tail) + be_value(bytes)) as u64 as i64, end),
                ),
            }
        },
    }
}

/// Result of reading a length at `offset`: a compact integer that must be
/// nonnegative and at most `limit`; a length failure is reported at `offset`.
pub open spec fn spec_read_length(data: Seq<u8>, offset: int, limit: usize) -> Result<(int, int), int> {
    match spec_read_int(data, offset) {
        Err(at) => Err(at),
        Ok((v, end)) => if v < 0 || v > limit {
            Err(offset)
        } else {
            Ok((v as int, end))
        },
    }
}

/// Where the cursor stands after a failed compact-integer read at `offset`: past
/// the prefix byte when there is one.
pub open spec fn int_error_offset(data: Seq<u8>, offset: int) -> int {
    match spec_read_byte(data, offset) {
        Ok((_, next)) => next,
        Err(_) => offset,
    }
}

/// Where the cursor stands after a failed length read at `offset`: past the
/// integer when it was read but refused, else where the integer read stopped.
pub open spec fn length_error_offset(data: Seq<u8>, offset: int) -> int {
    match spec_read_int(data, offset) {
        Ok((_, end)) => end,
        Err(_) => int_error_offset(data, offset),
    }
}

/// The message of a read of `count` bytes at `offset` that runs past the data.
pub open spec fn shortage_text(data: Seq<u8>, offset: int, count: int) -> Seq<char> {
    "need "@ + decimal(count) + " bytes, only "@ + decimal(data.len() - offset) + " remain"@
}

/// The message of a failed compact 32-bit integer read at `offset`.
pub open spec fn int_error_text(data: Seq<u8>, offset: int) -> Seq<char> {
    match spec_read_byte(data, offset) {
        Err(_) => shortage_text(data, offset, 1),
        Ok((head, start)) => match int_prefix(head) {
            None => "invalid int prefix"@,
            Some((tail, _)) => shortage_text(data, start, tail as int),
        },
    }
}

/// The message of a failed compact 64-bit integer read at `offset`.
pub open spec fn long_error_text(data: Seq<u8>, offset: int) -> Seq<char> {
    match spec_read_byte(data, offset) {
        Err(_) => shortage_text(data, offset, 1),
        Ok((head, start)) => shortage_text(data, start, long_prefix(head).0 as int),
    }
}

/// The message of a failed length read at `offset` under `limit`.
pub open spec fn length_error_text(data: Seq<u8>, offset: int, limit: usize) -> Seq<char> {
    match spec_read_int(data, offset) {
        Err(_) => int_error_text(data, offset),
        Ok((v, _)) => if v < 0 {
            "negative length"@
        } else {
            "length "@ + decimal(v as int) + " exceeds limit "@ + decimal(limit as int)
        },
    }
}

/// The little-endian value of `s`.
pub open spec fn le_value(s: Seq<u8>) -> nat
    decreases s.len(),
{
    if s.len() == 0 {
        0
    } else {
        s[0] as nat + 256 * le_value(s.drop_first())
    }
}

pub proof fn lemma_pow256_monotonic(a: nat, b: nat)
    requires
        a <= b,
    ensures
        pow256(a) <= pow256(b),
        pow256(a) >= 1,
    decreases b,
{
    if a < b {
        lemma_pow256_monotonic(a, (b - 1) as nat);
    } else if b > 0 {
        lemma_pow256_monotonic(0, (b - 1) as nat);
    }
}

proof fn lemma_be_step(s: Seq<u8>, i: int)
    requires
        0 <= i < s.len(),
    ensures
        be_value(s.subrange(0, i + 1)) == be_value(s.subrange(0, i)) * 256 + s[i],
{
    assert(s.subrange(0, i + 1).drop_last() =~= s.subrange(0, i));
}

proof fn lemma_accumulate(
    value: nat,
    head_part: nat,
    mask: nat,
    i: nat,
    tail: nat,
    prefix: nat,
    byte: nat,
    bound: nat,
)
    requires
        value == head_part * pow256(i) + prefix,
        head_part <= mask,
        prefix < pow256(i),
        byte < 256,
        i < tail,
        (mask + 1) * pow256(tail) <= bound,
    ensures
        value * 256 + byte == head_part * pow256(i + 1) + (prefix * 256 + byte),
        value * 256 + byte < bound,
        prefix * 256 + byte < pow256(i + 1),
{
    lemma_pow256_monotonic(i + 1, tail);
    let p = pow256(i);
    let q = pow256(i + 1);
    assert(q == 256 * p);
    assert(value * 256 + byte == head_part * q + (prefix * 256 + byte)) by (nonlinear_arith)
        requires
            value == head_part * p + prefix,
            q == 256 * p,
    ;
    assert(prefix * 256 + byte < q) by (nonlinear_arith)
        requires
            prefix < p,
            byte < 256,
            q == 256 * p,
    ;
    assert(value * 256 + byte < (mask + 1) * q) by (nonlinear_arith)
        requires
            value == head_part * p + prefix,
            head_part <= mask,
            prefix < p,
            byte < 256,
            q == 256 * p,
    ;
    assert((mask + 1) * q <= (mask + 1) * pow256(tail)) by (nonlinear_arith)
        requires
            q <= pow256(tail),
    ;
}

proof fn lemma_pow256_values()
    ensures
        pow256(0) == 1,
        pow256(1) == 0x100,
        pow256(2) == 0x1_0000,
        pow256(3) == 0x100_0000,
        pow256(4) == 0x1_0000_0000,
        pow256(5) == 0x100_0000_0000,
        pow256(6) == 0x1_0000_0000_0000,
        pow256(7) == 0x100_0000_0000_0000,
        pow256(8) == 0x1_0000_0000_0000_0000,
{
    reveal_with_fuel(pow256, 9);
}

proof fn lemma_int_prefix_capacity(head: u8)
    ensures
        int_prefix(head) matches Some((tail, mask)) ==> (mask + 1) * pow256(tail) <= 0x1_0000_0000
            && head & mask <= mask && tail <= 4,
{
    lemma_pow256_values();
    if head <= 0x7f {
        assert(head & 0x7f <= 0x7f) by (bit_vector);
        assert(int_prefix(head) == Some((0nat, 0x7fu8)));
        assert((0x7fnat + 1) * pow256(0) <= 0x1_0000_0000) by (nonlinear_arith) requires pow256(0) == 1;
    } else if head <= 0xbf {
        assert(head & 0x3f <= 0x3f) by (bit_vector);
        assert(int_prefix(head) == Some((1nat, 0x3fu8)));
        assert((0x3fnat + 1) * pow256(1) <= 0x1_0000_0000) by (nonlinear_arith) requires pow256(1) == 0x100;
    } else if head <= 0xdf {
        assert(head & 0x1f <= 0x1f) by (bit_vector);
        assert(int_prefix(head) == Some((2nat, 0x1fu8)));
        assert((0x1fnat + 1) * pow256(2) <= 0x1_0000_0000) by (nonlinear_arith) requires pow256(2) == 0x1_0000;
    } else if head <= 0xef {
        assert(head & 0x0f <= 0x0f) by (bit_vector);
        assert(int_prefix(head) == Some((3nat, 0x0fu8)));
        assert((0x0fnat + 1) * pow256(3) <= 0x1_0000_0000) by (nonlinear_arith) requires pow256(3) == 0x100_0000;
    } else if head == 0xf0 {
        assert(head & 0 <= 0) by (bit_vector);
        assert(int_prefix(head) == Some((4nat, 0u8)));
        assert((0nat + 1) * pow256(4) <= 0x1_0000_0000) by (nonlinear_arith) requires pow256(4) == 0x1_0000_0000;
    }
}

proof fn lemma_long_prefix_capacity(head: u8)
    ensures
        (long_prefix(head).1 + 1) * pow256(long_prefix(head).0) <= 0x1_0000_0000_0000_0000,
        head & long_prefix(head).1 <= long_prefix(head).1,
        long_prefix(head).0 <= 8,
{
    lemma_pow256_values();
    if head <= 0x7f {
        assert(head & 0x7f <= 0x7f) by (bit_vector);
        assert((0x7fnat + 1) * pow256(0) <= 0x1_0000_0000_0000_0000) by (nonlinear_arith) requires pow256(0) == 1;
    } else if head <= 0xbf {
        assert(head & 0x3f <= 0x3f) by (bit_vector);
        assert((0x3fnat + 1) * pow256(1) <= 0x1_0000_0000_0000_0000) by (nonlinear_arith) requires pow256(1) == 0x100;
    } else if head <= 0xdf {
        assert(head & 0x1f <= 0x1f) by (bit_vector);
        assert((0x1fnat + 1) * pow256(2) <= 0x1_0000_0000_0000_0000) by (nonlinear_arith) requires pow256(2) == 0x1_0000;
    } else if head <= 0xef {
        assert(head & 0x0f <= 0x0f) by (bit_vector);
        assert((0x0fnat + 1) * pow256(3) <= 0x1_0000_0000_0000_0000) by (nonlinear_arith) requires pow256(3) == 0x100_0000;
    } else if head <= 0xf7 {
        assert(head & 0x07 <= 0x07) by (bit_vector);
        assert((0x07nat + 1) * pow256(4) <= 0x1_0000_0000_0000_0000) by (nonlinear_arith) requires pow256(4) == 0x1_0000_0000;
    } else if head <= 0xfb {
        assert(head & 0x03 <= 0x03) by (bit_vector);
        assert((0x03nat + 1) * pow256(5) <= 0x1_0000_0000_0000_0000) by (nonlinear_arith) requires pow256(5) == 0x100_0000_0000;
    } else if head <= 0xfd {
        assert(head & 0x01 <= 0x01) by (bit_vector);
        assert((0x01nat + 1) * pow256(6) <= 0x1_0000_0000_0000_0000) by (nonlinear_arith) requires pow256(6) == 0x1_0000_0000_0000;
    } else if head == 0xfe {
        assert(head & 0 <= 0) by (bit_vector);
        assert((0nat + 1) * pow256(7) <= 0x1_0000_0000_0000_0000) by (nonlinear_arith) requires pow256(7) == 0x100_0000_0000_0000;
    } else {
        assert(head & 0 <= 0) by (bit_vector);
        assert((0nat + 1) * pow256(8) <= 0x1_0000_0000_0000_0000) by (nonlinear_arith) requires pow256(8) == 0x1_0000_0000_0000_0000;
    }
}

impl ByteBuf {
    #[verifier::type_invariant]
    spec fn within_bounds(self) -> bool {
        self.offset <= self.bytes@.len()
    }

    /// Takes ownership of `bytes` and returns a cursor using default limits.
    pub fn new(bytes: Vec<u8>) -> (buf: Self)
        ensures
            buf@.data == bytes@,
            buf@.offset == 0,
            buf@.limits == (DecodeLimits { max_collection_len: 1_000_000, max_string_bytes: 16_777_216 }),
    {
        Self::with_limits(bytes, DecodeLimits::default())
    }

    /// Takes ownership of `bytes` and returns a cursor using the supplied limits.
    pub fn with_limits(bytes: Vec<u8>, limits: DecodeLimits) -> (buf: Self)
        ensures
            buf@.data == bytes@,
            buf@.offset == 0,
            buf@.limits == limits,
    {
        ByteBuf { bytes, offset: 0, limits }
    }

    /// Returns the byte offset of the next unread byte.
    pub fn offset(&self) -> (o: usize)
        ensures
            o == self@.offset,
            o <= self@.data.len(),
            self@.data.len() <= usize::MAX,
    {
        proof {
            use_type_invariant(self);
        }
        let _length = self.bytes.len();
        self.offset
    }

    /// Returns the limits in force.
    pub fn limits(&self) -> (l: DecodeLimits)
        ensures
            l == self@.limits,
    {
        self.limits
    }

    /// Returns the number of bytes that have not been read.
    pub fn remaining(&self) -> (n: usize)
        ensures
            n == self@.data.len() - self@.offset,
            self@.offset <= self@.data.len(),
    {
        proof {
            use_type_invariant(self);
        }
        self.bytes.len() - self.offset
    }

    /// Reads a nonnegative collection size, returning an error above its limit.
    pub fn read_size(&mut self) -> (res: Result<usize, DecodeError>)
        ensures
            final(self)@.data == old(self)@.data,
            final(self)@.limits == old(self)@.limits,
            match spec_read_length(old(self)@.data, old(self)@.offset, old(self)@.limits.max_collection_len) {
                Ok((n, end)) => res == Ok::<usize, DecodeError>(n as usize) && final(self)@.offset == end,
                Err(at) => res matches Err(e) && e@.offset == at
                    && e@.message == length_error_text(old(self)@.data, old(self)@.offset, old(self)@.limits.max_collection_len) && e@.contexts.len() == 0
                    && final(self)@.offset == length_error_offset(old(self)@.data, old(self)@.offset),
            },
            old(self)@.offset <= final(self)@.offset,
    {
        let limit = self.limits.max_collection_len;
        self.read_length(limit)
    }

    /// Returns success only when the complete file has been consumed.
    pub fn finish(&self) -> (res: Result<(), DecodeError>)
        ensures
            res is Ok <==> self@.offset == self@.data.len(),
            res matches Err(e) ==> e@.offset == self@.offset
                && e@.message == decimal(self@.data.len() - self@.offset) + " trailing bytes remain"@ && e@.contexts.len() == 0,
    {
        proof {
            use_type_invariant(self);
        }
        let remaining = self.remaining();
        if remaining != 0 {
            let mut message = String::new();
            push_unsigned(&mut message, remaining as u64);
            push_str(&mut message, " trailing bytes remain");
            return Err(DecodeError::with_message(self.offset, message));
        }
        Ok(())
    }

    /// Reads a nonnegative string byte length, returning an error above its limit.
    pub fn read_string_size(&mut self) -> (res: Result<usize, DecodeError>)
        ensures
            final(self)@.data == old(self)@.data,
            final(self)@.limits == old(self)@.limits,
            match spec_read_length(old(self)@.data, old(self)@.offset, old(self)@.limits.max_string_bytes) {
                Ok((n, end)) => res == Ok::<usize, DecodeError>(n as usize) && final(self)@.offset == end,
                Err(at) => res matches Err(e) && e@.offset == at
                    && e@.message == length_error_text(old(self)@.data, old(self)@.offset, old(self)@.limits.max_string_bytes) && e@.contexts.len() == 0
                    && final(self)@.offset == length_error_offset(old(self)@.data, old(self)@.offset),
            },
            old(self)@.offset <= final(self)@.offset,
    {
        let limit = self.limits.max_string_bytes;
        self.read_length(limit)
    }

    fn read_length(&mut self, limit: usize) -> (res: Result<usize, DecodeError>)
        ensures
            final(self)@.data == old(self)@.data,
            final(self)@.limits == old(self)@.limits,
            match spec_read_length(old(self)@.data, old(self)@.offset, limit) {
                Ok((n, end)) => res == Ok::<usize, DecodeError>(n as usize) && final(self)@.offset == end,
                Err(at) => res matches Err(e) && e@.offset == at
                    && e@.message == length_error_text(old(self)@.data, old(self)@.offset, limit) && e@.contexts.len() == 0
                    && final(self)@.offset == length_error_offset(old(self)@.data, old(self)@.offset),
            },
            old(self)@.offset <= final(self)@.offset,
    {
        let offset = self.offset;
        let length = self.read_int()?;
        if length < 0 {
            return Err(DecodeError::new(offset, "negative length"));
        }
        let length = length as usize;
        if length > limit {
            let mut message = String::new();
            push_str(&mut message, "length ");
            push_unsigned(&mut message, length as u64);
            push_str(&mut message, " exceeds limit ");
            push_unsigned(&mut message, limit as u64);
            return Err(DecodeError::with_message(offset, message));
        }
        Ok(length)
    }

    /// Advances past `count` bytes and returns the offset of the first of them.
    fn advance(&mut self, count: usize) -> (res: Result<usize, DecodeError>)
        ensures
            final(self)@.data == old(self)@.data,
            final(self)@.limits == old(self)@.limits,
            match spec_read_bytes(old(self)@.data, old(self)@.offset, count as int) {
                Ok((_, end)) => res == Ok::<usize, DecodeError>(old(self)@.offset as usize)
                    && final(self)@.offset == end,
                Err(at) => res matches Err(e) && e@.offset == at
                    && e@.message == shortage_text(old(self)@.data, old(self)@.offset, count as int) && e@.contexts.len() == 0 && final(self)@.offset
                    == old(self)@.offset,
            },
    {
        proof {
            use_type_invariant(&*self);
        }
        let offset = self.offset;
        if count > self.bytes.len() - offset {
            let mut message = String::new();
            push_str(&mut message, "need ");
            push_unsigned(&mut message, count as u64);
            push_str(&mut message, " bytes, only ");
            push_unsigned(&mut message, (self.bytes.len() - offset) as u64);
            push_str(&mut message, " remain");
            return Err(DecodeError::with_message(offset, message));
        }
        self.offset = offset + count;
        Ok(offset)
    }

    /// Reads `count` raw bytes.
    pub fn read_bytes(&mut self, count: usize) -> (res: Result<Vec<u8>, DecodeError>)
        ensures
            final(self)@.data == old(self)@.data,
            final(self)@.limits == old(self)@.limits,
            match spec_read_bytes(old(self)@.data, old(self)@.offset, count as int) {
                Ok((bytes, end)) => res matches Ok(v) && v@ == bytes && final(self)@.offset == end,
                Err(at) => res matches Err(e) && e@.offset == at
                    && e@.message == shortage_text(old(self)@.data, old(self)@.offset, count as int) && e@.contexts.len() == 0 && final(self)@.offset == old(self)@.offset,
            },
            old(self)@.offset <= final(self)@.offset,
    {
        let start = self.advance(count)?;
        let slice = &self.bytes.as_slice()[start..start + count];
        let v = vstd::slice::slice_to_vec(slice);
        assert(v@ =~= old(self)@.data.subrange(start as int, start + count));
        Ok(v)
    }

    /// Reads one byte.
    pub fn read_byte(&mut self) -> (res: Result<u8, DecodeError>)
        ensures
            final(self)@.data == old(self)@.data,
            final(self)@.limits == old(self)@.limits,
            match spec_read_byte(old(self)@.data, old(self)@.offset) {
                Ok((b, end)) => res == Ok::<u8, DecodeError>(b) && final(self)@.offset == end,
                Err(at) => res matches Err(e) && e@.offset == at
                    && e@.message == shortage_text(old(self)@.data, old(self)@.offset, 1) && e@.contexts.len() == 0 && final(self)@.offset == old(self)@.offset,
            },
            old(self)@.offset <= final(self)@.offset,
    {
        let start = self.advance(1)?;
        Ok(self.bytes[start])
    }

    /// Reads four bytes as a little-endian unsigned value.
    pub fn read_u32_le(&mut self) -> (res: Result<u32, DecodeError>)
        ensures
            final(self)@.data == old(self)@.data,
            final(self)@.limits == old(self)@.limits,
            match spec_read_bytes(old(self)@.data, old(self)@.offset, 4) {
                Ok((bytes, end)) => res == Ok::<u32, DecodeError>(le_value(bytes) as u32)
                    && final(self)@.offset == end,
                Err(at) => res matches Err(e) && e@.offset == at
                    && e@.message == shortage_text(old(self)@.data, old(self)@.offset, 4) && e@.contexts.len() == 0 && final(self)@.offset == old(self)@.offset,
            },
            old(self)@.offset <= final(self)@.offset,
    {
        let start = self.advance(4)?;
        let b0 = self.bytes[start] as u32;
        let b1 = self.bytes[start + 1] as u32;
        let b2 = self.bytes[start + 2] as u32;
        let b3 = self.bytes[start + 3] as u32;
        proof {
            let s = old(self)@.data.subrange(start as int, start + 4);
            reveal_with_fuel(le_value, 5);
            assert(s.drop_first().drop_first().drop_first().drop_first().len() == 0);
        }
        Ok(b0 + 256 * (b1 + 256 * (b2 + 256 * b3)))
    }

    /// Reads eight bytes as a little-endian unsigned value.
    pub fn read_u64_le(&mut self) -> (res: Result<u64, DecodeError>)
        ensures
            final(self)@.data == old(self)@.data,
            final(self)@.limits == old(self)@.limits,
            match spec_read_bytes(old(self)@.data, old(self)@.offset, 8) {
                Ok((bytes, end)) => res == Ok::<u64, DecodeError>(le_value(bytes) as u64)
                    && final(self)@.offset == end,
                Err(at) => res matches Err(e) && e@.offset == at
                    && e@.message == shortage_text(old(self)@.data, old(self)@.offset, 8) && e@.contexts.len() == 0 && final(self)@.offset == old(self)@.offset,
            },
            old(self)@.offset <= final(self)@.offset,
    {
        let start = self.advance(8)?;
        let mut value: u64 = 0;
        let mut i: usize = 8;
        let end = start + 8;
        let ghost s = old(self)@.data.subrange(start as int, start + 8);
        while i > 0
            invariant
                i <= 8,
                end == start + 8,
                start + 8 <= self.bytes@.len(),
                s == self.bytes@.subrange(start as int, start + 8),
                value == le_value(s.subrange(i as int, 8)),
                le_value(s.subrange(i as int, 8)) < pow256((8 - i) as nat),
            decreases i,
        {
            i = i - 1;
            let b = self.bytes[start + i];
            proof {
                let t = s.subrange(i as int, 8);
                assert(t.drop_first() =~= s.subrange(i + 1, 8));
                assert(t[0] == b);
                let p = pow256((8 - i - 1) as nat);
                assert(pow256((8 - i) as nat) == 256 * p);
                lemma_pow256_monotonic((8 - i) as nat, 8);
                reveal_with_fuel(pow256, 9);
                assert(le_value(t) == b + 256 * le_value(s.subrange(i + 1, 8)));
                assert(le_value(t) < pow256((8 - i) as nat)) by (nonlinear_arith)
                    requires
                        le_value(t) == b + 256 * le_value(s.subrange(i + 1, 8)),
                        le_value(s.subrange(i + 1, 8)) < p,
                        b < 256,
                        pow256((8 - i) as nat) == 256 * p,
                ;
                assert(pow256(8) == 0x1_0000_0000_0000_0000);
            }
            value = b as u64 + 256 * value;
        }
        assert(s.subrange(0, 8) =~= s);
        Ok(value)
    }

    /// Reads one compact 32-bit integer.
    pub fn read_int(&mut self) -> (res: Result<i32, DecodeError>)
        ensures
            final(self)@.data == old(self)@.data,
            final(self)@.limits == old(self)@.limits,
            match spec_read_int(old(self)@.data, old(self)@.offset) {
                Ok((v, end)) => res == Ok::<i32, DecodeError>(v) && final(self)@.offset == end,
                Err(at) => res matches Err(e) && e@.offset == at
                    && e@.message == int_error_text(old(self)@.data, old(self)@.offset) && e@.contexts.len() == 0
                    && final(self)@.offset == int_error_offset(old(self)@.data, old(self)@.offset),
            },
            old(self)@.offset <= final(self)@.offset,
    {
        let offset = self.offset;
        let head = self.read_byte()?;
        let tail: usize;
        let mask: u8;
        if head <= 0x7f {
            tail = 0;
            mask = 0x7f;
        } else if head <= 0xbf {
            tail = 1;
            mask = 0x3f;
        } else if head <= 0xdf {
            tail = 2;
            mask = 0x1f;
        } else if head <= 0xef {
            tail = 3;
            mask = 0x0f;
        } else if head == 0xf0 {
            tail = 4;
            mask = 0;
        } else {
            return Err(DecodeError::new(offset, "invalid int prefix"));
        }
        let start = self.advance(tail)?;
        proof {
            lemma_int_prefix_capacity(head);
        }
        let ghost bytes = self.bytes@.subrange(start as int, start + tail);
        let ghost head_part = (head & mask) as nat;
        let mut value: u32 = (head & mask) as u32;
        let mut i: usize = 0;
        let end = start + tail;
        while i < tail
            invariant
                i <= tail,
                end == start + tail,
                tail <= 4,
                start + tail <= self.bytes@.len(),
                bytes == self.bytes@.subrange(start as int, start + tail),
                head_part <= mask,
                (mask + 1) * pow256(tail as nat) <= 0x1_0000_0000,
                value == head_part * pow256(i as nat) + be_value(bytes.subrange(0, i as int)),
                be_value(bytes.subrange(0, i as int)) < pow256(i as nat),
            decreases tail - i,
        {
            let b = self.bytes[start + i];
            proof {
                lemma_be_step(bytes, i as int);
                lemma_accumulate(
                    value as nat,
                    head_part,
                    mask as nat,
                    i as nat,
                    tail as nat,
                    be_value(bytes.subrange(0, i as int)),
                    b as nat,
                    0x1_0000_0000,
                );
            }
            value = value * 256 + b as u32;
            i = i + 1;
        }
        assert(bytes.subrange(0, tail as int) =~= bytes);
        Ok(value as i32)
    }

    /// Reads one compact 64-bit integer.
    pub fn read_long(&mut self) -> (res: Result<i64, DecodeError>)
        ensures
            final(self)@.data == old(self)@.data,
            final(self)@.limits == old(self)@.limits,
            match spec_read_long(old(self)@.data, old(self)@.offset) {
                Ok((v, end)) => res == Ok::<i64, DecodeError>(v) && final(self)@.offset == end,
                Err(at) => res matches Err(e) && e@.offset == at
                    && e@.message == long_error_text(old(self)@.data, old(self)@.offset) && e@.contexts.len() == 0
                    && final(self)@.offset == int_error_offset(old(self)@.data, old(self)@.offset),
            },
            old(self)@.offset <= final(self)@.offset,
    {
        let head = self.read_byte()?;
        let tail: usize;
        let mask: u8;
        if head <= 0x7f {
            tail = 0;
            mask = 0x7f;
        } else if head <= 0xbf {
            tail = 1;
            mask = 0x3f;
        } else if head <= 0xdf {
            tail = 2;
            mask = 0x1f;
        } else if head <= 0xef {
            tail = 3;
            mask = 0x0f;
        } else if head <= 0xf7 {
            tail = 4;
            mask = 0x07;
        } else if head <= 0xfb {
            tail = 5;
            mask = 0x03;
        } else if head <= 0xfd {
            tail = 6;
            mask = 0x01;
        } else if head == 0xfe {
            tail = 7;
            mask = 0;
        } else {
            tail = 8;
            mask = 0;
        }
        let start = self.advance(tail)?;
        proof {
            lemma_long_prefix_capacity(head);
        }
        let ghost bytes = self.bytes@.subrange(start as int, start + tail);
        let ghost head_part = (head & mask) as nat;
        let mut value: u64 = (head & mask) as u64;
        let mut i: usize = 0;
        let end = start + tail;
        while i < tail
            invariant
                i <= tail,
                end == start + tail,
                tail <= 8,
                start + tail <= self.bytes@.len(),
                bytes == self.bytes@.subrange(start as int, start + tail),
                head_part <= mask,
                (mask + 1) * pow256(tail as nat) <= 0x1_0000_0000_0000_0000,
                value == head_part * pow256(i as nat) + be_value(bytes.subrange(0, i as int)),
                be_value(bytes.subrange(0, i as int)) < pow256(i as nat),
            decreases tail - i,
        {
            let b = self.bytes[start + i];
            proof {
                lemma_be_step(bytes, i as int);
                lemma_accumulate(
                    value as nat,
                    head_part,
                    mask as nat,
                    i as nat,
                    tail as nat,
                    be_value(bytes.subrange(0, i as int)),
                    b as nat,
                    0x1_0000_0000_0000_0000,
                );
            }
            value = value * 256 + b as u64;
            i = i + 1;
        }
        assert(bytes.subrange(0, tail as int) =~= bytes);
        Ok(value as i64)
    }
}

} // verus!
