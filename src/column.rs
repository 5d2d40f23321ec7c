//! Typed column values: the decoding and encoding contract for each type
//! that a column can hold, scalars, strings, addresses, lists and maps.
use vstd::prelude::*;
use crate::bytes::{
    be_bytes, be_int, be_uint, pow256, push_be, read_be, twos, lemma_be_uint_bound,
    lemma_be_round_trip, lemma_be_signed_round_trip, lemma_be_bytes_len, DecodeError, read_u16,
    u16_at, utf8_text, i32_at, read_i32, push_bytes,
};
use std::collections::HashMap;
use std::hash::{BuildHasher, Hash};
use vstd::std_specs::hash::{builds_valid_hashers, obeys_key_model};
use vstd::string::StringSliceAdditionalSpecFns;
use vstd::utf8::{decode_utf8, encode_utf8, valid_utf8};

verus! {

/// Decoding of a column value from its bytes.
pub trait ColumnDecoder: Sized {
    /// Whether a value of this type can be read from `slice`, given the
    /// `length` its column declares.
    spec fn can_decode(slice: Seq<u8>, length: int) -> bool;

    /// Whether `v` is the value that `slice` holds, given the declared `length`.
    spec fn decodes_to(slice: Seq<u8>, length: int, v: Self) -> bool;

    fn decode(slice: &[u8], length: usize) -> (r: Result<Self, DecodeError>)
        ensures
            r is Ok <==> Self::can_decode(slice@, length as int),
            r matches Ok(v) ==> Self::decodes_to(slice@, length as int, v),
    ;
}

/// Encoding of a column value for a request: a 4-byte big-endian length,
/// then the value's bytes.
pub trait ColumnEncoder: ColumnDecoder {
    /// The bytes of the value, without the length prefix.
    spec fn encoding(&self) -> Seq<u8>;

    fn encode(&self, buffer: &mut Vec<u8>)
        ensures
            final(buffer)@ == old(buffer)@ + be_bytes(self.encoding().len(), 4) + self.encoding(),
    ;

    /// Decoding the bytes of an encoded value, with the length its prefix
    /// declares, gives the value back.
    proof fn lemma_decode_encode(&self)
        ensures
            Self::can_decode(self.encoding(), self.encoding().len() as int),
            Self::decodes_to(self.encoding(), self.encoding().len() as int, *self),
    ;
}

/// Every encodable column value survives a round trip: the bytes that follow
/// its length prefix decode, under the length the prefix states, to the value.
pub proof fn lemma_round_trip<T: ColumnEncoder>(v: T)
    ensures
        T::can_decode(v.encoding(), v.encoding().len() as int),
        T::decodes_to(v.encoding(), v.encoding().len() as int, v),
{
    v.lemma_decode_encode();
}

/// A scalar of `size` bytes is declared with exactly that length and needs
/// that many bytes.
pub open spec fn scalar_fits(slice: Seq<u8>, length: int, size: int) -> bool {
    length == size && slice.len() >= size
}

/// Reads a big-endian scalar of `size` bytes declared with `length`.
fn read_scalar(slice: &[u8], length: usize, size: usize) -> (r: Result<u64, DecodeError>)
    requires
        0 < size <= 8,
    ensures
        r is Ok <==> scalar_fits(slice@, length as int, size as int),
        r matches Ok(u) ==> u as int == be_uint(slice@.take(size as int)) && u < pow256(
            size as nat,
        ),
{
    if length != size {
        return Err(DecodeError::LengthMismatch { expected: size, actual: length });
    }
    if slice.len() < size {
        return Err(DecodeError::Truncated { offset: 0, needed: size });
    }
    proof {
        lemma_be_uint_bound(slice@.take(size as int));
    }
    Ok(read_be(slice, size))
}

impl ColumnDecoder for u8 {
    open spec fn can_decode(slice: Seq<u8>, length: int) -> bool {
        scalar_fits(slice, length, 1)
    }

    open spec fn decodes_to(slice: Seq<u8>, length: int, v: u8) -> bool {
        v as int == be_uint(slice.take(1))
    }

    fn decode(slice: &[u8], length: usize) -> (r: Result<u8, DecodeError>) {
        let u = match read_scalar(slice, length, 1) {
            Ok(u) => u,
            Err(e) => {
                return Err(e);
            },
        };
        proof {
            reveal_with_fuel(pow256, 2);
        }
        Ok(u as u8)
    }
}

impl ColumnEncoder for u8 {
    open spec fn encoding(&self) -> Seq<u8> {
        be_bytes(*self as nat, 1)
    }

    fn encode(&self, buffer: &mut Vec<u8>) {
        proof {
            reveal_with_fuel(pow256, 2);
            lemma_be_bytes_len(twos(*self as int, 1), 1);
            lemma_be_bytes_len(*self as nat, 1);
        }
        let u: u64 = *self as u64;
        push_be(buffer, 1, 4);
        push_be(buffer, u, 1);
    }

    proof fn lemma_decode_encode(&self) {
        reveal_with_fuel(pow256, 2);
        lemma_be_round_trip(*self as nat, 1);
        vstd::arithmetic::div_mod::lemma_small_mod(*self as nat, pow256(1));
        assert(self.encoding().take(1) =~= self.encoding());
    }
}

impl ColumnDecoder for i8 {
    open spec fn can_decode(slice: Seq<u8>, length: int) -> bool {
        scalar_fits(slice, length, 1)
    }

    open spec fn decodes_to(slice: Seq<u8>, length: int, v: i8) -> bool {
        v as int == be_int(slice.take(1))
    }

    fn decode(slice: &[u8], length: usize) -> (r: Result<i8, DecodeError>) {
        let u = match read_scalar(slice, length, 1) {
            Ok(u) => u,
            Err(e) => {
                return Err(e);
            },
        };
        proof {
            reveal_with_fuel(pow256, 2);
        }
        if u >= 0x80 {
            Ok((u as i64 - 0x100) as i8)
        } else {
            Ok(u as i8)
        }
    }
}

impl ColumnEncoder for i8 {
    open spec fn encoding(&self) -> Seq<u8> {
        be_bytes(twos(*self as int, 1), 1)
    }

    fn encode(&self, buffer: &mut Vec<u8>) {
        proof {
            reveal_with_fuel(pow256, 2);
            lemma_be_bytes_len(twos(*self as int, 1), 1);
            lemma_be_bytes_len(*self as nat, 1);
        }
        let u: u64 = if *self < 0 {
            (*self as i64 + 0x100) as u64
        } else {
            *self as u64
        };
        push_be(buffer, 1, 4);
        push_be(buffer, u, 1);
    }

    proof fn lemma_decode_encode(&self) {
        reveal_with_fuel(pow256, 2);
        lemma_be_signed_round_trip(*self as int, 1);
        assert(self.encoding().take(1) =~= self.encoding());
    }
}

impl ColumnDecoder for u16 {
    open spec fn can_decode(slice: Seq<u8>, length: int) -> bool {
        scalar_fits(slice, length, 2)
    }

    open spec fn decodes_to(slice: Seq<u8>, length: int, v: u16) -> bool {
        v as int == be_uint(slice.take(2))
    }

    fn decode(slice: &[u8], length: usize) -> (r: Result<u16, DecodeError>) {
        let u = match read_scalar(slice, length, 2) {
            Ok(u) => u,
            Err(e) => {
                return Err(e);
            },
        };
        proof {
            reveal_with_fuel(pow256, 3);
        }
        Ok(u as u16)
    }
}

impl ColumnEncoder for u16 {
    open spec fn encoding(&self) -> Seq<u8> {
        be_bytes(*self as nat, 2)
    }

    fn encode(&self, buffer: &mut Vec<u8>) {
        proof {
            reveal_with_fuel(pow256, 3);
            lemma_be_bytes_len(twos(*self as int, 2), 2);
            lemma_be_bytes_len(*self as nat, 2);
        }
        let u: u64 = *self as u64;
        push_be(buffer, 2, 4);
        push_be(buffer, u, 2);
    }

    proof fn lemma_decode_encode(&self) {
        reveal_with_fuel(pow256, 3);
        lemma_be_round_trip(*self as nat, 2);
        vstd::arithmetic::div_mod::lemma_small_mod(*self as nat, pow256(2));
        assert(self.encoding().take(2) =~= self.encoding());
    }
}

impl ColumnDecoder for i16 {
    open spec fn can_decode(slice: Seq<u8>, length: int) -> bool {
        scalar_fits(slice, length, 2)
    }

    open spec fn decodes_to(slice: Seq<u8>, length: int, v: i16) -> bool {
        v as int == be_int(slice.take(2))
    }

    fn decode(slice: &[u8], length: usize) -> (r: Result<i16, DecodeError>) {
        let u = match read_scalar(slice, length, 2) {
            Ok(u) => u,
            Err(e) => {
                return Err(e);
            },
        };
        proof {
            reveal_with_fuel(pow256, 3);
        }
        if u >= 0x8000 {
            Ok((u as i64 - 0x10000) as i16)
        } else {
            Ok(u as i16)
        }
    }
}

impl ColumnEncoder for i16 {
    open spec fn encoding(&self) -> Seq<u8> {
        be_bytes(twos(*self as int, 2), 2)
    }

    fn encode(&self, buffer: &mut Vec<u8>) {
        proof {
            reveal_with_fuel(pow256, 3);
            lemma_be_bytes_len(twos(*self as int, 2), 2);
            lemma_be_bytes_len(*self as nat, 2);
        }
        let u: u64 = if *self < 0 {
            (*self as i64 + 0x10000) as u64
        } else {
            *self as u64
        };
        push_be(buffer, 2, 4);
        push_be(buffer, u, 2);
    }

    proof fn lemma_decode_encode(&self) {
        reveal_with_fuel(pow256, 3);
        lemma_be_signed_round_trip(*self as int, 2);
        assert(self.encoding().take(2) =~= self.encoding());
    }
}

impl ColumnDecoder for u32 {
    open spec fn can_decode(slice: Seq<u8>, length: int) -> bool {
        scalar_fits(slice, length, 4)
    }

    open spec fn decodes_to(slice: Seq<u8>, length: int, v: u32) -> bool {
        v as int == be_uint(slice.take(4))
    }

    fn decode(slice: &[u8], length: usize) -> (r: Result<u32, DecodeError>) {
        let u = match read_scalar(slice, length, 4) {
            Ok(u) => u,
            Err(e) => {
                return Err(e);
            },
        };
        proof {
            reveal_with_fuel(pow256, 5);
        }
        Ok(u as u32)
    }
}

impl ColumnEncoder for u32 {
    open spec fn encoding(&self) -> Seq<u8> {
        be_bytes(*self as nat, 4)
    }

    fn encode(&self, buffer: &mut Vec<u8>) {
        proof {
            reveal_with_fuel(pow256, 5);
            lemma_be_bytes_len(twos(*self as int, 4), 4);
            lemma_be_bytes_len(*self as nat, 4);
        }
        let u: u64 = *self as u64;
        push_be(buffer, 4, 4);
        push_be(buffer, u, 4);
    }

    proof fn lemma_decode_encode(&self) {
        reveal_with_fuel(pow256, 5);
        lemma_be_round_trip(*self as nat, 4);
        vstd::arithmetic::div_mod::lemma_small_mod(*self as nat, pow256(4));
        assert(self.encoding().take(4) =~= self.encoding());
    }
}

impl ColumnDecoder for i32 {
    open spec fn can_decode(slice: Seq<u8>, length: int) -> bool {
        scalar_fits(slice, length, 4)
    }

    open spec fn decodes_to(slice: Seq<u8>, length: int, v: i32) -> bool {
        v as int == be_int(slice.take(4))
    }

    fn decode(slice: &[u8], length: usize) -> (r: Result<i32, DecodeError>) {
        let u = match read_scalar(slice, length, 4) {
            Ok(u) => u,
            Err(e) => {
                return Err(e);
            },
        };
        proof {
            reveal_with_fuel(pow256, 5);
        }
        if u >= 0x80000000 {
            Ok((u as i64 - 0x100000000) as i32)
        } else {
            Ok(u as i32)
        }
    }
}

impl ColumnEncoder for i32 {
    open spec fn encoding(&self) -> Seq<u8> {
        be_bytes(twos(*self as int, 4), 4)
    }

    fn encode(&self, buffer: &mut Vec<u8>) {
        proof {
            reveal_with_fuel(pow256, 5);
            lemma_be_bytes_len(twos(*self as int, 4), 4);
            lemma_be_bytes_len(*self as nat, 4);
        }
        let u: u64 = if *self < 0 {
            (*self as i64 + 0x100000000) as u64
        } else {
            *self as u64
        };
        push_be(buffer, 4, 4);
        push_be(buffer, u, 4);
    }

    proof fn lemma_decode_encode(&self) {
        reveal_with_fuel(pow256, 5);
        lemma_be_signed_round_trip(*self as int, 4);
        assert(self.encoding().take(4) =~= self.encoding());
    }
}

impl ColumnDecoder for u64 {
    open spec fn can_decode(slice: Seq<u8>, length: int) -> bool {
        scalar_fits(slice, length, 8)
    }

    open spec fn decodes_to(slice: Seq<u8>, length: int, v: u64) -> bool {
        v as int == be_uint(slice.take(8))
    }

    fn decode(slice: &[u8], length: usize) -> (r: Result<u64, DecodeError>) {
        let u = match read_scalar(slice, length, 8) {
            Ok(u) => u,
            Err(e) => {
                return Err(e);
            },
        };
        proof {
            reveal_with_fuel(pow256, 9);
        }
        Ok(u as u64)
    }
}

impl ColumnEncoder for u64 {
    open spec fn encoding(&self) -> Seq<u8> {
        be_bytes(*self as nat, 8)
    }

    fn encode(&self, buffer: &mut Vec<u8>) {
        proof {
            reveal_with_fuel(pow256, 9);
            lemma_be_bytes_len(twos(*self as int, 8), 8);
            lemma_be_bytes_len(*self as nat, 8);
        }
        let u: u64 = *self as u64;
        push_be(buffer, 8, 4);
        push_be(buffer, u, 8);
    }

    proof fn lemma_decode_encode(&self) {
        reveal_with_fuel(pow256, 9);
        lemma_be_round_trip(*self as nat, 8);
        vstd::arithmetic::div_mod::lemma_small_mod(*self as nat, pow256(8));
        assert(self.encoding().take(8) =~= self.encoding());
    }
}

impl ColumnDecoder for i64 {
    open spec fn can_decode(slice: Seq<u8>, length: int) -> bool {
        scalar_fits(slice, length, 8)
    }

    open spec fn decodes_to(slice: Seq<u8>, length: int, v: i64) -> bool {
        v as int == be_int(slice.take(8))
    }

    fn decode(slice: &[u8], length: usize) -> (r: Result<i64, DecodeError>) {
        let u = match read_scalar(slice, length, 8) {
            Ok(u) => u,
            Err(e) => {
                return Err(e);
            },
        };
        proof {
            reveal_with_fuel(pow256, 9);
        }
        if u >= 0x8000_0000_0000_0000 {
            Ok(((u - 0x8000_0000_0000_0000) as i64) + i64::MIN)
        } else {
            Ok(u as i64)
        }
    }
}

impl ColumnEncoder for i64 {
    open spec fn encoding(&self) -> Seq<u8> {
        be_bytes(twos(*self as int, 8), 8)
    }

    fn encode(&self, buffer: &mut Vec<u8>) {
        proof {
            reveal_with_fuel(pow256, 9);
            lemma_be_bytes_len(twos(*self as int, 8), 8);
            lemma_be_bytes_len(*self as nat, 8);
        }
        let u: u64 = if *self < 0 {
            ((*self + i64::MAX + 1) as u64) + 0x8000_0000_0000_0000
        } else {
            *self as u64
        };
        push_be(buffer, 8, 4);
        push_be(buffer, u, 8);
    }

    proof fn lemma_decode_encode(&self) {
        reveal_with_fuel(pow256, 9);
        lemma_be_signed_round_trip(*self as int, 8);
        assert(self.encoding().take(8) =~= self.encoding());
    }
}

impl ColumnDecoder for String {
    /// The `length` declared bytes must be present and well-formed UTF-8.
    open spec fn can_decode(slice: Seq<u8>, length: int) -> bool {
        length <= slice.len() && valid_utf8(slice.take(length))
    }

    open spec fn decodes_to(slice: Seq<u8>, length: int, v: String) -> bool {
        v@ == decode_utf8(slice.take(length))
    }

    fn decode(slice: &[u8], length: usize) -> (r: Result<String, DecodeError>) {
        if slice.len() < length {
            return Err(DecodeError::Truncated { offset: 0, needed: length });
        }
        utf8_text(vstd::slice::slice_subrange(slice, 0, length))
    }
}

impl ColumnEncoder for String {
    /// The UTF-8 bytes of the text.
    open spec fn encoding(&self) -> Seq<u8> {
        encode_utf8(self@)
    }

    fn encode(&self, buffer: &mut Vec<u8>) {
        let bytes = self.as_str().as_bytes();
        push_be(buffer, bytes.len() as u64, 4);
        push_bytes(buffer, bytes);
    }

    proof fn lemma_decode_encode(&self) {
        vstd::utf8::encode_utf8_valid_utf8(self@);
        vstd::utf8::encode_utf8_decode_utf8(self@);
        assert(self.encoding().take(self.encoding().len() as int) =~= self.encoding());
    }
}

/// An IPv4 address.
#[derive(Debug, Clone, Copy, PartialEq, Eq)]
pub struct Ipv4Addr {
    pub octets: [u8; 4],
}

/// An IPv6 address, as eight 16-bit groups.
#[derive(Debug, Clone, Copy, PartialEq, Eq)]
pub struct Ipv6Addr {
    pub segments: [u16; 8],
}

/// An IPv4 or IPv6 address.
#[derive(Debug, Clone, Copy, PartialEq, Eq)]
pub enum IpAddr {
    V4(Ipv4Addr),
    V6(Ipv6Addr),
}

impl ColumnDecoder for Ipv4Addr {
    /// The four octets, in order; the declared length is not consulted.
    open spec fn can_decode(slice: Seq<u8>, length: int) -> bool {
        slice.len() >= 4
    }

    open spec fn decodes_to(slice: Seq<u8>, length: int, v: Ipv4Addr) -> bool {
        v.octets@ == slice.take(4)
    }

    fn decode(slice: &[u8], length: usize) -> (r: Result<Ipv4Addr, DecodeError>) {
        if slice.len() < 4 {
            return Err(DecodeError::Truncated { offset: 0, needed: 4 });
        }
        let octets: [u8; 4] = crate::bytes::copy_array(slice);
        Ok(Ipv4Addr { octets })
    }
}

impl ColumnDecoder for Ipv6Addr {
    /// Sixteen bytes paired big-endian into eight groups; the declared length
    /// is not consulted.
    open spec fn can_decode(slice: Seq<u8>, length: int) -> bool {
        slice.len() >= 16
    }

    open spec fn decodes_to(slice: Seq<u8>, length: int, v: Ipv6Addr) -> bool {
        forall|i: int| 0 <= i < 8 ==> #[trigger] v.segments@[i] as int == u16_at(slice, 2 * i)
    }

    fn decode(slice: &[u8], length: usize) -> (r: Result<Ipv6Addr, DecodeError>) {
        if slice.len() < 16 {
            return Err(DecodeError::Truncated { offset: 0, needed: 16 });
        }
        let mut segments: [u16; 8] = [0u16; 8];
        let mut i: usize = 0;
        while i < 8
            invariant
                i <= 8,
                slice@.len() >= 16,
                forall|j: int| 0 <= j < i ==> #[trigger] segments@[j] as int == u16_at(slice@, 2 * j),
            decreases 8 - i,
        {
            segments[i] = read_u16(slice, 2 * i);
            i = i + 1;
        }
        Ok(Ipv6Addr { segments })
    }
}

impl ColumnDecoder for IpAddr {
    /// A declared length of 4 is an IPv4 address; any other is IPv6.
    open spec fn can_decode(slice: Seq<u8>, length: int) -> bool {
        if length == 4 {
            Ipv4Addr::can_decode(slice, length)
        } else {
            Ipv6Addr::can_decode(slice, length)
        }
    }

    open spec fn decodes_to(slice: Seq<u8>, length: int, v: IpAddr) -> bool {
        if length == 4 {
            v matches IpAddr::V4(a) && Ipv4Addr::decodes_to(slice, length, a)
        } else {
            v matches IpAddr::V6(a) && Ipv6Addr::decodes_to(slice, length, a)
        }
    }

    fn decode(slice: &[u8], length: usize) -> (r: Result<IpAddr, DecodeError>) {
        if length == 4 {
            match Ipv4Addr::decode(slice, length) {
                Ok(a) => Ok(IpAddr::V4(a)),
                Err(e) => Err(e),
            }
        } else {
            match Ipv6Addr::decode(slice, length) {
                Ok(a) => Ok(IpAddr::V6(a)),
                Err(e) => Err(e),
            }
        }
    }
}

/// The first `n` length-prefixed elements (a signed 32-bit length, then that
/// many bytes) after the 4-byte count at the start of `s`: the bytes of each
/// and the offset just past the last one.
pub open spec fn elements(s: Seq<u8>, n: nat) -> Option<(Seq<Seq<u8>>, int)>
    decreases n,
{
    if n == 0 {
        Some((seq![], 4))
    } else {
        match elements(s, (n - 1) as nat) {
            None => None,
            Some((items, end)) => {
                if end + 4 <= s.len() && 0 <= i32_at(s, end) && end + 4 + i32_at(s, end) <= s.len() {
                    let next = end + 4 + i32_at(s, end);
                    Some((items.push(s.subrange(end + 4, next)), next))
                } else {
                    None
                }
            },
        }
    }
}

/// The encoded size of length-prefixed elements of these contents, after a
/// 4-byte count.
pub open spec fn elements_size(items: Seq<Seq<u8>>) -> int
    decreases items.len(),
{
    if items.len() == 0 {
        4
    } else {
        elements_size(items.drop_last()) + 4 + items.last().len()
    }
}

/// A list at the start of `s`: a non-negative 32-bit element count, then the
/// elements. Gives the bytes of each element and the offset past the last.
pub open spec fn list_layout(s: Seq<u8>) -> Option<(Seq<Seq<u8>>, int)> {
    if s.len() >= 4 && i32_at(s, 0) >= 0 {
        elements(s, i32_at(s, 0) as nat)
    } else {
        None
    }
}

/// A map at the start of `s`: a non-negative 32-bit pair count, then for each
/// pair a length-prefixed key and a length-prefixed value. Gives the bytes of
/// the keys and values, alternating, and the offset past the last.
pub open spec fn map_layout(s: Seq<u8>) -> Option<(Seq<Seq<u8>>, int)> {
    if s.len() >= 4 && i32_at(s, 0) >= 0 {
        elements(s, 2 * i32_at(s, 0) as nat)
    } else {
        None
    }
}

proof fn lemma_elements_prefix(s: Seq<u8>, k: nat, n: nat)
    requires
        k <= n,
        elements(s, n) is Some,
    ensures
        elements(s, k) is Some,
        elements(s, k).unwrap().0 == elements(s, n).unwrap().0.take(k as int),
        elements(s, n).unwrap().0.len() == n,
    decreases n,
{
    if n > 0 {
        lemma_elements_prefix(s, (n - 1) as nat, (n - 1) as nat);
        if k < n {
            lemma_elements_prefix(s, k, (n - 1) as nat);
        }
        let prev = elements(s, (n - 1) as nat).unwrap().0;
        let all = elements(s, n).unwrap().0;
        assert(all.take((n - 1) as int) =~= prev);
        if k < n {
            assert(all.take(k as int) =~= prev.take(k as int));
        } else {
            assert(all.take(k as int) =~= all);
        }
    }
}

proof fn lemma_elements_bounds(s: Seq<u8>, n: nat)
    requires
        elements(s, n) is Some,
    ensures
        elements(s, n).unwrap().1 >= 4,
        n > 0 ==> elements(s, n).unwrap().1 <= s.len(),
        elements(s, n).unwrap().0.len() == n,
    decreases n,
{
    if n > 0 {
        lemma_elements_bounds(s, (n - 1) as nat);
    }
}

proof fn lemma_elements_fail(s: Seq<u8>, k: nat, n: nat)
    requires
        k <= n,
        elements(s, k) is None,
    ensures
        elements(s, n) is None,
    decreases n,
{
    if k < n {
        lemma_elements_fail(s, k, (n - 1) as nat);
    }
}

/// Decoding the elements of a list or map never reads past the last one:
/// they take the 4-byte count, then 4 bytes and the contents of each
/// element, and any input that agrees on those bytes gives the same layout.
pub proof fn lemma_elements_consume_exactly(s: Seq<u8>, t: Seq<u8>, n: nat)
    requires
        s.len() >= 4,
        elements(s, n) is Some,
        t.len() >= elements(s, n).unwrap().1,
        t.take(elements(s, n).unwrap().1) == s.take(elements(s, n).unwrap().1),
    ensures
        elements(s, n).unwrap().1 == elements_size(elements(s, n).unwrap().0),
        elements(s, n).unwrap().1 <= s.len(),
        elements(t, n) == elements(s, n),
    decreases n,
{
    let end = elements(s, n).unwrap().1;
    lemma_elements_bounds(s, n);
    if n > 0 {
        let (items, e) = elements(s, (n - 1) as nat).unwrap();
        lemma_elements_bounds(s, (n - 1) as nat);
        assert(s.take(e) =~= s.take(end).take(e));
        assert(t.take(e) =~= t.take(end).take(e));
        lemma_elements_consume_exactly(s, t, (n - 1) as nat);
        assert(s.take(end)[e] == s[e]);
        assert(s.take(end)[e + 1] == s[e + 1]);
        assert(s.take(end)[e + 2] == s[e + 2]);
        assert(s.take(end)[e + 3] == s[e + 3]);
        assert(t.take(end)[e] == t[e]);
        assert(t.take(end)[e + 1] == t[e + 1]);
        assert(t.take(end)[e + 2] == t[e + 2]);
        assert(t.take(end)[e + 3] == t[e + 3]);
        assert(t.subrange(e + 4, end) =~= s.subrange(e + 4, end)) by {
            assert forall|i: int| 0 <= i < end - (e + 4) implies #[trigger] t.subrange(e + 4, end)[i]
                == s.subrange(e + 4, end)[i] by {
                assert(s.take(end)[e + 4 + i] == s[e + 4 + i]);
                assert(t.take(end)[e + 4 + i] == t[e + 4 + i]);
            }
        }
        let all = elements(s, n).unwrap().0;
        assert(all.drop_last() =~= items);
    }
}

/// A list takes exactly its 4-byte count plus 4 bytes and the contents of
/// each element, and its decoding depends on those bytes alone: any input
/// that agrees on them, whatever follows, has the same layout.
pub proof fn lemma_list_consumes_exactly(s: Seq<u8>, t: Seq<u8>)
    requires
        list_layout(s) is Some,
        t.len() >= list_layout(s).unwrap().1,
        t.take(list_layout(s).unwrap().1) == s.take(list_layout(s).unwrap().1),
    ensures
        list_layout(s).unwrap().1 == elements_size(list_layout(s).unwrap().0),
        list_layout(s).unwrap().1 <= s.len(),
        list_layout(t) == list_layout(s),
{
    let end = list_layout(s).unwrap().1;
    let n = i32_at(s, 0) as nat;
    lemma_elements_bounds(s, n);
    assert(s.take(end)[0] == s[0] && s.take(end)[1] == s[1] && s.take(end)[2] == s[2]
        && s.take(end)[3] == s[3]);
    assert(t.take(end)[0] == t[0] && t.take(end)[1] == t[1] && t.take(end)[2] == t[2]
        && t.take(end)[3] == t[3]);
    lemma_elements_consume_exactly(s, t, n);
}

/// Reads the length prefix of the element at `pos` and checks that the
/// element fits in the input.
fn element_len(slice: &[u8], pos: usize) -> (r: Result<usize, DecodeError>)
    requires
        pos <= slice@.len(),
    ensures
        r is Ok <==> (pos + 4 <= slice@.len() && 0 <= i32_at(slice@, pos as int) && pos + 4
            + i32_at(slice@, pos as int) <= slice@.len()),
        r matches Ok(l) ==> l == i32_at(slice@, pos as int) && pos + 4 + l <= slice.len(),
{
    if slice.len() - pos < 4 {
        return Err(DecodeError::Truncated { offset: pos, needed: 4 });
    }
    let len = read_i32(slice, pos);
    if len < 0 {
        return Err(DecodeError::NegativeLength { offset: pos });
    }
    if slice.len() - pos - 4 < len as usize {
        return Err(DecodeError::Truncated { offset: pos + 4, needed: len as usize });
    }
    Ok(len as usize)
}

/// Reads the non-negative 32-bit count at the start of a list or map.
fn element_count(slice: &[u8]) -> (r: Result<usize, DecodeError>)
    ensures
        r is Ok <==> (slice@.len() >= 4 && i32_at(slice@, 0) >= 0),
        r matches Ok(n) ==> n == i32_at(slice@, 0),
{
    if slice.len() < 4 {
        return Err(DecodeError::Truncated { offset: 0, needed: 4 });
    }
    let count = read_i32(slice, 0);
    if count < 0 {
        return Err(DecodeError::NegativeLength { offset: 0 });
    }
    Ok(count as usize)
}

/// Every element of a list holds a value of `E`.
pub open spec fn all_decode<E: ColumnDecoder>(items: Seq<Seq<u8>>) -> bool {
    forall|i: int| 0 <= i < items.len() ==> E::can_decode(#[trigger] items[i], items[i].len() as int)
}

impl<E: ColumnDecoder> ColumnDecoder for Vec<E> {
    /// A list describes its own size; the declared length is not consulted.
    open spec fn can_decode(slice: Seq<u8>, length: int) -> bool {
        list_layout(slice) is Some && all_decode::<E>(list_layout(slice).unwrap().0)
    }

    open spec fn decodes_to(slice: Seq<u8>, length: int, v: Vec<E>) -> bool {
        let items = list_layout(slice).unwrap().0;
        &&& list_layout(slice) is Some
        &&& v@.len() == items.len()
        &&& forall|i: int|
            0 <= i < items.len() ==> E::decodes_to(#[trigger] items[i], items[i].len() as int, v@[i])
    }

    fn decode(slice: &[u8], length: usize) -> (r: Result<Vec<E>, DecodeError>) {
        let n = match element_count(slice) {
            Ok(n) => n,
            Err(e) => {
                return Err(e);
            },
        };
        let mut list: Vec<E> = Vec::new();
        let mut pos: usize = 4;
        let mut i: usize = 0;
        let ghost mut items: Seq<Seq<u8>> = seq![];
        while i < n
            invariant
                slice@.len() >= 4,
                n == i32_at(slice@, 0),
                i <= n,
                4 <= pos <= slice@.len(),
                elements(slice@, i as nat) == Some((items, pos as int)),
                list@.len() == i,
                items.len() == i,
                forall|j: int|
                    0 <= j < i ==> E::decodes_to(
                        #[trigger] items[j],
                        items[j].len() as int,
                        list@[j],
                    ),
                forall|j: int| 0 <= j < i ==> E::can_decode(#[trigger] items[j], items[j].len() as int),
            decreases n - i,
        {
            let len = match element_len(slice, pos) {
                Ok(l) => l,
                Err(e) => {
                    proof {
                        lemma_elements_fail(slice@, (i + 1) as nat, n as nat);
                    }
                    return Err(e);
                },
            };
            let bytes = vstd::slice::slice_subrange(slice, pos + 4, pos + 4 + len);
            proof {
                items = items.push(bytes@);
            }
            match E::decode(bytes, len) {
                Ok(e) => {
                    list.push(e);
                },
                Err(e) => {
                    proof {
                        if list_layout(slice@) is Some {
                            lemma_elements_prefix(slice@, (i + 1) as nat, n as nat);
                            let all = list_layout(slice@).unwrap().0;
                            assert(all[i as int] == items[i as int]);
                        }
                    }
                    return Err(e);
                },
            }
            pos = pos + 4 + len;
            i = i + 1;
        }
        Ok(list)
    }
}

/// The mapping made by inserting the keys and values pairwise, in order: a
/// later pair replaces an earlier one with the same key.
pub open spec fn pairs_map<K, V>(ks: Seq<K>, vs: Seq<V>) -> Map<K, V>
    decreases ks.len(),
{
    if ks.len() == 0 || vs.len() == 0 {
        Map::empty()
    } else {
        pairs_map(ks.drop_last(), vs.drop_last()).insert(ks.last(), vs.last())
    }
}

/// The keys `ks` and values `vs` are what the alternating key and value
/// elements `items` hold.
pub open spec fn pairs_decode<K: ColumnDecoder, V: ColumnDecoder>(
    items: Seq<Seq<u8>>,
    ks: Seq<K>,
    vs: Seq<V>,
) -> bool {
    &&& items.len() == 2 * ks.len()
    &&& vs.len() == ks.len()
    &&& forall|i: int|
        0 <= i < ks.len() ==> K::decodes_to(
            #[trigger] items[2 * i],
            items[2 * i].len() as int,
            ks[i],
        ) && V::decodes_to(items[2 * i + 1], items[2 * i + 1].len() as int, vs[i])
}

/// Each of the first `n` key and value elements holds a value of its type.
pub open spec fn pairs_can_decode<K: ColumnDecoder, V: ColumnDecoder>(
    items: Seq<Seq<u8>>,
    n: int,
) -> bool {
    forall|i: int|
        0 <= i < n ==> K::can_decode(#[trigger] items[2 * i], items[2 * i].len() as int)
            && V::can_decode(items[2 * i + 1], items[2 * i + 1].len() as int)
}

proof fn lemma_pairs_step<K: ColumnDecoder, V: ColumnDecoder>(
    items: Seq<Seq<u8>>,
    ks: Seq<K>,
    vs: Seq<V>,
    kb: Seq<u8>,
    vb: Seq<u8>,
    k: K,
    v: V,
)
    requires
        pairs_decode(items, ks, vs),
        pairs_can_decode::<K, V>(items, ks.len() as int),
        K::can_decode(kb, kb.len() as int),
        V::can_decode(vb, vb.len() as int),
        K::decodes_to(kb, kb.len() as int, k),
        V::decodes_to(vb, vb.len() as int, v),
    ensures
        pairs_decode(items.push(kb).push(vb), ks.push(k), vs.push(v)),
        pairs_can_decode::<K, V>(items.push(kb).push(vb), ks.len() as int + 1),
{
    let p = items.push(kb).push(vb);
    let n = ks.len() as int;
    assert(p[2 * n] == kb);
    assert(p[2 * n + 1] == vb);
    assert forall|j: int| 0 <= j < n + 1 implies K::can_decode(
        #[trigger] p[2 * j],
        p[2 * j].len() as int,
    ) && V::can_decode(p[2 * j + 1], p[2 * j + 1].len() as int) by {
        if j < n {
            assert(p[2 * j] == items[2 * j]);
            assert(p[2 * j + 1] == items[2 * j + 1]);
        }
    }
    let ks2 = ks.push(k);
    let vs2 = vs.push(v);
    assert forall|j: int| 0 <= j < n + 1 implies K::decodes_to(
        #[trigger] p[2 * j],
        p[2 * j].len() as int,
        ks2[j],
    ) && V::decodes_to(p[2 * j + 1], p[2 * j + 1].len() as int, vs2[j]) by {
        if j < n {
            assert(p[2 * j] == items[2 * j]);
            assert(p[2 * j + 1] == items[2 * j + 1]);
        }
    }
}

impl<K, V, S> ColumnDecoder for HashMap<K, V, S> where
    K: Eq + Hash + ColumnDecoder,
    V: ColumnDecoder,
    S: BuildHasher + Default,
 {
    /// A map describes its own size; the declared length is not consulted.
    open spec fn can_decode(slice: Seq<u8>, length: int) -> bool {
        let items = map_layout(slice).unwrap().0;
        &&& map_layout(slice) is Some
        &&& pairs_can_decode::<K, V>(items, items.len() as int / 2)
    }

    /// Where the key type's hashing is modelled, the map holds each decoded
    /// pair, the last one winning among equal keys.
    open spec fn decodes_to(slice: Seq<u8>, length: int, v: HashMap<K, V, S>) -> bool {
        let items = map_layout(slice).unwrap().0;
        &&& map_layout(slice) is Some
        &&& exists|ks: Seq<K>, vs: Seq<V>|
            #[trigger] pairs_decode(items, ks, vs) && (obeys_key_model::<K>()
                && builds_valid_hashers::<S>() ==> v@ == pairs_map(ks, vs))
    }

    fn decode(slice: &[u8], length: usize) -> (r: Result<HashMap<K, V, S>, DecodeError>) {
        let n = match element_count(slice) {
            Ok(n) => n,
            Err(e) => {
                return Err(e);
            },
        };
        let mut map: HashMap<K, V, S> = HashMap::default();
        let mut pos: usize = 4;
        let mut i: usize = 0;
        let ghost mut items: Seq<Seq<u8>> = seq![];
        let ghost mut ks: Seq<K> = seq![];
        let ghost mut vs: Seq<V> = seq![];
        while i < n
            invariant
                slice@.len() >= 4,
                n == i32_at(slice@, 0),
                i <= n,
                4 <= pos <= slice@.len(),
                elements(slice@, 2 * i as nat) == Some((items, pos as int)),
                pairs_decode(items, ks, vs),
                ks.len() == i,
                pairs_can_decode::<K, V>(items, i as int),
                obeys_key_model::<K>() && builds_valid_hashers::<S>() ==> map@ == pairs_map(ks, vs),
            decreases n - i,
        {
            let klen = match element_len(slice, pos) {
                Ok(l) => l,
                Err(e) => {
                    proof {
                        lemma_elements_fail(slice@, (2 * i + 1) as nat, 2 * n as nat);
                    }
                    return Err(e);
                },
            };
            let kbytes = vstd::slice::slice_subrange(slice, pos + 4, pos + 4 + klen);
            let vpos = pos + 4 + klen;
            let ghost kitems = items.push(kbytes@);
            assert(elements(slice@, (2 * i + 1) as nat) == Some((kitems, vpos as int)));
            let vlen = match element_len(slice, vpos) {
                Ok(l) => l,
                Err(e) => {
                    proof {
                        lemma_elements_fail(slice@, (2 * i + 2) as nat, 2 * n as nat);
                    }
                    return Err(e);
                },
            };
            let vbytes = vstd::slice::slice_subrange(slice, vpos + 4, vpos + 4 + vlen);
            let ghost pitems = kitems.push(vbytes@);
            assert(elements(slice@, (2 * i + 2) as nat) == Some((pitems, (vpos + 4 + vlen) as int)));
            assert(pitems[2 * i as int] == kbytes@);
            assert(pitems[2 * i as int + 1] == vbytes@);
            let k = match K::decode(kbytes, klen) {
                Ok(k) => k,
                Err(e) => {
                    proof {
                        if map_layout(slice@) is Some {
                            lemma_elements_prefix(slice@, (2 * i + 2) as nat, 2 * n as nat);
                            let all = map_layout(slice@).unwrap().0;
                            assert(all[2 * i as int] == pitems[2 * i as int]);
                        }
                    }
                    return Err(e);
                },
            };
            let v = match V::decode(vbytes, vlen) {
                Ok(v) => v,
                Err(e) => {
                    proof {
                        if map_layout(slice@) is Some {
                            lemma_elements_prefix(slice@, (2 * i + 2) as nat, 2 * n as nat);
                            let all = map_layout(slice@).unwrap().0;
                            assert(all[2 * i as int + 1] == pitems[2 * i as int + 1]);
                            assert(all[2 * i as int] == pitems[2 * i as int]);
                            assert(i < all.len() / 2);
                        }
                    }
                    return Err(e);
                },
            };
            proof {
                let ks2 = ks.push(k);
                let vs2 = vs.push(v);
                assert(ks2.drop_last() =~= ks);
                assert(vs2.drop_last() =~= vs);
                lemma_pairs_step::<K, V>(items, ks, vs, kbytes@, vbytes@, k, v);
                items = pitems;
                ks = ks2;
                vs = vs2;
            }
            map.insert(k, v);
            pos = vpos + 4 + vlen;
            i = i + 1;
        }
        proof {
            assert(pairs_decode(map_layout(slice@).unwrap().0, ks, vs));
        }
        Ok(map)
    }
}

} // verus!
