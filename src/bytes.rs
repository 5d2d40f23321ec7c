//! Big-endian integers and length-prefixed strings: the primitive readers
//! shared by header and body parsing.
use vstd::prelude::*;
use vstd::utf8::{decode_utf8, valid_utf8};

verus! {

/// Why a piece of wire data could not be decoded.
#[derive(Debug, Clone, Copy, PartialEq, Eq)]
pub enum DecodeError {
    /// The input ends before a field starting at `offset` that needs `needed` bytes.
    Truncated { offset: usize, needed: usize },
    /// A length or count field at `offset` holds a negative value.
    NegativeLength { offset: usize },
    /// A fixed-size value was declared with another length.
    LengthMismatch { expected: usize, actual: usize },
    /// A string field is not well-formed UTF-8.
    InvalidUtf8,
}

/// `256^n`.
pub open spec fn pow256(n: nat) -> nat
    decreases n,
{
    if n == 0 {
        1
    } else {
        256 * pow256((n - 1) as nat)
    }
}

/// The unsigned number written big-endian in `s`.
pub open spec fn be_uint(s: Seq<u8>) -> nat
    decreases s.len(),
{
    if s.len() == 0 {
        0
    } else {
        (be_uint(s.drop_last()) * 256 + s.last()) as nat
    }
}

/// The signed (two's complement) number written big-endian in `s`.
pub open spec fn be_int(s: Seq<u8>) -> int {
    let u = be_uint(s);
    if s.len() > 0 && u >= pow256(s.len()) / 2 {
        u - pow256(s.len())
    } else {
        u as int
    }
}

/// The `len` big-endian bytes of `n` modulo `256^len`.
pub open spec fn be_bytes(n: nat, len: nat) -> Seq<u8>
    decreases len,
{
    if len == 0 {
        seq![]
    } else {
        be_bytes(n / 256, (len - 1) as nat).push((n % 256) as u8)
    }
}

/// The two's complement representative of `v` on `len` bytes.
pub open spec fn twos(v: int, len: nat) -> nat {
    if v < 0 {
        (v + pow256(len)) as nat
    } else {
        v as nat
    }
}

/// The unsigned 16-bit big-endian field at `pos`.
pub open spec fn u16_at(s: Seq<u8>, pos: int) -> int {
    s[pos] * 256 + s[pos + 1]
}

/// The signed 32-bit big-endian field at `pos`.
pub open spec fn i32_at(s: Seq<u8>, pos: int) -> int {
    let u = s[pos] * 16777216 + s[pos + 1] * 65536 + s[pos + 2] * 256 + s[pos + 3];
    if u >= 0x8000_0000 {
        u - 0x1_0000_0000
    } else {
        u
    }
}

pub proof fn lemma_pow256_positive(n: nat)
    ensures
        pow256(n) >= 1,
    decreases n,
{
    if n > 0 {
        lemma_pow256_positive((n - 1) as nat);
    }
}

pub proof fn lemma_be_uint_bound(s: Seq<u8>)
    ensures
        be_uint(s) < pow256(s.len()),
    decreases s.len(),
{
    if s.len() > 0 {
        lemma_be_uint_bound(s.drop_last());
        let a = be_uint(s.drop_last());
        let p = pow256((s.len() - 1) as nat);
        let b = s.last() as int;
        assert(a * 256 + b < 256 * p) by (nonlinear_arith)
            requires
                a < p,
                0 <= b < 256,
        ;
    }
}

pub proof fn lemma_be_bytes_len(n: nat, len: nat)
    ensures
        be_bytes(n, len).len() == len,
    decreases len,
{
    if len > 0 {
        lemma_be_bytes_len(n / 256, (len - 1) as nat);
    }
}

/// Reading back `len` big-endian bytes of `n` gives `n` modulo `256^len`.
pub proof fn lemma_be_round_trip(n: nat, len: nat)
    ensures
        be_bytes(n, len).len() == len,
        be_uint(be_bytes(n, len)) == n % pow256(len),
    decreases len,
{
    lemma_be_bytes_len(n, len);
    if len > 0 {
        let m = (len - 1) as nat;
        lemma_be_round_trip(n / 256, m);
        let s = be_bytes(n, len);
        assert(s.drop_last() =~= be_bytes(n / 256, m));
        lemma_pow256_positive(m);
        vstd::arithmetic::div_mod::lemma_mod_breakdown(n as int, 256, pow256(m) as int);
    } else {
        assert(n % 1 == 0);
    }
}

/// Reading back the two's complement bytes of an in-range `v` gives `v`.
pub proof fn lemma_be_signed_round_trip(v: int, len: nat)
    requires
        len > 0,
        -(pow256(len) / 2) <= v < pow256(len) / 2,
    ensures
        be_bytes(twos(v, len), len).len() == len,
        be_int(be_bytes(twos(v, len), len)) == v,
{
    lemma_be_round_trip(twos(v, len), len);
    lemma_pow256_positive(len);
    let p = pow256(len) as int;
    let u = twos(v, len) as int;
    assert(0 <= u < p);
    vstd::arithmetic::div_mod::lemma_small_mod(u as nat, p as nat);
}

/// Reads the unsigned 16-bit big-endian field at `pos`.
pub fn read_u16(s: &[u8], pos: usize) -> (r: u16)
    requires
        pos + 2 <= s@.len(),
    ensures
        r as int == u16_at(s@, pos as int),
{
    (s[pos] as u16) * 256 + (s[pos + 1] as u16)
}

/// Reads the signed 32-bit big-endian field at `pos`.
pub fn read_i32(s: &[u8], pos: usize) -> (r: i32)
    requires
        pos + 4 <= s@.len(),
    ensures
        r as int == i32_at(s@, pos as int),
{
    let u: u64 = (s[pos] as u64) * 16777216 + (s[pos + 1] as u64) * 65536 + (s[pos + 2] as u64)
        * 256 + (s[pos + 3] as u64);
    if u >= 0x8000_0000 {
        (u as i64 - 0x1_0000_0000) as i32
    } else {
        u as i32
    }
}

/// Reads the first `len` bytes of `s` as an unsigned big-endian number.
pub fn read_be(s: &[u8], len: usize) -> (r: u64)
    requires
        len <= 8,
        len <= s@.len(),
    ensures
        r as int == be_uint(s@.take(len as int)),
{
    let mut r: u64 = 0;
    let mut i: usize = 0;
    while i < len
        invariant
            i <= len <= 8,
            len <= s@.len(),
            r as int == be_uint(s@.take(i as int)),
        decreases len - i,
    {
        proof {
            lemma_be_uint_bound(s@.take(i as int));
            assert(s@.take(i as int + 1).drop_last() =~= s@.take(i as int));
            reveal_with_fuel(pow256, 9);
            lemma_pow256_monotone(i as nat, 7);
            assert(r * 256 + s@[i as int] < 0x1_0000_0000_0000_0000) by (nonlinear_arith)
                requires
                    r < pow256(i as nat),
                    pow256(i as nat) <= pow256(7),
                    pow256(7) == 0x100_0000_0000_0000,
                    s@[i as int] < 256,
            ;
        }
        r = r * 256 + s[i] as u64;
        i = i + 1;
    }
    r
}

proof fn lemma_pow256_monotone(a: nat, b: nat)
    requires
        a <= b,
    ensures
        pow256(a) <= pow256(b),
    decreases b,
{
    if a < b {
        lemma_pow256_monotone(a, (b - 1) as nat);
        lemma_pow256_positive((b - 1) as nat);
    }
}

/// Appends the `len` big-endian bytes of `n`.
pub fn push_be(buffer: &mut Vec<u8>, n: u64, len: usize)
    ensures
        final(buffer)@ == old(buffer)@ + be_bytes(n as nat, len as nat),
    decreases len,
{
    if len == 0 {
        assert(old(buffer)@ + seq![] =~= old(buffer)@);
    } else {
        push_be(buffer, n / 256, len - 1);
        buffer.push((n % 256) as u8);
        proof {
            let pre = old(buffer)@;
            let tail = be_bytes((n / 256) as nat, (len - 1) as nat);
            assert(pre + tail.push((n % 256) as u8) =~= (pre + tail).push((n % 256) as u8));
        }
    }
}

/// Relies on `std::str::from_utf8`: it succeeds exactly on well-formed UTF-8
/// and then views the same bytes as text.
#[verifier::external_body]
fn utf8_strict(b: &[u8]) -> (r: Option<&str>)
    ensures
        r is Some <==> valid_utf8(b@),
        r matches Some(s) ==> s@ == decode_utf8(b@),
{
    std::str::from_utf8(b).ok()
}

/// What `String::from_utf8_lossy` makes of a byte sequence.
pub uninterp spec fn utf8_lossy(b: Seq<u8>) -> Seq<char>;

/// Relies on `String::from_utf8_lossy`: ill-formed sequences become U+FFFD,
/// and well-formed input is decoded unchanged.
#[verifier::external_body]
fn utf8_replacing(b: &[u8]) -> (r: String)
    ensures
        r@ == utf8_lossy(b@),
        valid_utf8(b@) ==> r@ == decode_utf8(b@),
{
    String::from_utf8_lossy(b).into_owned()
}

/// The text of exactly the bytes `b`, or `InvalidUtf8`.
pub fn utf8_text(b: &[u8]) -> (r: Result<String, DecodeError>)
    ensures
        r is Ok <==> valid_utf8(b@),
        r matches Ok(s) ==> s@ == decode_utf8(b@),
        r matches Err(e) ==> e == DecodeError::InvalidUtf8,
{
    match utf8_strict(b) {
        Some(s) => Ok(s.to_owned()),
        None => Err(DecodeError::InvalidUtf8),
    }
}


/// The first `n` short strings (a 16-bit length, then that many bytes) from
/// offset `pos`: the bytes of each and the offset just past the last one.
pub open spec fn short_strings(s: Seq<u8>, pos: int, n: nat) -> Option<(Seq<Seq<u8>>, int)>
    decreases n,
{
    if n == 0 {
        Some((seq![], pos))
    } else {
        match short_strings(s, pos, (n - 1) as nat) {
            None => None,
            Some((items, end)) => {
                if end + 2 <= s.len() && end + 2 + u16_at(s, end) <= s.len() {
                    let next = end + 2 + u16_at(s, end);
                    Some((items.push(s.subrange(end + 2, next)), next))
                } else {
                    None
                }
            },
        }
    }
}

/// A string list at the start of `s`: a 16-bit count, then that many short
/// strings. Gives the bytes of each string and the list's encoded length.
pub open spec fn string_list_layout(s: Seq<u8>) -> Option<(Seq<Seq<u8>>, int)> {
    if s.len() >= 2 {
        short_strings(s, 2, u16_at(s, 0) as nat)
    } else {
        None
    }
}

/// The encoded length of a string list with elements of these byte lengths.
pub open spec fn string_list_size(items: Seq<Seq<u8>>) -> int
    decreases items.len(),
{
    if items.len() == 0 {
        2
    } else {
        string_list_size(items.drop_last()) + 2 + items.last().len()
    }
}

proof fn lemma_short_strings_fail(s: Seq<u8>, pos: int, k: nat, n: nat)
    requires
        k <= n,
        short_strings(s, pos, k) is None,
    ensures
        short_strings(s, pos, n) is None,
    decreases n,
{
    if k < n {
        lemma_short_strings_fail(s, pos, k, (n - 1) as nat);
    }
}

/// A string list takes its 2-byte count, then 2 bytes and the contents of
/// each string, and lies within the input.
pub proof fn lemma_string_list_fits(s: Seq<u8>)
    requires
        string_list_layout(s) is Some,
    ensures
        ({
            let (items, end) = string_list_layout(s).unwrap();
            &&& items.len() == u16_at(s, 0)
            &&& end == string_list_size(items)
            &&& 2 <= end <= s.len()
        }),
{
    lemma_short_strings_shape(s, u16_at(s, 0) as nat);
}

proof fn lemma_short_strings_shape(s: Seq<u8>, n: nat)
    requires
        s.len() >= 2,
        short_strings(s, 2, n) is Some,
    ensures
        ({
            let (items, end) = short_strings(s, 2, n).unwrap();
            &&& items.len() == n
            &&& end == string_list_size(items)
            &&& 2 <= end <= s.len()
        }),
    decreases n,
{
    if n > 0 {
        lemma_short_strings_shape(s, (n - 1) as nat);
        let (items, end) = short_strings(s, 2, (n - 1) as nat).unwrap();
        let (items2, end2) = short_strings(s, 2, n).unwrap();
        assert(items2.drop_last() =~= items);
    }
}

/// Reads a string list and reports how many bytes it takes. Strings are
/// decoded leniently: ill-formed UTF-8 is replaced, not rejected.
pub fn string_list_sized(slice: &[u8]) -> (r: Result<(Vec<String>, usize), DecodeError>)
    ensures
        r is Ok <==> string_list_layout(slice@) is Some,
        r matches Ok((v, end)) ==> {
            let (items, e) = string_list_layout(slice@).unwrap();
            &&& end == e
            &&& end == string_list_size(items)
            &&& v@.len() == items.len()
            &&& forall|i: int| 0 <= i < items.len() ==> #[trigger] v@[i]@ == utf8_lossy(items[i])
        },
{
    if slice.len() < 2 {
        return Err(DecodeError::Truncated { offset: 0, needed: 2 });
    }
    let n = read_u16(slice, 0) as usize;
    let mut list: Vec<String> = Vec::new();
    let mut pos: usize = 2;
    let mut i: usize = 0;
    let ghost mut items: Seq<Seq<u8>> = seq![];
    while i < n
        invariant
            i <= n,
            n == u16_at(slice@, 0),
            slice@.len() >= 2,
            pos <= slice@.len(),
            short_strings(slice@, 2, i as nat) == Some((items, pos as int)),
            list@.len() == i,
            items.len() == i,
            forall|j: int| 0 <= j < i ==> #[trigger] list@[j]@ == utf8_lossy(items[j]),
        decreases n - i,
    {
        if slice.len() - pos < 2 {
            proof {
                lemma_short_strings_fail(slice@, 2, (i + 1) as nat, n as nat);
            }
            return Err(DecodeError::Truncated { offset: pos, needed: 2 });
        }
        let len = read_u16(slice, pos) as usize;
        if slice.len() - pos - 2 < len {
            proof {
                lemma_short_strings_fail(slice@, 2, (i + 1) as nat, n as nat);
            }
            return Err(DecodeError::Truncated { offset: pos + 2, needed: len });
        }
        let bytes = vstd::slice::slice_subrange(slice, pos + 2, pos + 2 + len);
        let text = utf8_replacing(bytes);
        let ghost prev = list@;
        list.push(text);
        proof {
            items = items.push(slice@.subrange(pos + 2, pos + 2 + len));
            assert forall|j: int| 0 <= j < i + 1 implies #[trigger] list@[j]@ == utf8_lossy(
                items[j],
            ) by {
                if j < i {
                    assert(list@[j] == prev[j]);
                }
            }
        }
        pos = pos + 2 + len;
        i = i + 1;
    }
    proof {
        lemma_short_strings_shape(slice@, n as nat);
    }
    Ok((list, pos))
}

/// Reads a string list: a 16-bit count, then that many short strings, each
/// decoded leniently (ill-formed UTF-8 is replaced, not rejected).
pub fn string_list(slice: &[u8]) -> (r: Result<Vec<String>, DecodeError>)
    ensures
        r is Ok <==> string_list_layout(slice@) is Some,
        r matches Ok(v) ==> {
            let (items, e) = string_list_layout(slice@).unwrap();
            &&& v@.len() == items.len()
            &&& forall|i: int| 0 <= i < items.len() ==> #[trigger] v@[i]@ == utf8_lossy(items[i])
        },
{
    match string_list_sized(slice) {
        Ok((list, _)) => Ok(list),
        Err(e) => Err(e),
    }
}

/// The bytes of the short string at the start of `s`, if it fits.
pub open spec fn short_string_bytes(s: Seq<u8>) -> Option<Seq<u8>> {
    if s.len() >= 2 && 2 + u16_at(s, 0) <= s.len() {
        Some(s.subrange(2, 2 + u16_at(s, 0)))
    } else {
        None
    }
}

/// Reads a short string (a 16-bit length, then that many bytes), which must
/// be well-formed UTF-8.
pub fn str(slice: &[u8]) -> (r: Result<&str, DecodeError>)
    ensures
        r is Ok <==> (short_string_bytes(slice@) is Some && valid_utf8(short_string_bytes(slice@).unwrap())),
        r matches Ok(t) ==> t@ == decode_utf8(short_string_bytes(slice@).unwrap()),
{
    if slice.len() < 2 {
        return Err(DecodeError::Truncated { offset: 0, needed: 2 });
    }
    let len = read_u16(slice, 0) as usize;
    if slice.len() - 2 < len {
        return Err(DecodeError::Truncated { offset: 2, needed: len });
    }
    match utf8_strict(vstd::slice::slice_subrange(slice, 2, 2 + len)) {
        Some(t) => Ok(t),
        None => Err(DecodeError::InvalidUtf8),
    }
}

/// Reads a short string as an owned `String`; see [`str`].
pub fn string(slice: &[u8]) -> (r: Result<String, DecodeError>)
    ensures
        r is Ok <==> (short_string_bytes(slice@) is Some && valid_utf8(short_string_bytes(slice@).unwrap())),
        r matches Ok(t) ==> t@ == decode_utf8(short_string_bytes(slice@).unwrap()),
{
    match str(slice) {
        Ok(t) => Ok(t.to_owned()),
        Err(e) => Err(e),
    }
}


/// Copies the first `N` bytes of `s` into an array.
pub fn copy_array<const N: usize>(s: &[u8]) -> (r: [u8; N])
    requires
        N <= s@.len(),
    ensures
        r@ == s@.take(N as int),
{
    let mut a: [u8; N] = [0u8; N];
    let mut i: usize = 0;
    while i < N
        invariant
            i <= N <= s@.len(),
            forall|j: int| 0 <= j < i ==> #[trigger] a@[j] == s@[j],
        decreases N - i,
    {
        a[i] = s[i];
        i = i + 1;
    }
    assert(a@ =~= s@.take(N as int));
    a
}

/// Appends the bytes of `s`.
pub fn push_bytes(buffer: &mut Vec<u8>, s: &[u8])
    ensures
        final(buffer)@ == old(buffer)@ + s@,
{
    let mut i: usize = 0;
    while i < s.len()
        invariant
            i <= s@.len(),
            buffer@ == old(buffer)@ + s@.take(i as int),
        decreases s@.len() - i,
    {
        buffer.push(s[i]);
        i = i + 1;
        assert(s@.take(i as int) == s@.take(i - 1).push(s@[i - 1]));
    }
    assert(s@.take(s@.len() as int) =~= s@);
}

} // verus!
