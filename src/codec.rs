//! Big-endian, fixed-width binary codec shared by every stored row.
//!
//! Decoding tolerates trailing bytes: a value is read from the front of the
//! input and the number of bytes it took is returned beside it.
use vstd::prelude::*;

verus! {

/// A value with a byte layout and a decoder that inverts it.
pub trait Codec: Sized {
    /// The values that may be stored.
    spec fn valid(self) -> bool;

    /// The bytes that `encode` appends for this value.
    spec fn encoding(self) -> Seq<u8>;

    /// What `decode` reads from the front of `bytes`, with the number of
    /// bytes that it took.
    spec fn parse(bytes: Seq<u8>) -> Option<(Self, nat)>;

    /// Decoding the encoding of a valid value, whatever follows it, gives the
    /// value back and takes exactly its encoding.
    proof fn lemma_round_trip(self, rest: Seq<u8>)
        requires
            self.valid(),
        ensures
            Self::parse(self.encoding() + rest) == Some((self, self.encoding().len())),
    ;

    /// Whatever is decoded is valid and takes no more than the input.
    proof fn lemma_parse_valid(bytes: Seq<u8>)
        ensures
            Self::parse(bytes) matches Some((v, n)) ==> v.valid() && n <= bytes.len(),
    ;

    fn encode(&self, buffer: &mut Vec<u8>)
        ensures
            final(buffer)@ == old(buffer)@ + self.encoding(),
    ;

    /// Reads a value from `bytes` starting at `pos`; returns it with the
    /// position just past it.
    fn decode_at(bytes: &[u8], pos: usize) -> (r: Option<(Self, usize)>)
        requires
            pos <= bytes@.len(),
        ensures
            match Self::parse(bytes@.skip(pos as int)) {
                None => r is None,
                Some((v, n)) => r == Some((v, (pos + n) as usize)),
            },
    ;
}

pub open spec fn be_u16(s: Seq<u8>) -> u16 {
    ((s[0] as u16) << 8u16) | (s[1] as u16)
}

pub open spec fn be_u32(s: Seq<u8>) -> u32 {
    ((s[0] as u32) << 24u32) | ((s[1] as u32) << 16u32) | ((s[2] as u32) << 8u32) | (s[3] as u32)
}

pub open spec fn u16_bytes(x: u16) -> Seq<u8> {
    seq![(x >> 8u16) as u8, x as u8]
}

pub open spec fn u32_bytes(x: u32) -> Seq<u8> {
    seq![(x >> 24u32) as u8, (x >> 16u32) as u8, (x >> 8u32) as u8, x as u8]
}

/// A `u64` is its high word followed by its low word.
pub open spec fn u64_bytes(x: u64) -> Seq<u8> {
    u32_bytes((x >> 32u64) as u32) + u32_bytes(x as u32)
}

pub open spec fn be_u64(s: Seq<u8>) -> u64 {
    ((be_u32(s) as u64) << 32u64) | (be_u32(s.skip(4)) as u64)
}

proof fn lemma_u16_bits(x: u16)
    ensures
        x == ((((x >> 8u16) as u8) as u16) << 8u16) | ((x as u8) as u16),
{
    assert(x == ((((x >> 8u16) as u8) as u16) << 8u16) | ((x as u8) as u16)) by (bit_vector);
}

proof fn lemma_u32_bits(x: u32)
    ensures
        x == ((((x >> 24u32) as u8) as u32) << 24u32) | ((((x >> 16u32) as u8) as u32) << 16u32)
            | ((((x >> 8u32) as u8) as u32) << 8u32) | ((x as u8) as u32),
{
    assert(x == ((((x >> 24u32) as u8) as u32) << 24u32) | ((((x >> 16u32) as u8) as u32) << 16u32)
        | ((((x >> 8u32) as u8) as u32) << 8u32) | ((x as u8) as u32)) by (bit_vector);
}

proof fn lemma_u64_bits(x: u64)
    ensures
        x == ((((x >> 32u64) as u32) as u64) << 32u64) | ((x as u32) as u64),
{
    assert(x == ((((x >> 32u64) as u32) as u64) << 32u64) | ((x as u32) as u64)) by (bit_vector);
}

pub proof fn lemma_u32_round_trip(x: u32, rest: Seq<u8>)
    ensures
        (u32_bytes(x) + rest).len() >= 4,
        be_u32(u32_bytes(x) + rest) == x,
{
    lemma_u32_bits(x);
}

impl Codec for u8 {
    open spec fn valid(self) -> bool {
        true
    }

    open spec fn encoding(self) -> Seq<u8> {
        seq![self]
    }

    open spec fn parse(bytes: Seq<u8>) -> Option<(u8, nat)> {
        if bytes.len() >= 1 {
            Some((bytes[0], 1))
        } else {
            None
        }
    }

    proof fn lemma_round_trip(self, rest: Seq<u8>) {
    }

    proof fn lemma_parse_valid(bytes: Seq<u8>) {
    }

    fn encode(&self, buffer: &mut Vec<u8>) {
        buffer.push(*self);
        assert(buffer@ =~= old(buffer)@ + self.encoding());
    }

    fn decode_at(bytes: &[u8], pos: usize) -> (r: Option<(u8, usize)>) {
        if bytes.len() - pos >= 1 {
            Some((bytes[pos], pos + 1))
        } else {
            None
        }
    }
}

impl Codec for u16 {
    open spec fn valid(self) -> bool {
        true
    }

    open spec fn encoding(self) -> Seq<u8> {
        u16_bytes(self)
    }

    open spec fn parse(bytes: Seq<u8>) -> Option<(u16, nat)> {
        if bytes.len() >= 2 {
            Some((be_u16(bytes), 2))
        } else {
            None
        }
    }

    proof fn lemma_round_trip(self, rest: Seq<u8>) {
        lemma_u16_bits(self);
    }

    proof fn lemma_parse_valid(bytes: Seq<u8>) {
    }

    fn encode(&self, buffer: &mut Vec<u8>) {
        let x = *self;
        buffer.push((x >> 8u16) as u8);
        buffer.push(x as u8);
        assert(buffer@ =~= old(buffer)@ + self.encoding());
    }

    fn decode_at(bytes: &[u8], pos: usize) -> (r: Option<(u16, usize)>) {
        if bytes.len() - pos >= 2 {
            let v = ((bytes[pos] as u16) << 8u16) | (bytes[pos + 1] as u16);
            Some((v, pos + 2))
        } else {
            None
        }
    }
}

impl Codec for u32 {
    open spec fn valid(self) -> bool {
        true
    }

    open spec fn encoding(self) -> Seq<u8> {
        u32_bytes(self)
    }

    open spec fn parse(bytes: Seq<u8>) -> Option<(u32, nat)> {
        if bytes.len() >= 4 {
            Some((be_u32(bytes), 4))
        } else {
            None
        }
    }

    proof fn lemma_round_trip(self, rest: Seq<u8>) {
        lemma_u32_bits(self);
    }

    proof fn lemma_parse_valid(bytes: Seq<u8>) {
    }

    fn encode(&self, buffer: &mut Vec<u8>) {
        push_u32(buffer, *self);
    }

    fn decode_at(bytes: &[u8], pos: usize) -> (r: Option<(u32, usize)>) {
        if bytes.len() - pos >= 4 {
            Some((read_u32(bytes, pos), pos + 4))
        } else {
            None
        }
    }
}

impl Codec for u64 {
    open spec fn valid(self) -> bool {
        true
    }

    open spec fn encoding(self) -> Seq<u8> {
        u64_bytes(self)
    }

    open spec fn parse(bytes: Seq<u8>) -> Option<(u64, nat)> {
        if bytes.len() >= 8 {
            Some((be_u64(bytes), 8))
        } else {
            None
        }
    }

    proof fn lemma_round_trip(self, rest: Seq<u8>) {
        let hi = (self >> 32u64) as u32;
        let lo = self as u32;
        let s = self.encoding() + rest;
        assert(s =~= u32_bytes(hi) + (u32_bytes(lo) + rest));
        lemma_u32_round_trip(hi, u32_bytes(lo) + rest);
        assert(s.skip(4) =~= u32_bytes(lo) + rest);
        lemma_u32_round_trip(lo, rest);
        lemma_u64_bits(self);
    }

    proof fn lemma_parse_valid(bytes: Seq<u8>) {
    }

    fn encode(&self, buffer: &mut Vec<u8>) {
        let x = *self;
        push_u32(buffer, (x >> 32u64) as u32);
        push_u32(buffer, x as u32);
        assert(buffer@ =~= old(buffer)@ + self.encoding());
    }

    fn decode_at(bytes: &[u8], pos: usize) -> (r: Option<(u64, usize)>) {
        if bytes.len() - pos >= 8 {
            let hi = read_u32(bytes, pos);
            let lo = read_u32(bytes, pos + 4);
            assert(bytes@.skip(pos as int).skip(4) =~= bytes@.skip(pos + 4));
            Some((((hi as u64) << 32u64) | (lo as u64), pos + 8))
        } else {
            None
        }
    }
}

/// Appends the four big-endian bytes of `x`.
pub fn push_u32(buffer: &mut Vec<u8>, x: u32)
    ensures
        final(buffer)@ == old(buffer)@ + u32_bytes(x),
{
    buffer.push((x >> 24u32) as u8);
    buffer.push((x >> 16u32) as u8);
    buffer.push((x >> 8u32) as u8);
    buffer.push(x as u8);
    assert(buffer@ =~= old(buffer)@ + u32_bytes(x));
}

/// Reads four big-endian bytes at `pos`.
pub fn read_u32(bytes: &[u8], pos: usize) -> (r: u32)
    requires
        pos + 4 <= bytes@.len(),
    ensures
        r == be_u32(bytes@.skip(pos as int)),
{
    ((bytes[pos] as u32) << 24u32) | ((bytes[pos + 1] as u32) << 16u32) | ((bytes[pos + 2] as u32)
        << 8u32) | (bytes[pos + 3] as u32)
}

/// Appends every byte of `src`.
pub fn push_bytes(buffer: &mut Vec<u8>, src: &[u8])
    ensures
        final(buffer)@ == old(buffer)@ + src@,
{
    let mut i: usize = 0;
    while i < src.len()
        invariant
            i <= src@.len(),
            buffer@ == old(buffer)@ + src@.take(i as int),
        decreases src@.len() - i,
    {
        buffer.push(src[i]);
        i += 1;
        assert(buffer@ =~= old(buffer)@ + src@.take(i as int));
    }
    assert(src@.take(i as int) =~= src@);
}

/// Copies the `N` bytes at `pos` into an array.
pub fn read_array<const N: usize>(bytes: &[u8], pos: usize) -> (r: [u8; N])
    requires
        pos + N <= bytes@.len(),
    ensures
        r@ == bytes@.subrange(pos as int, pos + N),
{
    let mut out: [u8; N] = [0u8; N];
    let mut i: usize = 0;
    let len = bytes.len();
    while i < N
        invariant
            len == bytes@.len(),
            pos + N <= len,
            i <= N,
            out@.len() == N,
            forall|j: int| 0 <= j < i ==> out@[j] == bytes@[pos + j],
        decreases N - i,
    {
        let b = bytes[pos + i];
        out[i] = b;
        i += 1;
    }
    assert(out@ =~= bytes@.subrange(pos as int, pos + N));
    out
}

/// The array whose view is `s`.
pub open spec fn array_of<const N: usize>(s: Seq<u8>) -> [u8; N] {
    choose|a: [u8; N]| a@ == s
}

pub proof fn lemma_array_of<const N: usize>(a: [u8; N])
    ensures
        array_of::<N>(a@) == a,
{
    let c = array_of::<N>(a@);
    assert(c@ == a@);
    assert(c =~= a);
}

/// A fixed-length byte string is stored as its bytes, with no length prefix.
impl<const N: usize> Codec for [u8; N] {
    open spec fn valid(self) -> bool {
        true
    }

    open spec fn encoding(self) -> Seq<u8> {
        self@
    }

    open spec fn parse(bytes: Seq<u8>) -> Option<([u8; N], nat)> {
        if bytes.len() >= N {
            Some((array_of::<N>(bytes.take(N as int)), N as nat))
        } else {
            None
        }
    }

    proof fn lemma_round_trip(self, rest: Seq<u8>) {
        assert((self@ + rest).take(N as int) =~= self@);
        lemma_array_of::<N>(self);
    }

    proof fn lemma_parse_valid(bytes: Seq<u8>) {
    }

    fn encode(&self, buffer: &mut Vec<u8>) {
        push_bytes(buffer, self.as_slice());
    }

    fn decode_at(bytes: &[u8], pos: usize) -> (r: Option<([u8; N], usize)>) {
        if bytes.len() - pos >= N {
            let a: [u8; N] = read_array::<N>(bytes, pos);
            proof {
                lemma_array_of::<N>(a);
                assert(bytes@.skip(pos as int).take(N as int) =~= a@);
            }
            Some((a, pos + N))
        } else {
            None
        }
    }
}

/// Two values side by side: the first one's bytes, then the second one's.
impl<A: Codec, B: Codec> Codec for (A, B) {
    open spec fn valid(self) -> bool {
        self.0.valid() && self.1.valid()
    }

    open spec fn encoding(self) -> Seq<u8> {
        self.0.encoding() + self.1.encoding()
    }

    open spec fn parse(bytes: Seq<u8>) -> Option<((A, B), nat)> {
        match A::parse(bytes) {
            None => None,
            Some((a, n)) => match B::parse(bytes.skip(n as int)) {
                None => None,
                Some((b, m)) => Some(((a, b), n + m)),
            },
        }
    }

    proof fn lemma_round_trip(self, rest: Seq<u8>) {
        let s = self.encoding() + rest;
        assert(s =~= self.0.encoding() + (self.1.encoding() + rest));
        self.0.lemma_round_trip(self.1.encoding() + rest);
        assert(s.skip(self.0.encoding().len() as int) =~= self.1.encoding() + rest);
        self.1.lemma_round_trip(rest);
    }

    proof fn lemma_parse_valid(bytes: Seq<u8>) {
        A::lemma_parse_valid(bytes);
        if let Some((a, n)) = A::parse(bytes) {
            B::lemma_parse_valid(bytes.skip(n as int));
        }
    }

    fn encode(&self, buffer: &mut Vec<u8>) {
        self.0.encode(buffer);
        self.1.encode(buffer);
        assert(buffer@ =~= old(buffer)@ + self.encoding());
    }

    fn decode_at(bytes: &[u8], pos: usize) -> (r: Option<((A, B), usize)>) {
        let len = bytes.len();
        proof {
            A::lemma_parse_valid(bytes@.skip(pos as int));
        }
        match A::decode_at(bytes, pos) {
            None => None,
            Some((a, p)) => {
                proof {
                    let ghost sa = bytes@.skip(pos as int);
                    assert(sa.len() == bytes@.len() - pos);
                    let ghost n = (A::parse(sa)->0).1;
                    assert(n <= sa.len());
                    assert(pos + n <= len);
                    assert(p == pos + n);
                }
                assert(pos <= p <= bytes@.len());
                assert(bytes@.skip(pos as int).skip(p - pos) =~= bytes@.skip(p as int));
                proof {
                    B::lemma_parse_valid(bytes@.skip(p as int));
                }
                match B::decode_at(bytes, p) {
                    None => None,
                    Some((b, q)) => Some(((a, b), q)),
                }
            },
        }
    }
}

/// An optional value: a zero byte for none, or a one byte and the value.
impl<T: Codec> Codec for Option<T> {
    open spec fn valid(self) -> bool {
        match self {
            None => true,
            Some(v) => v.valid(),
        }
    }

    open spec fn encoding(self) -> Seq<u8> {
        match self {
            None => seq![0u8],
            Some(v) => seq![1u8] + v.encoding(),
        }
    }

    open spec fn parse(bytes: Seq<u8>) -> Option<(Option<T>, nat)> {
        if bytes.len() >= 1 && bytes[0] == 0 {
            Some((None, 1))
        } else if bytes.len() >= 1 && bytes[0] == 1 {
            match T::parse(bytes.skip(1)) {
                None => None,
                Some((v, n)) => Some((Some(v), n + 1)),
            }
        } else {
            None
        }
    }

    proof fn lemma_round_trip(self, rest: Seq<u8>) {
        if let Some(v) = self {
            assert((self.encoding() + rest).skip(1) =~= v.encoding() + rest);
            v.lemma_round_trip(rest);
        }
    }

    proof fn lemma_parse_valid(bytes: Seq<u8>) {
        T::lemma_parse_valid(bytes.skip(1));
    }

    fn encode(&self, buffer: &mut Vec<u8>) {
        match self {
            None => {
                buffer.push(0u8);
            },
            Some(v) => {
                buffer.push(1u8);
                v.encode(buffer);
            },
        }
        assert(buffer@ =~= old(buffer)@ + self.encoding());
    }

    fn decode_at(bytes: &[u8], pos: usize) -> (r: Option<(Option<T>, usize)>) {
        if bytes.len() - pos < 1 {
            return None;
        }
        let tag = bytes[pos];
        if tag == 0 {
            Some((None, pos + 1))
        } else if tag == 1 {
            assert(bytes@.skip(pos as int).skip(1) =~= bytes@.skip(pos + 1));
            match T::decode_at(bytes, pos + 1) {
                None => None,
                Some((v, q)) => Some((Some(v), q)),
            }
        } else {
            None
        }
    }
}


/// Largest length that a signed 32-bit length prefix can hold.
pub const MAX_PREFIXED_LEN: u32 = 0x7fff_ffff;

/// A byte string behind its length as a big-endian signed 32-bit integer.
pub open spec fn prefixed(s: Seq<u8>) -> Seq<u8> {
    u32_bytes(s.len() as u32) + s
}

/// The byte string that `prefixed` wrote at the front of `bytes`, with the
/// number of bytes taken; none where the prefix is short, negative or longer
/// than what follows it.
pub open spec fn parse_prefixed(bytes: Seq<u8>) -> Option<(Seq<u8>, nat)> {
    if bytes.len() < 4 {
        None
    } else {
        let n = be_u32(bytes);
        if n > MAX_PREFIXED_LEN || bytes.len() < 4 + n {
            None
        } else {
            Some((bytes.subrange(4, 4 + n), (4 + n) as nat))
        }
    }
}

pub proof fn lemma_prefixed_round_trip(s: Seq<u8>, rest: Seq<u8>)
    requires
        s.len() <= MAX_PREFIXED_LEN,
    ensures
        parse_prefixed(prefixed(s) + rest) == Some((s, prefixed(s).len())),
{
    let all = prefixed(s) + rest;
    lemma_u32_round_trip(s.len() as u32, s + rest);
    assert(all =~= u32_bytes(s.len() as u32) + (s + rest));
    assert(all.subrange(4, 4 + s.len() as int) =~= s);
}

/// Appends `src` behind its length.
pub fn push_prefixed(buffer: &mut Vec<u8>, src: &[u8])
    requires
        src@.len() <= MAX_PREFIXED_LEN,
    ensures
        final(buffer)@ == old(buffer)@ + prefixed(src@),
{
    push_u32(buffer, src.len() as u32);
    push_bytes(buffer, src);
    assert(buffer@ =~= old(buffer)@ + prefixed(src@));
}

/// Locates the length-prefixed byte string at `pos`: returns where its
/// bytes start and end.
pub fn read_prefixed(bytes: &[u8], pos: usize) -> (r: Option<(usize, usize)>)
    requires
        pos <= bytes@.len(),
    ensures
        match parse_prefixed(bytes@.skip(pos as int)) {
            None => r is None,
            Some((s, n)) => r matches Some((start, end)) && start == pos + 4 && end == pos + n
                && bytes@.subrange(start as int, end as int) == s,
        },
{
    let len = bytes.len();
    if len - pos < 4 {
        return None;
    }
    let n = read_u32(bytes, pos);
    if n > MAX_PREFIXED_LEN || ((len - pos - 4) as u64) < (n as u64) {
        return None;
    }
    let start = pos + 4;
    let end = start + n as usize;
    assert(bytes@.subrange(start as int, end as int) =~= bytes@.skip(pos as int).subrange(
        4,
        4 + n,
    ));
    Some((start, end))
}

/// Whether `bytes[start..end]` holds exactly `expected`.
pub fn bytes_equal(bytes: &[u8], start: usize, end: usize, expected: &[u8]) -> (r: bool)
    requires
        start <= end <= bytes@.len(),
    ensures
        r == (bytes@.subrange(start as int, end as int) == expected@),
{
    if end - start != expected.len() {
        assert(bytes@.subrange(start as int, end as int).len() != expected@.len());
        return false;
    }
    let mut i: usize = 0;
    while i < expected.len()
        invariant
            start <= end <= bytes@.len(),
            end - start == expected@.len(),
            i <= expected@.len(),
            forall|j: int| 0 <= j < i ==> bytes@[start + j] == expected@[j],
        decreases expected@.len() - i,
    {
        if bytes[start + i] != expected[i] {
            assert(bytes@.subrange(start as int, end as int)[i as int] != expected@[i as int]);
            return false;
        }
        i += 1;
    }
    assert(bytes@.subrange(start as int, end as int) =~= expected@);
    true
}


/// The bytes of `value`.
pub fn to_bytes<T: Codec>(value: &T) -> (r: Vec<u8>)
    ensures
        r@ == value.encoding(),
{
    let mut buffer: Vec<u8> = Vec::new();
    value.encode(&mut buffer);
    assert(buffer@ =~= value.encoding());
    buffer
}

/// The value at the front of `bytes`; bytes after it are ignored.
pub fn from_bytes<T: Codec>(bytes: &[u8]) -> (r: Option<T>)
    ensures
        match T::parse(bytes@) {
            None => r is None,
            Some((v, _)) => r == Some(v),
        },
{
    assert(bytes@.skip(0) =~= bytes@);
    match T::decode_at(bytes, 0) {
        None => None,
        Some((v, _)) => Some(v),
    }
}

/// Decoding the bytes of a valid value gives the value back, also with
/// other bytes behind it; this holds of every stored type, records and
/// wrappers alike.
pub proof fn lemma_decode_encode<T: Codec>(value: T, rest: Seq<u8>)
    requires
        value.valid(),
    ensures
        T::parse(value.encoding() + rest) == Some((value, value.encoding().len())),
        T::parse(value.encoding()) == Some((value, value.encoding().len())),
{
    value.lemma_round_trip(rest);
    value.lemma_round_trip(Seq::empty());
    assert(value.encoding() + Seq::<u8>::empty() =~= value.encoding());
}

} // verus!
