//! Structural wrappers around stored values: decoded records, partitioned
//! values, values with a retention period, and secondary-index hints.
use vstd::prelude::*;

use crate::codec::{
    parse_prefixed, prefixed, push_prefixed, read_prefixed, bytes_equal, lemma_prefixed_round_trip,
    Codec, MAX_PREFIXED_LEN,
};
use crate::ids::{Ed25519Address, HashedIndex, MessageId};

verus! {

/// A value produced by decoding a row.
pub struct Record<T> {
    inner: T,
}

impl<T> Record<T> {
    pub closed spec fn spec_inner(&self) -> T {
        self.inner
    }

    pub fn new(inner: T) -> (r: Record<T>)
        ensures
            r.spec_inner() == inner,
    {
        Record { inner }
    }

    pub fn into_inner(self) -> (r: T)
        ensures
            r == self.spec_inner(),
    {
        self.inner
    }

    pub fn inner(&self) -> (r: &T)
        ensures
            *r == self.spec_inner(),
    {
        &self.inner
    }
}

impl<T: Codec> Record<T> {
    /// Decodes one row from the front of `bytes`.
    pub fn decode(bytes: &[u8]) -> (r: Option<Record<T>>)
        ensures
            match T::parse(bytes@) {
                None => r is None,
                Some((v, _)) => r matches Some(rec) && rec.spec_inner() == v,
            },
    {
        assert(bytes@.skip(0) =~= bytes@);
        match T::decode_at(bytes, 0) {
            None => None,
            Some((v, _)) => Some(Record { inner: v }),
        }
    }
}

/// A value tagged with the shard of a partitioned index that holds it.
#[derive(Clone, Copy)]
pub struct Partitioned<T> {
    inner: T,
    partition_id: u16,
}

/// Modulus of the key hash: the largest prime below 2^32.
pub const KEY_HASH_MODULUS: u64 = 4294967291;

/// Polynomial hash of a key, byte by byte, modulo `KEY_HASH_MODULUS`.
pub open spec fn key_hash(key: Seq<u8>) -> nat
    decreases key.len(),
{
    if key.len() == 0 {
        0
    } else {
        ((key_hash(key.drop_last()) * 31 + key.last()) % (KEY_HASH_MODULUS as int)) as nat
    }
}

/// The shard of `key` among `sharding_width` shards.
pub open spec fn partition_of(key: Seq<u8>, sharding_width: u16) -> u16 {
    (key_hash(key) % (sharding_width as nat)) as u16
}

/// The shard that holds `key` among `sharding_width` shards: a function of
/// the key's bytes and the width alone.
pub fn partition_id_of(key: &[u8], sharding_width: u16) -> (r: u16)
    requires
        sharding_width > 0,
    ensures
        r == partition_of(key@, sharding_width),
        r < sharding_width,
{
    let mut h: u64 = 0;
    let mut i: usize = 0;
    while i < key.len()
        invariant
            i <= key@.len(),
            h == key_hash(key@.take(i as int)),
            h < KEY_HASH_MODULUS,
        decreases key@.len() - i,
    {
        assert(key@.take(i + 1).drop_last() =~= key@.take(i as int));
        h = (h * 31 + key[i] as u64) % KEY_HASH_MODULUS;
        i += 1;
    }
    assert(key@.take(i as int) =~= key@);
    (h % (sharding_width as u64)) as u16
}

/// Two writers or readers that place the same key among the same number of
/// shards pick the same shard, and it is one of those shards.
pub proof fn lemma_partition_deterministic(
    key_a: Seq<u8>,
    key_b: Seq<u8>,
    width_a: u16,
    width_b: u16,
)
    requires
        key_a == key_b,
        width_a == width_b,
        width_a > 0,
    ensures
        partition_of(key_a, width_a) == partition_of(key_b, width_b),
        partition_of(key_a, width_a) < width_a,
{
}

impl<T> Partitioned<T> {
    pub closed spec fn spec_inner(&self) -> T {
        self.inner
    }

    pub closed spec fn spec_partition_id(&self) -> u16 {
        self.partition_id
    }

    pub fn new(inner: T, partition_id: u16) -> (r: Partitioned<T>)
        ensures
            r.spec_inner() == inner,
            r.spec_partition_id() == partition_id,
    {
        Partitioned { inner, partition_id }
    }

    /// Tags `inner` with the shard that its natural key belongs to.
    pub fn for_key(inner: T, key: &[u8], sharding_width: u16) -> (r: Partitioned<T>)
        requires
            sharding_width > 0,
        ensures
            r.spec_inner() == inner,
            r.spec_partition_id() == partition_of(key@, sharding_width),
    {
        Partitioned { inner, partition_id: partition_id_of(key, sharding_width) }
    }

    pub fn into_inner(self) -> (r: T)
        ensures
            r == self.spec_inner(),
    {
        self.inner
    }

    pub fn partition_id(self) -> (r: u16)
        ensures
            r == self.spec_partition_id(),
    {
        self.partition_id
    }
}

/// The value's bytes, then the shard as a big-endian `u16`.
impl<T: Codec> Codec for Partitioned<T> {
    open spec fn valid(self) -> bool {
        self.spec_inner().valid()
    }

    open spec fn encoding(self) -> Seq<u8> {
        (self.spec_inner(), self.spec_partition_id()).encoding()
    }

    open spec fn parse(bytes: Seq<u8>) -> Option<(Partitioned<T>, nat)> {
        match <(T, u16)>::parse(bytes) {
            None => None,
            Some((p, n)) => Some((Partitioned::from_parts(p), n)),
        }
    }

    proof fn lemma_round_trip(self, rest: Seq<u8>) {
        (self.spec_inner(), self.spec_partition_id()).lemma_round_trip(rest);
    }

    proof fn lemma_parse_valid(bytes: Seq<u8>) {
        <(T, u16)>::lemma_parse_valid(bytes);
    }

    fn encode(&self, buffer: &mut Vec<u8>) {
        self.inner.encode(buffer);
        self.partition_id.encode(buffer);
        assert(buffer@ =~= old(buffer)@ + self.encoding());
    }

    fn decode_at(bytes: &[u8], pos: usize) -> (r: Option<(Partitioned<T>, usize)>) {
        match <(T, u16)>::decode_at(bytes, pos) {
            None => None,
            Some((p, q)) => {
                let (inner, partition_id) = p;
                Some((Partitioned { inner, partition_id }, q))
            },
        }
    }
}

impl<T> Partitioned<T> {
    pub closed spec fn from_parts(p: (T, u16)) -> Partitioned<T> {
        Partitioned { inner: p.0, partition_id: p.1 }
    }
}

/// Longest retention period: twenty years, in seconds.
pub const MAX_TTL: u32 = 20 * 365 * 24 * 60 * 60;

/// A value with a retention period in seconds, at most `MAX_TTL`.
pub struct TTL<T> {
    inner: T,
    ttl: u32,
}

impl<T> TTL<T> {
    #[verifier::type_invariant]
    spec fn ttl_in_bound(self) -> bool {
        self.ttl <= MAX_TTL
    }

    pub closed spec fn spec_inner(&self) -> T {
        self.inner
    }

    pub closed spec fn spec_ttl(&self) -> u32 {
        self.ttl
    }

    /// A period longer than `MAX_TTL` is cut down to `MAX_TTL`.
    pub fn new(inner: T, ttl: u32) -> (r: TTL<T>)
        ensures
            r.spec_inner() == inner,
            r.spec_ttl() == if ttl > MAX_TTL {
                MAX_TTL
            } else {
                ttl
            },
    {
        let ttl = if ttl > MAX_TTL {
            MAX_TTL
        } else {
            ttl
        };
        TTL { inner, ttl }
    }

    pub fn ttl(&self) -> (r: u32)
        ensures
            r == self.spec_ttl(),
            r <= MAX_TTL,
    {
        proof {
            use_type_invariant(self);
        }
        self.ttl
    }

    pub fn into_inner(self) -> (r: T)
        ensures
            r == self.spec_inner(),
    {
        self.inner
    }

    pub closed spec fn from_parts(p: (T, u32)) -> TTL<T> {
        TTL { inner: p.0, ttl: p.1 }
    }
}

/// The value's bytes, then the period as a big-endian `u32`. A stored period
/// above `MAX_TTL` does not decode.
impl<T: Codec> Codec for TTL<T> {
    open spec fn valid(self) -> bool {
        self.spec_inner().valid() && self.spec_ttl() <= MAX_TTL
    }

    open spec fn encoding(self) -> Seq<u8> {
        (self.spec_inner(), self.spec_ttl()).encoding()
    }

    open spec fn parse(bytes: Seq<u8>) -> Option<(TTL<T>, nat)> {
        match <(T, u32)>::parse(bytes) {
            None => None,
            Some((p, n)) => if p.1 <= MAX_TTL {
                Some((TTL::from_parts(p), n))
            } else {
                None
            },
        }
    }

    proof fn lemma_round_trip(self, rest: Seq<u8>) {
        (self.spec_inner(), self.spec_ttl()).lemma_round_trip(rest);
    }

    proof fn lemma_parse_valid(bytes: Seq<u8>) {
        <(T, u32)>::lemma_parse_valid(bytes);
    }

    fn encode(&self, buffer: &mut Vec<u8>) {
        self.inner.encode(buffer);
        self.ttl.encode(buffer);
        assert(buffer@ =~= old(buffer)@ + self.encoding());
    }

    fn decode_at(bytes: &[u8], pos: usize) -> (r: Option<(TTL<T>, usize)>) {
        match <(T, u32)>::decode_at(bytes, pos) {
            None => None,
            Some((p, q)) => {
                let (inner, ttl) = p;
                if ttl <= MAX_TTL {
                    Some((TTL { inner, ttl }, q))
                } else {
                    None
                }
            },
        }
    }
}

/// One bucket of a time-sharded index: a shard number anchored to a
/// milestone.
#[derive(Clone, Copy, PartialEq, Eq, Debug)]
pub struct Partition {
    id: u16,
    milestone_index: u32,
}

impl Partition {
    pub closed spec fn spec_id(&self) -> u16 {
        self.id
    }

    pub closed spec fn spec_milestone_index(&self) -> u32 {
        self.milestone_index
    }

    pub closed spec fn from_parts(p: (u16, u32)) -> Partition {
        Partition { id: p.0, milestone_index: p.1 }
    }

    pub fn new(id: u16, milestone_index: u32) -> (r: Partition)
        ensures
            r.spec_id() == id,
            r.spec_milestone_index() == milestone_index,
    {
        Partition { id, milestone_index }
    }

    pub fn id(&self) -> (r: &u16)
        ensures
            *r == self.spec_id(),
    {
        &self.id
    }

    pub fn milestone_index(&self) -> (r: &u32)
        ensures
            *r == self.spec_milestone_index(),
    {
        &self.milestone_index
    }
}

/// The shard as a big-endian `u16`, then the milestone as a big-endian `u32`.
impl Codec for Partition {
    open spec fn valid(self) -> bool {
        true
    }

    open spec fn encoding(self) -> Seq<u8> {
        (self.spec_id(), self.spec_milestone_index()).encoding()
    }

    open spec fn parse(bytes: Seq<u8>) -> Option<(Partition, nat)> {
        match <(u16, u32)>::parse(bytes) {
            None => None,
            Some((p, n)) => Some((Partition::from_parts(p), n)),
        }
    }

    proof fn lemma_round_trip(self, rest: Seq<u8>) {
        (self.spec_id(), self.spec_milestone_index()).lemma_round_trip(rest);
    }

    proof fn lemma_parse_valid(bytes: Seq<u8>) {
    }

    fn encode(&self, buffer: &mut Vec<u8>) {
        (self.id, self.milestone_index).encode(buffer);
    }

    fn decode_at(bytes: &[u8], pos: usize) -> (r: Option<(Partition, usize)>) {
        match <(u16, u32)>::decode_at(bytes, pos) {
            None => None,
            Some((p, q)) => Some((Partition { id: p.0, milestone_index: p.1 }, q)),
        }
    }
}


/// A key type that a secondary index can be searched by. Its category names
/// the index ("address", "parent" or "index").
pub trait HintVariant: Codec {
    /// The category's name, as bytes.
    spec fn spec_variant() -> Seq<u8>;

    fn variant() -> (r: &'static str)
        ensures
            r@ == Self::spec_variant().map_values(|b: u8| b as char),
    ;

    fn variant_bytes() -> (r: Vec<u8>)
        ensures
            r@ == Self::spec_variant(),
            r@.len() <= MAX_PREFIXED_LEN,
    ;

    /// The key's raw bytes.
    fn as_bytes(&self) -> (r: &[u8])
        ensures
            r@ == self.encoding(),
    ;
}

impl HintVariant for Ed25519Address {
    /// "address"
    open spec fn spec_variant() -> Seq<u8> {
        seq![97u8, 100, 100, 114, 101, 115, 115]
    }

    fn variant() -> (r: &'static str) {
        proof {
            reveal_strlit("address");
        }
        let r = "address";
        assert(r@ =~= Self::spec_variant().map_values(|b: u8| b as char));
        r
    }

    fn variant_bytes() -> (r: Vec<u8>) {
        let r = vec![97u8, 100, 100, 114, 101, 115, 115];
        assert(r@ =~= Self::spec_variant());
        r
    }

    fn as_bytes(&self) -> (r: &[u8]) {
        self.0.as_slice()
    }
}

impl HintVariant for MessageId {
    /// "parent"
    open spec fn spec_variant() -> Seq<u8> {
        seq![112u8, 97, 114, 101, 110, 116]
    }

    fn variant() -> (r: &'static str) {
        proof {
            reveal_strlit("parent");
        }
        let r = "parent";
        assert(r@ =~= Self::spec_variant().map_values(|b: u8| b as char));
        r
    }

    fn variant_bytes() -> (r: Vec<u8>) {
        let r = vec![112u8, 97, 114, 101, 110, 116];
        assert(r@ =~= Self::spec_variant());
        r
    }

    fn as_bytes(&self) -> (r: &[u8]) {
        self.0.as_slice()
    }
}

impl HintVariant for HashedIndex {
    /// "index"
    open spec fn spec_variant() -> Seq<u8> {
        seq![105u8, 110, 100, 101, 120]
    }

    fn variant() -> (r: &'static str) {
        proof {
            reveal_strlit("index");
        }
        let r = "index";
        assert(r@ =~= Self::spec_variant().map_values(|b: u8| b as char));
        r
    }

    fn variant_bytes() -> (r: Vec<u8>) {
        let r = vec![105u8, 110, 100, 101, 120];
        assert(r@ =~= Self::spec_variant());
        r
    }

    fn as_bytes(&self) -> (r: &[u8]) {
        self.0.as_slice()
    }
}

/// A secondary-index entry: a key whose category is given by its type.
pub struct Hint<T: HintVariant> {
    inner: T,
}

impl<T: HintVariant> Hint<T> {
    pub closed spec fn spec_inner(&self) -> T {
        self.inner
    }

    pub closed spec fn from_inner(inner: T) -> Hint<T> {
        Hint { inner }
    }

    pub fn new(inner: T) -> (r: Hint<T>)
        ensures
            r.spec_inner() == inner,
    {
        Hint { inner }
    }

    pub fn get_inner(&self) -> (r: &T)
        ensures
            *r == self.spec_inner(),
    {
        &self.inner
    }
}

/// The category behind its length, then the key's bytes. A stored category
/// other than the key type's own does not decode.
impl<T: HintVariant> Codec for Hint<T> {
    open spec fn valid(self) -> bool {
        self.spec_inner().valid() && T::spec_variant().len() <= MAX_PREFIXED_LEN
    }

    open spec fn encoding(self) -> Seq<u8> {
        prefixed(T::spec_variant()) + self.spec_inner().encoding()
    }

    open spec fn parse(bytes: Seq<u8>) -> Option<(Hint<T>, nat)> {
        match parse_prefixed(bytes) {
            None => None,
            Some((tag, n)) => if tag == T::spec_variant() {
                match T::parse(bytes.skip(n as int)) {
                    None => None,
                    Some((v, m)) => Some((Hint::from_inner(v), n + m)),
                }
            } else {
                None
            },
        }
    }

    proof fn lemma_round_trip(self, rest: Seq<u8>) {
        let s = self.encoding() + rest;
        assert(s =~= prefixed(T::spec_variant()) + (self.spec_inner().encoding() + rest));
        lemma_prefixed_round_trip(T::spec_variant(), self.spec_inner().encoding() + rest);
        assert(s.skip(prefixed(T::spec_variant()).len() as int) =~= self.spec_inner().encoding()
            + rest);
        self.spec_inner().lemma_round_trip(rest);
    }

    proof fn lemma_parse_valid(bytes: Seq<u8>) {
        if let Some((tag, n)) = parse_prefixed(bytes) {
            T::lemma_parse_valid(bytes.skip(n as int));
        }
    }

    fn encode(&self, buffer: &mut Vec<u8>) {
        let tag = T::variant_bytes();
        push_prefixed(buffer, tag.as_slice());
        self.inner.encode(buffer);
        assert(buffer@ =~= old(buffer)@ + self.encoding());
    }

    fn decode_at(bytes: &[u8], pos: usize) -> (r: Option<(Hint<T>, usize)>) {
        match read_prefixed(bytes, pos) {
            None => None,
            Some((start, end)) => {
                let tag = T::variant_bytes();
                if bytes_equal(bytes, start, end, tag.as_slice()) {
                    assert(bytes@.skip(pos as int).skip(end - pos) =~= bytes@.skip(end as int));
                    match T::decode_at(bytes, end) {
                        None => None,
                        Some((v, q)) => Some((Hint { inner: v }, q)),
                    }
                } else {
                    None
                }
            },
        }
    }
}

} // verus!
