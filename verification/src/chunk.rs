//! Chunk hash commitments: the per-chunk data model and the off-circuit
//! derivation of the chunk public-input hash.

use vstd::prelude::*;

verus! {

use crate::AggregationError;
use crate::hashing::{keccak256, keccak256_of};

/// The 8 big-endian bytes of a chain id.
pub open spec fn u64_be_bytes(x: u64) -> Seq<u8> {
    Seq::new(8, |i: int| ((x >> (((7 - i) * 8) as u64)) & 0xff) as u8)
}

/// The chain id as 8 big-endian bytes.
pub fn u64_to_be_bytes(x: u64) -> (r: Vec<u8>)
    ensures
        r@ == u64_be_bytes(x),
        r@.len() == 8,
{
    let mut r: Vec<u8> = Vec::new();
    let mut i: usize = 0;
    while i < 8
        invariant
            i <= 8,
            r@.len() == i,
            forall|j: int| 0 <= j < i ==> #[trigger] r@[j] == u64_be_bytes(x)[j],
        decreases 8 - i,
    {
        let shift: u64 = ((7 - i) * 8) as u64;
        assert(((x >> shift) & 0xff) < 256) by (bit_vector);
        let b: u8 = ((x >> shift) & 0xff) as u8;
        r.push(b);
        i += 1;
    }
    assert(r@ =~= u64_be_bytes(x));
    r
}

/// The chain id encoded by 8 big-endian bytes.
pub open spec fn u64_from_be_bytes(s: Seq<u8>) -> u64
    recommends
        s.len() == 8,
{
    (((s[0] as u64) << 56) | ((s[1] as u64) << 48) | ((s[2] as u64) << 40) | ((s[3] as u64) << 32)
        | ((s[4] as u64) << 24) | ((s[5] as u64) << 16) | ((s[6] as u64) << 8) | (s[7] as u64))
}

/// Big-endian encoding and decoding of a chain id invert each other.
pub proof fn lemma_u64_be_bytes_roundtrip(x: u64)
    ensures
        u64_from_be_bytes(u64_be_bytes(x)) == x,
{
    assert((((((x >> 56) & 0xff) as u8) as u64) << 56) | (((((x >> 48) & 0xff) as u8) as u64)
        << 48) | (((((x >> 40) & 0xff) as u8) as u64) << 40) | (((((x >> 32) & 0xff) as u8) as u64)
        << 32) | (((((x >> 24) & 0xff) as u8) as u64) << 24) | (((((x >> 16) & 0xff) as u8) as u64)
        << 16) | (((((x >> 8) & 0xff) as u8) as u64) << 8) | ((((x >> 0) & 0xff) as u8) as u64)
        == x) by (bit_vector);
    assert(u64_be_bytes(x)[0] == ((x >> 56) & 0xff) as u8);
    assert(u64_be_bytes(x)[1] == ((x >> 48) & 0xff) as u8);
    assert(u64_be_bytes(x)[2] == ((x >> 40) & 0xff) as u8);
    assert(u64_be_bytes(x)[3] == ((x >> 32) & 0xff) as u8);
    assert(u64_be_bytes(x)[4] == ((x >> 24) & 0xff) as u8);
    assert(u64_be_bytes(x)[5] == ((x >> 16) & 0xff) as u8);
    assert(u64_be_bytes(x)[6] == ((x >> 8) & 0xff) as u8);
    assert(u64_be_bytes(x)[7] == ((x >> 0) & 0xff) as u8);
}

/// The chain id read back from its 8 big-endian bytes.
pub fn be_bytes_to_u64(s: &Vec<u8>) -> (r: u64)
    requires
        s@.len() == 8,
    ensures
        r == u64_from_be_bytes(s@),
{
    ((s[0] as u64) << 56u64) | ((s[1] as u64) << 48u64) | ((s[2] as u64) << 40u64) | ((s[3]
        as u64) << 32u64) | ((s[4] as u64) << 24u64) | ((s[5] as u64) << 16u64) | ((s[6] as u64)
        << 8u64) | (s[7] as u64)
}

/// The bytes of `dst`, followed by the bytes of `src`.
pub fn append_bytes(dst: Vec<u8>, src: &Vec<u8>) -> (r: Vec<u8>)
    ensures
        r@ == dst@ + src@,
{
    let mut d = dst;
    let mut i: usize = 0;
    while i < src.len()
        invariant
            i <= src@.len(),
            d@ == dst@ + src@.take(i as int),
        decreases src@.len() - i,
    {
        d.push(src[i]);
        assert(dst@ + src@.take(i as int) + seq![src@[i as int]] =~= dst@ + src@.take(
            i as int + 1,
        ));
        assert(d@ =~= dst@ + src@.take(i as int) + seq![src@[i as int]]);
        i += 1;
    }
    assert(d@ =~= dst@ + src@);
    d
}

/// A fresh vector with the same bytes.
pub fn copy_bytes(src: &Vec<u8>) -> (r: Vec<u8>)
    ensures
        r@ == src@,
{
    let mut r: Vec<u8> = Vec::new();
    let mut i: usize = 0;
    while i < src.len()
        invariant
            i <= src@.len(),
            r@ == src@.take(i as int),
        decreases src@.len() - i,
    {
        r.push(src[i]);
        assert(r@ =~= src@.take(i as int + 1));
        i += 1;
    }
    assert(r@ =~= src@);
    r
}

/// Whether two byte vectors hold the same bytes.
pub fn bytes_eq(a: &Vec<u8>, b: &Vec<u8>) -> (r: bool)
    ensures
        r == (a@ == b@),
{
    if a.len() != b.len() {
        return false;
    }
    let mut i: usize = 0;
    while i < a.len()
        invariant
            i <= a@.len(),
            a@.len() == b@.len(),
            forall|j: int| 0 <= j < i ==> #[trigger] a@[j] == b@[j],
        decreases a@.len() - i,
    {
        if a[i] != b[i] {
            return false;
        }
        i += 1;
    }
    assert(a@ =~= b@);
    true
}

/// A chunk: a contiguous group of blocks, summarized by four 32-byte hashes
/// and the chain id. The public-input hash is always re-derived from these
/// five fields; it is never stored.
pub struct ChunkHash {
    pub chain_id: u64,
    pub prev_state_root: Vec<u8>,
    pub post_state_root: Vec<u8>,
    pub withdraw_root: Vec<u8>,
    pub data_hash: Vec<u8>,
}

impl ChunkHash {
    /// All four stored hashes are exactly 32 bytes.
    pub open spec fn wf(&self) -> bool {
        &&& self.prev_state_root@.len() == 32
        &&& self.post_state_root@.len() == 32
        &&& self.withdraw_root@.len() == 32
        &&& self.data_hash@.len() == 32
    }

    /// Preimage of the chunk public-input hash:
    /// chain_id || prev_state_root || post_state_root || withdraw_root || data_hash.
    pub open spec fn pi_preimage(&self) -> Seq<u8> {
        u64_be_bytes(self.chain_id) + self.prev_state_root@ + self.post_state_root@
            + self.withdraw_root@ + self.data_hash@
    }

    /// The chunk public-input hash, as derived from the five stored fields.
    pub open spec fn pi_hash(&self) -> Seq<u8> {
        keccak256_of(self.pi_preimage())
    }

    /// Builds a chunk from its five fields, refusing any hash field that is
    /// not exactly 32 bytes.
    pub fn new(
        chain_id: u64,
        prev_state_root: Vec<u8>,
        post_state_root: Vec<u8>,
        withdraw_root: Vec<u8>,
        data_hash: Vec<u8>,
    ) -> (r: Result<ChunkHash, AggregationError>)
        ensures
            r is Ok <==> (prev_state_root@.len() == 32 && post_state_root@.len() == 32
                && withdraw_root@.len() == 32 && data_hash@.len() == 32),
            r matches Ok(c) ==> c == (ChunkHash {
                chain_id,
                prev_state_root,
                post_state_root,
                withdraw_root,
                data_hash,
            }),
            r is Err ==> r == Err::<ChunkHash, AggregationError>(
                AggregationError::WrongFieldLength,
            ),
    {
        if prev_state_root.len() != 32 || post_state_root.len() != 32 || withdraw_root.len() != 32
            || data_hash.len() != 32 {
            return Err(AggregationError::WrongFieldLength);
        }
        Ok(
            ChunkHash {
                chain_id,
                prev_state_root,
                post_state_root,
                withdraw_root,
                data_hash,
            },
        )
    }

    /// The chunk public-input hash, re-derived from the stored fields on
    /// every call.
    pub fn public_input_hash(&self) -> (r: Vec<u8>)
        requires
            self.wf(),
        ensures
            r@ == self.pi_hash(),
            r@.len() == 32,
    {
        derive_chunk_pi_hash(self)
    }
}

/// The bytes of the chunk public-input hash preimage, in order.
pub fn chunk_pi_preimage_bytes(chunk: &ChunkHash) -> (r: Vec<u8>)
    ensures
        r@ == chunk.pi_preimage(),
{
    let mut preimage = u64_to_be_bytes(chunk.chain_id);
    preimage = append_bytes(preimage, &chunk.prev_state_root);
    preimage = append_bytes(preimage, &chunk.post_state_root);
    preimage = append_bytes(preimage, &chunk.withdraw_root);
    preimage = append_bytes(preimage, &chunk.data_hash);
    preimage
}

/// Ground truth for the circuit: the chunk public-input hash
/// keccak(chain_id || prev_state_root || post_state_root || withdraw_root || data_hash).
pub fn derive_chunk_pi_hash(chunk: &ChunkHash) -> (r: Vec<u8>)
    requires
        chunk.wf(),
    ensures
        r@ == chunk.pi_hash(),
        r@.len() == 32,
{
    let preimage = chunk_pi_preimage_bytes(chunk);
    keccak256(preimage.as_slice())
}

/// The chunk public-input hash depends on the five stored fields alone:
/// chunks equal field by field hash identically.
pub proof fn lemma_chunk_pi_hash_deterministic(c1: ChunkHash, c2: ChunkHash)
    requires
        c1.chain_id == c2.chain_id,
        c1.prev_state_root@ == c2.prev_state_root@,
        c1.post_state_root@ == c2.post_state_root@,
        c1.withdraw_root@ == c2.withdraw_root@,
        c1.data_hash@ == c2.data_hash@,
    ensures
        c1.pi_hash() == c2.pi_hash(),
{
    assert(c1.pi_preimage() =~= c2.pi_preimage());
}

/// Each chunk public-input preimage is 136 bytes and carries the chain id and
/// the four stored hashes at fixed offsets.
pub proof fn lemma_chunk_preimage_layout(c: ChunkHash)
    requires
        c.wf(),
    ensures
        c.pi_preimage().len() == 136,
        c.pi_preimage().subrange(0, 8) == u64_be_bytes(c.chain_id),
        c.pi_preimage().subrange(8, 40) == c.prev_state_root@,
        c.pi_preimage().subrange(40, 72) == c.post_state_root@,
        c.pi_preimage().subrange(72, 104) == c.withdraw_root@,
        c.pi_preimage().subrange(104, 136) == c.data_hash@,
{
    assert(c.pi_preimage().subrange(0, 8) =~= u64_be_bytes(c.chain_id));
    assert(c.pi_preimage().subrange(8, 40) =~= c.prev_state_root@);
    assert(c.pi_preimage().subrange(40, 72) =~= c.post_state_root@);
    assert(c.pi_preimage().subrange(72, 104) =~= c.withdraw_root@);
    assert(c.pi_preimage().subrange(104, 136) =~= c.data_hash@);
}

} // verus!
