//! Batch hash commitments: an ordered, continuous sequence of chunks
//! aggregated into a batch data hash and a batch public-input hash.

use vstd::prelude::*;

verus! {

use crate::AggregationError;
use crate::chunk::{ChunkHash, append_bytes, bytes_eq, u64_be_bytes, u64_to_be_bytes};
use crate::hashing::{keccak256, keccak256_of};

/// Every chunk's stored hashes are 32 bytes.
pub open spec fn all_wf(chunks: Seq<ChunkHash>) -> bool {
    forall|i: int| 0 <= i < chunks.len() ==> (#[trigger] chunks[i]).wf()
}

/// Every chunk carries the first chunk's chain id.
pub open spec fn uniform_chain_id(chunks: Seq<ChunkHash>) -> bool {
    forall|i: int| 0 <= i < chunks.len() ==> (#[trigger] chunks[i]).chain_id == chunks[0].chain_id
}

/// Adjacent chunks link: each post state root equals the next chunk's prev
/// state root.
pub open spec fn continuous(chunks: Seq<ChunkHash>) -> bool {
    forall|i: int|
        0 <= i < chunks.len() - 1 ==> (#[trigger] chunks[i]).post_state_root@ == chunks[
            i + 1
        ].prev_state_root@
}

/// Preimage of the batch data hash: the chunk data hashes, concatenated in
/// order.
pub open spec fn batch_data_preimage(chunks: Seq<ChunkHash>) -> Seq<u8>
    decreases chunks.len(),
{
    if chunks.len() == 0 {
        Seq::empty()
    } else {
        chunks[0].data_hash@ + batch_data_preimage(chunks.drop_first())
    }
}

/// Preimage of the batch public-input hash:
/// chain_id || first prev_state_root || last post_state_root || last withdraw_root || batch_data_hash.
pub open spec fn batch_pi_preimage(
    chain_id: u64,
    first_prev: Seq<u8>,
    last_post: Seq<u8>,
    last_withdraw: Seq<u8>,
    data_hash: Seq<u8>,
) -> Seq<u8> {
    u64_be_bytes(chain_id) + first_prev + last_post + last_withdraw + data_hash
}

/// The bytes of the batch data hash preimage, in order.
pub fn batch_data_preimage_bytes(chunks: &Vec<ChunkHash>) -> (r: Vec<u8>)
    ensures
        r@ == batch_data_preimage(chunks@),
{
    let mut preimage: Vec<u8> = Vec::new();
    assert(chunks@.skip(0) =~= chunks@);
    let mut i: usize = 0;
    while i < chunks.len()
        invariant
            i <= chunks@.len(),
            batch_data_preimage(chunks@) == preimage@ + batch_data_preimage(
                chunks@.skip(i as int),
            ),
        decreases chunks@.len() - i,
    {
        assert(chunks@.skip(i as int)[0] == chunks@[i as int]);
        assert(chunks@.skip(i as int).drop_first() =~= chunks@.skip(i as int + 1));
        preimage = append_bytes(preimage, &chunks[i].data_hash);
        assert(batch_data_preimage(chunks@) =~= preimage@ + batch_data_preimage(
            chunks@.skip(i as int + 1),
        ));
        i += 1;
    }
    assert(batch_data_preimage(chunks@) =~= preimage@);
    preimage
}

/// Ground truth for the circuit: the batch data hash
/// keccak(chunk_0.data_hash || ... || chunk_{k-1}.data_hash).
pub fn derive_batch_data_hash(chunks: &Vec<ChunkHash>) -> (r: Vec<u8>)
    ensures
        r@ == keccak256_of(batch_data_preimage(chunks@)),
        r@.len() == 32,
{
    let preimage = batch_data_preimage_bytes(chunks);
    keccak256(preimage.as_slice())
}

/// Ground truth for the circuit: the batch public-input hash
/// keccak(chain_id || first prev_state_root || last post_state_root || last withdraw_root || batch_data_hash).
pub fn derive_batch_pi_hash(
    chain_id: u64,
    first_prev: &Vec<u8>,
    last_post: &Vec<u8>,
    last_withdraw: &Vec<u8>,
    batch_data_hash: &Vec<u8>,
) -> (r: Vec<u8>)
    requires
        first_prev@.len() == 32,
        last_post@.len() == 32,
        last_withdraw@.len() == 32,
        batch_data_hash@.len() == 32,
    ensures
        r@ == keccak256_of(
            batch_pi_preimage(chain_id, first_prev@, last_post@, last_withdraw@, batch_data_hash@),
        ),
        r@.len() == 32,
{
    let mut preimage = u64_to_be_bytes(chain_id);
    preimage = append_bytes(preimage, first_prev);
    preimage = append_bytes(preimage, last_post);
    preimage = append_bytes(preimage, last_withdraw);
    preimage = append_bytes(preimage, batch_data_hash);
    assert(preimage@ =~= batch_pi_preimage(
        chain_id,
        first_prev@,
        last_post@,
        last_withdraw@,
        batch_data_hash@,
    ));
    keccak256(preimage.as_slice())
}

/// A batch: an ordered sequence of chunks with a single chain id, linked by
/// their state roots, and its two derived hashes.
pub struct BatchHash {
    pub chunks: Vec<ChunkHash>,
    pub chain_id: u64,
    pub batch_data_hash: Vec<u8>,
    pub batch_public_input_hash: Vec<u8>,
}

impl BatchHash {
    /// Preimage of this batch's public-input hash.
    pub open spec fn pi_preimage(&self) -> Seq<u8> {
        batch_pi_preimage(
            self.chain_id,
            self.chunks@[0].prev_state_root@,
            self.chunks@[self.chunks@.len() - 1].post_state_root@,
            self.chunks@[self.chunks@.len() - 1].withdraw_root@,
            self.batch_data_hash@,
        )
    }

    /// The batch holds at least one well-formed chunk, all chunks share its
    /// chain id, adjacent chunks link through their state roots, and the two
    /// stored hashes are the derived ones.
    pub open spec fn wf(&self) -> bool {
        &&& self.chunks@.len() >= 1
        &&& all_wf(self.chunks@)
        &&& uniform_chain_id(self.chunks@)
        &&& self.chain_id == self.chunks@[0].chain_id
        &&& continuous(self.chunks@)
        &&& self.batch_data_hash@ == keccak256_of(batch_data_preimage(self.chunks@))
        &&& self.batch_data_hash@.len() == 32
        &&& self.batch_public_input_hash@ == keccak256_of(self.pi_preimage())
        &&& self.batch_public_input_hash@.len() == 32
    }

    /// Builds a batch from a finalized chunk sequence, deriving its two
    /// hashes. Refuses an empty sequence, a chunk with a hash field that is
    /// not 32 bytes, a chain id differing from the first chunk's, and any
    /// break in state-root continuity, in that order of checks.
    pub fn new(chunks: Vec<ChunkHash>) -> (r: Result<BatchHash, AggregationError>)
        ensures
            r is Ok <==> (chunks@.len() >= 1 && all_wf(chunks@) && uniform_chain_id(chunks@)
                && continuous(chunks@)),
            chunks@.len() == 0 ==> r == Err::<BatchHash, AggregationError>(
                AggregationError::EmptyBatch,
            ),
            chunks@.len() >= 1 && !all_wf(chunks@) ==> r == Err::<BatchHash, AggregationError>(
                AggregationError::WrongFieldLength,
            ),
            chunks@.len() >= 1 && all_wf(chunks@) && !uniform_chain_id(chunks@) ==> r == Err::<
                BatchHash,
                AggregationError,
            >(AggregationError::ChainIdMismatch),
            chunks@.len() >= 1 && all_wf(chunks@) && uniform_chain_id(chunks@) && !continuous(
                chunks@,
            ) ==> r == Err::<BatchHash, AggregationError>(AggregationError::ContinuityViolation),
            r matches Ok(b) ==> b.chunks@ == chunks@ && b.chain_id == chunks@[0].chain_id
                && b.wf(),
    {
        let k = chunks.len();
        if k == 0 {
            return Err(AggregationError::EmptyBatch);
        }
        let mut i: usize = 0;
        while i < k
            invariant
                k == chunks@.len(),
                i <= k,
                forall|j: int| 0 <= j < i ==> (#[trigger] chunks@[j]).wf(),
            decreases k - i,
        {
            if chunks[i].prev_state_root.len() != 32 || chunks[i].post_state_root.len() != 32
                || chunks[i].withdraw_root.len() != 32 || chunks[i].data_hash.len() != 32 {
                assert(!chunks@[i as int].wf());
                return Err(AggregationError::WrongFieldLength);
            }
            i += 1;
        }
        assert(all_wf(chunks@));
        let chain_id = chunks[0].chain_id;
        let mut i: usize = 1;
        while i < k
            invariant
                k == chunks@.len(),
                k >= 1,
                1 <= i <= k,
                all_wf(chunks@),
                chain_id == chunks@[0].chain_id,
                forall|j: int| 0 <= j < i ==> (#[trigger] chunks@[j]).chain_id == chain_id,
            decreases k - i,
        {
            if chunks[i].chain_id != chain_id {
                assert(!uniform_chain_id(chunks@));
                return Err(AggregationError::ChainIdMismatch);
            }
            i += 1;
        }
        assert(uniform_chain_id(chunks@));
        let mut i: usize = 0;
        while i + 1 < k
            invariant
                k == chunks@.len(),
                k >= 1,
                i <= k - 1,
                all_wf(chunks@),
                uniform_chain_id(chunks@),
                chain_id == chunks@[0].chain_id,
                forall|j: int|
                    0 <= j < i ==> (#[trigger] chunks@[j]).post_state_root@ == chunks@[
                        j + 1
                    ].prev_state_root@,
            decreases k - i,
        {
            if !bytes_eq(&chunks[i].post_state_root, &chunks[i + 1].prev_state_root) {
                assert(!continuous(chunks@));
                return Err(AggregationError::ContinuityViolation);
            }
            i += 1;
        }
        let batch_data_hash = derive_batch_data_hash(&chunks);
        let batch_public_input_hash = derive_batch_pi_hash(
            chain_id,
            &chunks[0].prev_state_root,
            &chunks[k - 1].post_state_root,
            &chunks[k - 1].withdraw_root,
            &batch_data_hash,
        );
        Ok(
            BatchHash {
                chunks,
                chain_id,
                batch_data_hash,
                batch_public_input_hash,
            },
        )
    }

    /// The batch public-input hash, as stored at construction.
    pub fn public_input_hash(&self) -> (r: Vec<u8>)
        requires
            self.wf(),
        ensures
            r@ == self.batch_public_input_hash@,
            r@ == keccak256_of(self.pi_preimage()),
    {
        crate::chunk::copy_bytes(&self.batch_public_input_hash)
    }
}

/// The batch data preimage of well-formed chunks is 32 bytes per chunk.
pub proof fn lemma_batch_data_preimage_len(chunks: Seq<ChunkHash>)
    requires
        all_wf(chunks),
    ensures
        batch_data_preimage(chunks).len() == 32 * chunks.len(),
    decreases chunks.len(),
{
    if chunks.len() > 0 {
        assert forall|j: int| 0 <= j < chunks.drop_first().len() implies (#[trigger] chunks.drop_first()[j]).wf() by {
            assert(chunks.drop_first()[j] == chunks[j + 1]);
        }
        lemma_batch_data_preimage_len(chunks.drop_first());
    }
}

/// Linkage: byte range `32*i .. 32*i+32` of the batch data preimage is
/// exactly chunk `i`'s data hash.
pub proof fn lemma_batch_data_preimage_chunk(chunks: Seq<ChunkHash>, i: int)
    requires
        all_wf(chunks),
        0 <= i < chunks.len(),
    ensures
        batch_data_preimage(chunks).subrange(32 * i, 32 * i + 32) == chunks[i].data_hash@,
    decreases i,
{
    lemma_batch_data_preimage_len(chunks);
    assert forall|j: int| 0 <= j < chunks.drop_first().len() implies (#[trigger] chunks.drop_first()[j]).wf() by {
        assert(chunks.drop_first()[j] == chunks[j + 1]);
    }
    lemma_batch_data_preimage_len(chunks.drop_first());
    if i == 0 {
        assert(batch_data_preimage(chunks).subrange(0, 32) =~= chunks[0].data_hash@);
    } else {
        lemma_batch_data_preimage_chunk(chunks.drop_first(), i - 1);
        assert(chunks.drop_first()[i - 1] == chunks[i]);
        assert(batch_data_preimage(chunks).subrange(32 * i, 32 * i + 32) =~= batch_data_preimage(
            chunks.drop_first(),
        ).subrange(32 * (i - 1), 32 * (i - 1) + 32));
    }
}

/// Linkage: the batch public-input preimage is 136 bytes and carries the
/// chain id, the first chunk's prev state root, the last chunk's post state
/// root and withdraw root, and the batch data hash at fixed offsets.
pub proof fn lemma_batch_pi_preimage_layout(b: BatchHash)
    requires
        b.wf(),
    ensures
        b.pi_preimage().len() == 136,
        b.pi_preimage().subrange(0, 8) == u64_be_bytes(b.chain_id),
        b.pi_preimage().subrange(8, 40) == b.chunks@[0].prev_state_root@,
        b.pi_preimage().subrange(40, 72) == b.chunks@[b.chunks@.len() - 1].post_state_root@,
        b.pi_preimage().subrange(72, 104) == b.chunks@[b.chunks@.len() - 1].withdraw_root@,
        b.pi_preimage().subrange(104, 136) == keccak256_of(batch_data_preimage(b.chunks@)),
{
    assert(b.chunks@[0].wf() && b.chunks@[b.chunks@.len() - 1].wf());
    assert(b.pi_preimage().subrange(0, 8) =~= u64_be_bytes(b.chain_id));
    assert(b.pi_preimage().subrange(8, 40) =~= b.chunks@[0].prev_state_root@);
    assert(b.pi_preimage().subrange(40, 72) =~= b.chunks@[b.chunks@.len() - 1].post_state_root@);
    assert(b.pi_preimage().subrange(72, 104) =~= b.chunks@[b.chunks@.len() - 1].withdraw_root@);
    assert(b.pi_preimage().subrange(104, 136) =~= b.batch_data_hash@);
}

/// Idempotence of the two-stage derivation: re-deriving the batch data hash
/// from the same chunk data hashes and feeding it back into the batch
/// public-input preimage leaves the batch public-input hash unchanged.
pub proof fn lemma_batch_pi_hash_rederive(b: BatchHash)
    requires
        b.wf(),
        b.chunks@.len() >= 2,
    ensures
        keccak256_of(
            batch_pi_preimage(
                b.chain_id,
                b.chunks@[0].prev_state_root@,
                b.chunks@[b.chunks@.len() - 1].post_state_root@,
                b.chunks@[b.chunks@.len() - 1].withdraw_root@,
                keccak256_of(batch_data_preimage(b.chunks@)),
            ),
        ) == b.batch_public_input_hash@,
{
}

} // verus!
