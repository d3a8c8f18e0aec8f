//! The batch hash circuit core: the ordered preimage list the circuit must
//! constrain, its placement into the shared hash table, the linkage between
//! the preimages, and the public-input codec.

use vstd::prelude::*;

verus! {

use crate::AggregationError;
use crate::{KECCAK_BLOCK_HEIGHT, PUBLIC_INPUT_LEN};
use crate::batch::{
    BatchHash, batch_data_preimage, batch_data_preimage_bytes, lemma_batch_pi_preimage_layout,
};
use crate::chunk::{
    ChunkHash, append_bytes, chunk_pi_preimage_bytes, copy_bytes, lemma_chunk_preimage_layout,
    u64_be_bytes, u64_to_be_bytes,
};
use crate::hashing::keccak256_of;
use crate::util::{
    capacity, digest_rows_list, get_indices, lens_of, num_blocks_of, preimage_rows_list,
    strictly_ascending, total_blocks, lemma_total_blocks_at_least,
};

/// The ordered preimage list the circuit hands to the shared hash table:
/// one public-input preimage per chunk, then the batch data preimage, then
/// the batch public-input preimage.
pub open spec fn preimage_list(b: BatchHash) -> Seq<Seq<u8>> {
    Seq::new(b.chunks@.len(), |i: int| b.chunks@[i].pi_preimage()).push(
        batch_data_preimage(b.chunks@),
    ).push(b.pi_preimage())
}

/// The lengths of those preimages.
pub open spec fn preimage_lens(b: BatchHash) -> Seq<int> {
    preimage_list(b).map_values(|p: Seq<u8>| p.len() as int)
}

/// The five public-input fields of the batch circuit.
pub struct BatchHashCircuitPublicInput {
    pub chain_id: u64,
    pub first_chunk_prev_state_root: Vec<u8>,
    pub last_chunk_post_state_root: Vec<u8>,
    pub last_chunk_withdraw_root: Vec<u8>,
    pub batch_public_input_hash: Vec<u8>,
}

/// The public-input values: one field element per byte of the four
/// 32-byte fields, then the chain id as 8 big-endian byte values.
pub open spec fn instance_spec(b: BatchHash) -> Seq<u64> {
    b.chunks@[0].prev_state_root@.map_values(|x: u8| x as u64) + b.chunks@[b.chunks@.len()
        - 1].post_state_root@.map_values(|x: u8| x as u64) + b.chunks@[b.chunks@.len()
        - 1].withdraw_root@.map_values(|x: u8| x as u64) + b.batch_public_input_hash@.map_values(
        |x: u8| x as u64,
    ) + u64_be_bytes(b.chain_id).map_values(|x: u8| x as u64)
}

/// Appends each byte of `src` to `dst` as the field-element value it encodes.
fn append_bytes_as_values(dst: Vec<u64>, src: &Vec<u8>) -> (r: Vec<u64>)
    ensures
        r@ == dst@ + src@.map_values(|x: u8| x as u64),
{
    let mut d = dst;
    let mut i: usize = 0;
    while i < src.len()
        invariant
            i <= src@.len(),
            d@.len() == dst@.len() + i,
            forall|j: int| 0 <= j < dst@.len() ==> #[trigger] d@[j] == dst@[j],
            forall|j: int|
                dst@.len() <= j < dst@.len() + i ==> #[trigger] d@[j] == src@[
                    j - dst@.len()
                ] as u64,
        decreases src@.len() - i,
    {
        d.push(src[i] as u64);
        i += 1;
    }
    assert(d@ =~= dst@ + src@.map_values(|x: u8| x as u64));
    d
}

/// A batch hash circuit instance: the batch whose well-formedness the
/// constraint set attests.
pub struct BatchHashCircuit {
    pub batch: BatchHash,
}

impl BatchHashCircuit {
    /// Builds the circuit from a finalized chunk sequence, with the same
    /// checks, in the same order, as batch construction.
    pub fn new(chunks: Vec<ChunkHash>) -> (r: Result<BatchHashCircuit, AggregationError>)
        ensures
            r is Ok <==> (chunks@.len() >= 1 && crate::batch::all_wf(chunks@)
                && crate::batch::uniform_chain_id(chunks@) && crate::batch::continuous(chunks@)),
            r matches Ok(c) ==> c.batch.chunks@ == chunks@ && c.batch.wf(),
            chunks@.len() == 0 ==> r == Err::<BatchHashCircuit, AggregationError>(
                AggregationError::EmptyBatch,
            ),
            chunks@.len() >= 1 && !crate::batch::all_wf(chunks@) ==> r == Err::<
                BatchHashCircuit,
                AggregationError,
            >(AggregationError::WrongFieldLength),
            chunks@.len() >= 1 && crate::batch::all_wf(chunks@) && !crate::batch::uniform_chain_id(
                chunks@,
            ) ==> r == Err::<BatchHashCircuit, AggregationError>(AggregationError::ChainIdMismatch),
            chunks@.len() >= 1 && crate::batch::all_wf(chunks@) && crate::batch::uniform_chain_id(
                chunks@,
            ) && !crate::batch::continuous(chunks@) ==> r == Err::<
                BatchHashCircuit,
                AggregationError,
            >(AggregationError::ContinuityViolation),
    {
        match BatchHash::new(chunks) {
            Ok(batch) => Ok(BatchHashCircuit { batch }),
            Err(e) => Err(e),
        }
    }

    /// Absorption blocks this batch's preimage list needs.
    pub open spec fn blocks_needed(&self) -> int {
        total_blocks(preimage_lens(self.batch))
    }

    /// The ordered preimage list of this batch, exactly as the circuit must
    /// constrain it against the hash table.
    pub fn preimages(&self) -> (r: Vec<Vec<u8>>)
        requires
            self.batch.wf(),
        ensures
            r@.map_values(|p: Vec<u8>| p@) == preimage_list(self.batch),
            r@.len() == self.batch.chunks@.len() + 2,
    {
        let mut out: Vec<Vec<u8>> = Vec::new();
        let k = self.batch.chunks.len();
        let mut i: usize = 0;
        while i < k
            invariant
                i <= k,
                k == self.batch.chunks@.len(),
                out@.len() == i,
                forall|j: int|
                    0 <= j < i ==> (#[trigger] out@[j])@ == self.batch.chunks@[j].pi_preimage(),
            decreases k - i,
        {
            out.push(chunk_pi_preimage_bytes(&self.batch.chunks[i]));
            i += 1;
        }
        out.push(batch_data_preimage_bytes(&self.batch.chunks));
        let mut pi = u64_to_be_bytes(self.batch.chain_id);
        pi = append_bytes(pi, &self.batch.chunks[0].prev_state_root);
        pi = append_bytes(pi, &self.batch.chunks[k - 1].post_state_root);
        pi = append_bytes(pi, &self.batch.chunks[k - 1].withdraw_root);
        pi = append_bytes(pi, &self.batch.batch_data_hash);
        assert(pi@ =~= self.batch.pi_preimage());
        out.push(pi);
        assert(out@.map_values(|p: Vec<u8>| p@) =~= preimage_list(self.batch));
        out
    }

    /// Whether the table of `num_rows` rows can host every absorption block
    /// this batch needs. Surfaced before any constraint building begins.
    pub fn check_capacity(&self, num_rows: usize) -> (r: Result<(), AggregationError>)
        requires
            self.batch.wf(),
            num_rows == 0 || num_rows >= 2 * KECCAK_BLOCK_HEIGHT,
        ensures
            r is Ok <==> (num_rows > 0 && self.blocks_needed() <= num_rows as int / (
            KECCAK_BLOCK_HEIGHT as int) - 2),
            r is Err ==> r == Err::<(), AggregationError>(AggregationError::CapacityExceeded),
    {
        let cap = match capacity(num_rows) {
            Some(c) => c,
            None => {
                return Err(AggregationError::CapacityExceeded);
            },
        };
        let preimages = self.preimages();
        let ghost lens = lens_of(preimages@);
        proof {
            assert(lens =~= preimage_lens(self.batch));
            assert forall|i: int| 0 <= i < lens.len() implies #[trigger] lens[i] >= 0 by {
                assert(lens[i] == preimages@[i]@.len() as int);
            }
        }
        let n = preimages.len();
        let mut budget = cap;
        let mut i: usize = 0;
        assert(lens.skip(0) =~= lens);
        while i < n
            invariant
                i <= n,
                n == preimages@.len(),
                lens == lens_of(preimages@),
                lens == preimage_lens(self.batch),
                forall|j: int| 0 <= j < lens.len() ==> #[trigger] lens[j] >= 0,
                budget + (total_blocks(lens) - total_blocks(lens.skip(i as int))) == cap,
                cap as int == num_rows as int / (KECCAK_BLOCK_HEIGHT as int) - 2,
                num_rows > 0,
            decreases n - i,
        {
            proof {
                crate::util::lemma_skip_step(lens, i as int);
                assert forall|j: int| 0 <= j < lens.skip(i as int).len() implies #[trigger] lens.skip(
                    i as int,
                )[j] >= 0 by {
                    assert(lens.skip(i as int)[j] == lens[j + i]);
                }
                crate::util::lemma_list_head_facts(lens.skip(i as int));
            }
            let nb = 1 + preimages[i].len() / 136;
            assert(nb == num_blocks_of(lens[i as int]));
            if nb > budget {
                proof {
                    assert(total_blocks(lens) - total_blocks(lens.skip(i as int)) + nb
                        + total_blocks(lens.skip(i as int + 1)) == total_blocks(lens));
                }
                return Err(AggregationError::CapacityExceeded);
            }
            budget = budget - nb;
            i += 1;
        }
        assert(lens.skip(n as int) =~= Seq::<int>::empty());
        Ok(())
    }

    /// Places every preimage of the batch into the shared hash table: after
    /// the capacity check, returns the rows holding each preimage's absorbed
    /// bytes and the rows holding each digest, per preimage in order, both
    /// strictly ascending.
    pub fn layout(&self, num_rows: usize) -> (r: Result<
        (Vec<usize>, Vec<usize>),
        AggregationError,
    >)
        requires
            self.batch.wf(),
            num_rows == 0 || num_rows >= 2 * KECCAK_BLOCK_HEIGHT,
        ensures
            r is Ok <==> (num_rows > 0 && self.blocks_needed() <= num_rows as int / (
            KECCAK_BLOCK_HEIGHT as int) - 2),
            r is Err ==> r == Err::<(Vec<usize>, Vec<usize>), AggregationError>(
                AggregationError::CapacityExceeded,
            ),
            r matches Ok(rows) ==> {
                &&& rows.0@.map_values(|x: usize| x as int) == preimage_rows_list(
                    preimage_lens(self.batch),
                    0,
                )
                &&& rows.1@.map_values(|x: usize| x as int) == digest_rows_list(
                    preimage_lens(self.batch),
                    0,
                )
                &&& rows.0@.len() == 136 * self.blocks_needed()
                &&& rows.1@.len() == 32 * (self.batch.chunks@.len() + 2)
                &&& strictly_ascending(rows.0@.map_values(|x: usize| x as int))
                &&& strictly_ascending(rows.1@.map_values(|x: usize| x as int))
            },
    {
        match self.check_capacity(num_rows) {
            Ok(()) => {},
            Err(e) => {
                return Err(e);
            },
        }
        let preimages = self.preimages();
        proof {
            assert(lens_of(preimages@) =~= preimage_lens(self.batch));
            assert forall|i: int| 0 <= i < lens_of(preimages@).len() implies #[trigger] lens_of(
                preimages@,
            )[i] >= 0 by {
                assert(lens_of(preimages@)[i] == preimages@[i]@.len() as int);
            }
            lemma_total_blocks_at_least(lens_of(preimages@));
            let cap = num_rows as int / (KECCAK_BLOCK_HEIGHT as int) - 2;
            assert(num_rows as int % 300 >= 0);
            assert((num_rows as int / 300) * 300 <= num_rows as int) by {
                vstd::arithmetic::div_mod::lemma_fundamental_div_mod(num_rows as int, 300);
            }
            assert(self.blocks_needed() * 300 <= cap * 300);
            assert(total_blocks(lens_of(preimages@)) * 300 <= usize::MAX);
        }
        let rows = get_indices(&preimages);
        Ok(rows)
    }

    /// The five public-input fields, copied out of the batch.
    pub fn public_input(&self) -> (r: BatchHashCircuitPublicInput)
        requires
            self.batch.wf(),
        ensures
            r.chain_id == self.batch.chain_id,
            r.first_chunk_prev_state_root@ == self.batch.chunks@[0].prev_state_root@,
            r.last_chunk_post_state_root@ == self.batch.chunks@[self.batch.chunks@.len()
                - 1].post_state_root@,
            r.last_chunk_withdraw_root@ == self.batch.chunks@[self.batch.chunks@.len()
                - 1].withdraw_root@,
            r.batch_public_input_hash@ == self.batch.batch_public_input_hash@,
    {
        let k = self.batch.chunks.len();
        BatchHashCircuitPublicInput {
            chain_id: self.batch.chain_id,
            first_chunk_prev_state_root: copy_bytes(&self.batch.chunks[0].prev_state_root),
            last_chunk_post_state_root: copy_bytes(&self.batch.chunks[k - 1].post_state_root),
            last_chunk_withdraw_root: copy_bytes(&self.batch.chunks[k - 1].withdraw_root),
            batch_public_input_hash: copy_bytes(&self.batch.batch_public_input_hash),
        }
    }

    /// The circuit's public input as field-element values, in the fixed
    /// layout: first chunk's prev state root, last chunk's post
    /// state root, last chunk's withdraw root, batch public-input hash, one
    /// element per byte, then the chain id packed into 8 elements.
    pub fn to_instance(&self) -> (r: Vec<u64>)
        requires
            self.batch.wf(),
        ensures
            r@ == instance_spec(self.batch),
            r@.len() == PUBLIC_INPUT_LEN,
    {
        let k = self.batch.chunks.len();
        assert(self.batch.chunks@[0].wf() && self.batch.chunks@[k - 1].wf());
        let mut out: Vec<u64> = Vec::new();
        out = append_bytes_as_values(out, &self.batch.chunks[0].prev_state_root);
        out = append_bytes_as_values(out, &self.batch.chunks[k - 1].post_state_root);
        out = append_bytes_as_values(out, &self.batch.chunks[k - 1].withdraw_root);
        out = append_bytes_as_values(out, &self.batch.batch_public_input_hash);
        let chain_id_bytes = u64_to_be_bytes(self.batch.chain_id);
        out = append_bytes_as_values(out, &chain_id_bytes);
        assert(out@ =~= instance_spec(self.batch));
        out
    }

    /// How the proving backend partitions the instances: one column holding
    /// the whole public-input layout.
    pub fn num_instance(&self) -> (r: Vec<usize>)
        ensures
            r@ == seq![PUBLIC_INPUT_LEN],
    {
        let mut v: Vec<usize> = Vec::new();
        v.push(PUBLIC_INPUT_LEN);
        assert(v@ =~= seq![PUBLIC_INPUT_LEN]);
        v
    }
}

/// The bytes encoded by the field-element values in `start..end`.
fn values_to_bytes(values: &Vec<u64>, start: usize, end: usize) -> (r: Vec<u8>)
    requires
        start <= end <= values@.len(),
        forall|i: int| start <= i < end ==> #[trigger] values@[i] < 256,
    ensures
        r@ == values@.subrange(start as int, end as int).map_values(|v: u64| v as u8),
{
    let mut out: Vec<u8> = Vec::new();
    let mut i: usize = start;
    while i < end
        invariant
            start <= i <= end <= values@.len(),
            forall|j: int| start <= j < end ==> #[trigger] values@[j] < 256,
            out@.len() == i - start,
            forall|j: int| 0 <= j < i - start ==> #[trigger] out@[j] == values@[j + start] as u8,
        decreases end - i,
    {
        out.push(values[i] as u8);
        i += 1;
    }
    assert(out@ =~= values@.subrange(start as int, end as int).map_values(|v: u64| v as u8));
    out
}

/// Unpacks an instance column back into the five public-input fields. It
/// accepts exactly the columns of the fixed layout length whose elements are
/// all byte values, and reads the last 8 as the chain id's big-endian bytes.
pub fn from_instance(values: &Vec<u64>) -> (r: Result<
    BatchHashCircuitPublicInput,
    AggregationError,
>)
    ensures
        r is Ok <==> (values@.len() == PUBLIC_INPUT_LEN && (forall|i: int|
            0 <= i < values@.len() ==> #[trigger] values@[i] < 256)),
        r is Err ==> r == Err::<BatchHashCircuitPublicInput, AggregationError>(
            AggregationError::WrongFieldLength,
        ),
        r matches Ok(pi) ==> {
            &&& pi.first_chunk_prev_state_root@ == values@.subrange(0, 32).map_values(
                |v: u64| v as u8,
            )
            &&& pi.last_chunk_post_state_root@ == values@.subrange(32, 64).map_values(
                |v: u64| v as u8,
            )
            &&& pi.last_chunk_withdraw_root@ == values@.subrange(64, 96).map_values(
                |v: u64| v as u8,
            )
            &&& pi.batch_public_input_hash@ == values@.subrange(96, 128).map_values(
                |v: u64| v as u8,
            )
            &&& pi.chain_id == crate::chunk::u64_from_be_bytes(
                values@.subrange(128, 136).map_values(|v: u64| v as u8),
            )
        },
{
    if values.len() != PUBLIC_INPUT_LEN {
        return Err(AggregationError::WrongFieldLength);
    }
    let mut i: usize = 0;
    while i < values.len()
        invariant
            i <= values@.len(),
            forall|j: int| 0 <= j < i ==> #[trigger] values@[j] < 256,
        decreases values@.len() - i,
    {
        if values[i] >= 256 {
            return Err(AggregationError::WrongFieldLength);
        }
        i += 1;
    }
    let chain_id_bytes = values_to_bytes(values, 128, 136);
    Ok(
        BatchHashCircuitPublicInput {
            chain_id: crate::chunk::be_bytes_to_u64(&chain_id_bytes),
            first_chunk_prev_state_root: values_to_bytes(values, 0, 32),
            last_chunk_post_state_root: values_to_bytes(values, 32, 64),
            last_chunk_withdraw_root: values_to_bytes(values, 64, 96),
            batch_public_input_hash: values_to_bytes(values, 96, 128),
        },
    )
}

/// Packing the public input into its instance column and unpacking it again
/// loses nothing: the unpacked column satisfies the unpacker's acceptance
/// condition and yields back the batch's five public-input fields.
pub proof fn lemma_instance_roundtrip(b: BatchHash)
    requires
        b.wf(),
    ensures
        instance_spec(b).len() == PUBLIC_INPUT_LEN,
        forall|i: int| 0 <= i < instance_spec(b).len() ==> #[trigger] instance_spec(b)[i] < 256,
        instance_spec(b).subrange(0, 32).map_values(|v: u64| v as u8) == b.chunks@[
            0
        ].prev_state_root@,
        instance_spec(b).subrange(32, 64).map_values(|v: u64| v as u8) == b.chunks@[b.chunks@.len()
            - 1].post_state_root@,
        instance_spec(b).subrange(64, 96).map_values(|v: u64| v as u8) == b.chunks@[b.chunks@.len()
            - 1].withdraw_root@,
        instance_spec(b).subrange(96, 128).map_values(|v: u64| v as u8)
            == b.batch_public_input_hash@,
        crate::chunk::u64_from_be_bytes(
            instance_spec(b).subrange(128, 136).map_values(|v: u64| v as u8),
        ) == b.chain_id,
{
    assert(b.chunks@[0].wf() && b.chunks@[b.chunks@.len() - 1].wf());
    assert(instance_spec(b).subrange(0, 32).map_values(|v: u64| v as u8) =~= b.chunks@[
        0
    ].prev_state_root@);
    assert(instance_spec(b).subrange(32, 64).map_values(|v: u64| v as u8) =~= b.chunks@[
        b.chunks@.len() - 1
    ].post_state_root@);
    assert(instance_spec(b).subrange(64, 96).map_values(|v: u64| v as u8) =~= b.chunks@[
        b.chunks@.len() - 1
    ].withdraw_root@);
    assert(instance_spec(b).subrange(96, 128).map_values(|v: u64| v as u8)
        =~= b.batch_public_input_hash@);
    assert(instance_spec(b).subrange(128, 136).map_values(|v: u64| v as u8) =~= u64_be_bytes(
        b.chain_id,
    ));
    crate::chunk::lemma_u64_be_bytes_roundtrip(b.chain_id);
}

/// Everything the constraint emitter consumes for one batch: the preimage
/// bytes to witness, the table rows that hold them and their digests, and
/// the public-input values.
pub struct CircuitLayout {
    pub preimages: Vec<Vec<u8>>,
    pub preimage_rows: Vec<usize>,
    pub digest_rows: Vec<usize>,
    pub instance: Vec<u64>,
}

impl BatchHashCircuit {
    /// The whole construction sequence: builds the ordered preimage list,
    /// checks the table's capacity, places every preimage, and packs the
    /// public input. Aborts before any placement if the table cannot host
    /// the batch, so no partial layout is ever handed on.
    pub fn build(&self, num_rows: usize) -> (r: Result<CircuitLayout, AggregationError>)
        requires
            self.batch.wf(),
            num_rows == 0 || num_rows >= 2 * KECCAK_BLOCK_HEIGHT,
        ensures
            r is Ok <==> (num_rows > 0 && self.blocks_needed() <= num_rows as int / (
            KECCAK_BLOCK_HEIGHT as int) - 2),
            r is Err ==> r == Err::<CircuitLayout, AggregationError>(
                AggregationError::CapacityExceeded,
            ),
            r matches Ok(l) ==> {
                &&& l.preimages@.map_values(|p: Vec<u8>| p@) == preimage_list(self.batch)
                &&& l.preimage_rows@.map_values(|x: usize| x as int) == preimage_rows_list(
                    preimage_lens(self.batch),
                    0,
                )
                &&& l.digest_rows@.map_values(|x: usize| x as int) == digest_rows_list(
                    preimage_lens(self.batch),
                    0,
                )
                &&& l.instance@ == instance_spec(self.batch)
            },
    {
        let rows = match self.layout(num_rows) {
            Ok(rows) => rows,
            Err(e) => {
                return Err(e);
            },
        };
        let preimages = self.preimages();
        let instance = self.to_instance();
        Ok(
            CircuitLayout {
                preimages,
                preimage_rows: rows.0,
                digest_rows: rows.1,
                instance,
            },
        )
    }
}

/// Every public-input preimage in the list opens with the same 8 chain-id
/// bytes: each chunk preimage and the batch preimage share one chain id.
pub proof fn lemma_preimage_list_chain_id(b: BatchHash, i: int)
    requires
        b.wf(),
        0 <= i < b.chunks@.len(),
    ensures
        preimage_list(b)[i].subrange(0, 8) == u64_be_bytes(b.chain_id),
        preimage_list(b)[b.chunks@.len() as int + 1].subrange(0, 8) == u64_be_bytes(b.chain_id),
{
    assert(b.chunks@[i].wf());
    lemma_chunk_preimage_layout(b.chunks@[i]);
    assert(b.chunks@[i].chain_id == b.chain_id);
    lemma_batch_pi_preimage_layout(b);
    assert(preimage_list(b)[i] == b.chunks@[i].pi_preimage());
    assert(preimage_list(b)[b.chunks@.len() as int + 1] == b.pi_preimage());
}

/// Linkage between the preimages in the list: the batch data preimage is the
/// chunk data hashes in order, and the batch public-input preimage carries
/// the batch data hash digest as its last 32 bytes.
pub proof fn lemma_preimage_list_linkage(b: BatchHash, i: int)
    requires
        b.wf(),
        0 <= i < b.chunks@.len(),
    ensures
        preimage_list(b)[b.chunks@.len() as int].subrange(32 * i, 32 * i + 32) == b.chunks@[
            i
        ].data_hash@,
        preimage_list(b)[b.chunks@.len() as int + 1].subrange(104, 136) == keccak256_of(
            preimage_list(b)[b.chunks@.len() as int],
        ),
{
    assert(preimage_list(b)[b.chunks@.len() as int] == batch_data_preimage(b.chunks@));
    assert(preimage_list(b)[b.chunks@.len() as int + 1] == b.pi_preimage());
    crate::batch::lemma_batch_data_preimage_chunk(b.chunks@, i);
    lemma_batch_pi_preimage_layout(b);
}

/// A minimal provable circuit around one chunk, the peripheral member of the
/// family: its single instance column is the chunk data hash followed by the
/// chunk public-input hash, one field element per byte.
pub struct MockChunkCircuit {
    pub chunk: ChunkHash,
}

impl MockChunkCircuit {
    /// One instance column of 64 field elements.
    pub fn num_instance(&self) -> (r: Vec<usize>)
        ensures
            r@ == seq![64usize],
    {
        let mut v: Vec<usize> = Vec::new();
        v.push(64);
        assert(v@ =~= seq![64usize]);
        v
    }

    /// The instance column: data hash bytes, then public-input hash bytes.
    pub fn instances(&self) -> (r: Vec<Vec<u64>>)
        requires
            self.chunk.wf(),
        ensures
            r@.len() == 1,
            r@[0]@ == self.chunk.data_hash@.map_values(|x: u8| x as u64)
                + self.chunk.pi_hash().map_values(|x: u8| x as u64),
            r@[0]@.len() == 64,
    {
        let pi_hash = self.chunk.public_input_hash();
        let mut column: Vec<u64> = Vec::new();
        column = append_bytes_as_values(column, &self.chunk.data_hash);
        column = append_bytes_as_values(column, &pi_hash);
        let mut r: Vec<Vec<u64>> = Vec::new();
        r.push(column);
        r
    }
}

} // verus!
