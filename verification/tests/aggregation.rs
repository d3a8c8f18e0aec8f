use aggregator::batch::{derive_batch_data_hash, derive_batch_pi_hash, BatchHash};
use aggregator::chunk::{derive_chunk_pi_hash, u64_to_be_bytes, ChunkHash};
use aggregator::circuit::{from_instance, BatchHashCircuit, MockChunkCircuit};
use aggregator::util::{capacity, get_indices, is_ascending, locate};
use aggregator::AggregationError;

fn keccak_ref(data: &[u8]) -> Vec<u8> {
    let mut out = [0u8; 32];
    let mut hasher = tiny_keccak::Keccak::v256();
    tiny_keccak::Hasher::update(&mut hasher, data);
    tiny_keccak::Hasher::finalize(hasher, &mut out);
    out.to_vec()
}

fn zero_chunk(chain_id: u64) -> ChunkHash {
    ChunkHash::new(chain_id, vec![0u8; 32], vec![0u8; 32], vec![0u8; 32], vec![0u8; 32]).unwrap()
}

fn chunk_with(
    chain_id: u64,
    prev: [u8; 32],
    post: [u8; 32],
    withdraw: [u8; 32],
    data: [u8; 32],
) -> ChunkHash {
    ChunkHash::new(chain_id, prev.to_vec(), post.to_vec(), withdraw.to_vec(), data.to_vec())
        .unwrap()
}

#[test]
fn chunk_pi_hash_deterministic() {
    let c = zero_chunk(1);
    let h1 = derive_chunk_pi_hash(&c);
    let h2 = derive_chunk_pi_hash(&c);
    assert_eq!(h1, h2);
    assert_eq!(h1.len(), 32);
}

#[test]
fn chunk_pi_hash_depends_on_every_field() {
    let base = zero_chunk(1);
    let base_hash = derive_chunk_pi_hash(&base);

    let other_chain = zero_chunk(2);
    assert_ne!(derive_chunk_pi_hash(&other_chain), base_hash);

    let mut one = [0u8; 32];
    one[7] = 1;
    let zero = [0u8; 32];
    let prev_changed = chunk_with(1, one, zero, zero, zero);
    assert_ne!(derive_chunk_pi_hash(&prev_changed), base_hash);
    let post_changed = chunk_with(1, zero, one, zero, zero);
    assert_ne!(derive_chunk_pi_hash(&post_changed), base_hash);
    let withdraw_changed = chunk_with(1, zero, zero, one, zero);
    assert_ne!(derive_chunk_pi_hash(&withdraw_changed), base_hash);
    let data_changed = chunk_with(1, zero, zero, zero, one);
    assert_ne!(derive_chunk_pi_hash(&data_changed), base_hash);
}

#[test]
fn chunk_pi_hash_matches_reference_keccak() {
    let c = zero_chunk(1);
    let mut preimage = 1u64.to_be_bytes().to_vec();
    preimage.extend_from_slice(&[0u8; 128]);
    assert_eq!(preimage.len(), 136);
    assert_eq!(derive_chunk_pi_hash(&c), keccak_ref(&preimage));
    assert_eq!(c.public_input_hash(), keccak_ref(&preimage));
}

#[test]
fn u64_be_bytes_layout() {
    assert_eq!(u64_to_be_bytes(1), vec![0, 0, 0, 0, 0, 0, 0, 1]);
    assert_eq!(
        u64_to_be_bytes(0x0102030405060708),
        vec![1, 2, 3, 4, 5, 6, 7, 8]
    );
}

// keccak256 of 32 zero bytes, a widely published test vector.
const KECCAK_OF_32_ZEROS: [u8; 32] = [
    0x29, 0x0d, 0xec, 0xd9, 0x54, 0x8b, 0x62, 0xa8, 0xd6, 0x03, 0x45, 0xa9, 0x88, 0x38, 0x6f,
    0xc8, 0x4b, 0xa6, 0xbc, 0x95, 0x48, 0x40, 0x08, 0xf6, 0x36, 0x2f, 0x93, 0x16, 0x0e, 0xf3,
    0xe5, 0x63,
];

// keccak256 of the empty string, a widely published test vector.
const KECCAK_OF_EMPTY: [u8; 32] = [
    0xc5, 0xd2, 0x46, 0x01, 0x86, 0xf7, 0x23, 0x3c, 0x92, 0x7e, 0x7d, 0xb2, 0xdc, 0xc7, 0x03,
    0xc0, 0xe5, 0x00, 0xb6, 0x53, 0xca, 0x82, 0x27, 0x3b, 0x7b, 0xfa, 0xd8, 0x04, 0x5d, 0x85,
    0xa4, 0x70,
];

#[test]
fn batch_data_hash_matches_known_vectors() {
    let chunks = vec![zero_chunk(1)];
    assert_eq!(derive_batch_data_hash(&chunks), KECCAK_OF_32_ZEROS.to_vec());
    let no_chunks: Vec<ChunkHash> = vec![];
    assert_eq!(derive_batch_data_hash(&no_chunks), KECCAK_OF_EMPTY.to_vec());
}

#[test]
fn batch_pi_hash_rederives_to_same_value() {
    let x = [7u8; 32];
    let zero = [0u8; 32];
    let c0 = chunk_with(5, zero, x, zero, [1u8; 32]);
    let c1 = chunk_with(5, x, [9u8; 32], [3u8; 32], [2u8; 32]);
    let batch = BatchHash::new(vec![c0, c1]).unwrap();

    let rederived_data_hash = derive_batch_data_hash(&batch.chunks);
    assert_eq!(rederived_data_hash, batch.batch_data_hash);
    let rederived_pi_hash = derive_batch_pi_hash(
        batch.chain_id,
        &batch.chunks[0].prev_state_root,
        &batch.chunks[1].post_state_root,
        &batch.chunks[1].withdraw_root,
        &rederived_data_hash,
    );
    assert_eq!(rederived_pi_hash, batch.batch_public_input_hash);
}

#[test]
fn empty_batch_is_refused() {
    assert!(matches!(
        BatchHash::new(vec![]),
        Err(AggregationError::EmptyBatch)
    ));
}

#[test]
fn wrong_field_length_is_refused() {
    assert!(matches!(
        ChunkHash::new(1, vec![0u8; 31], vec![0u8; 32], vec![0u8; 32], vec![0u8; 32]),
        Err(AggregationError::WrongFieldLength)
    ));
    let bad = ChunkHash {
        chain_id: 1,
        prev_state_root: vec![0u8; 31],
        post_state_root: vec![0u8; 32],
        withdraw_root: vec![0u8; 32],
        data_hash: vec![0u8; 32],
    };
    assert!(matches!(
        BatchHash::new(vec![bad]),
        Err(AggregationError::WrongFieldLength)
    ));
}

#[test]
fn chain_id_mismatch_is_refused() {
    let c0 = zero_chunk(1);
    let c1 = zero_chunk(2);
    assert!(matches!(
        BatchHash::new(vec![c0, c1]),
        Err(AggregationError::ChainIdMismatch)
    ));
}

#[test]
fn continuity_violation_is_refused() {
    let zero = [0u8; 32];
    let x = [0xabu8; 32];
    let c0 = chunk_with(1, zero, x, zero, zero);
    let mut y = x;
    y[0] ^= 1;
    let c1 = chunk_with(1, y, zero, zero, zero);
    assert!(matches!(
        BatchHash::new(vec![c0, c1]),
        Err(AggregationError::ContinuityViolation)
    ));
    let c0 = chunk_with(1, zero, x, zero, zero);
    let c1 = chunk_with(1, y, zero, zero, zero);
    assert!(matches!(
        BatchHashCircuit::new(vec![c0, c1]),
        Err(AggregationError::ContinuityViolation)
    ));
}

#[test]
fn single_chunk_batch_scenario() {
    let c = zero_chunk(1);
    let chunk_pi_hash = derive_chunk_pi_hash(&c);
    let batch = BatchHash::new(vec![zero_chunk(1)]).unwrap();

    // The batch data hash is the hash of the single chunk's data hash.
    assert_eq!(batch.batch_data_hash, KECCAK_OF_32_ZEROS.to_vec());

    // The batch pi preimage carries the single chunk's roots and the batch
    // data hash.
    let mut preimage = 1u64.to_be_bytes().to_vec();
    preimage.extend_from_slice(&[0u8; 96]);
    preimage.extend_from_slice(&batch.batch_data_hash);
    assert_eq!(batch.batch_public_input_hash, keccak_ref(&preimage));

    // The chunk pi hash hashes the chunk's own data hash instead.
    assert_eq!(chunk_pi_hash, derive_chunk_pi_hash(&batch.chunks[0]));
}

#[test]
fn two_chunk_batch_accepts_linked_and_refuses_tampered() {
    let x = [0x11u8; 32];
    let zero = [0u8; 32];
    let c0 = chunk_with(1, zero, x, zero, [1u8; 32]);
    let c1 = chunk_with(1, x, [2u8; 32], [3u8; 32], [4u8; 32]);
    let batch = BatchHash::new(vec![c0, c1]);
    assert!(batch.is_ok());

    let mut tampered_prev = x;
    tampered_prev[31] ^= 0x01;
    let c0 = chunk_with(1, zero, x, zero, [1u8; 32]);
    let c1_tampered = chunk_with(1, tampered_prev, [2u8; 32], [3u8; 32], [4u8; 32]);
    assert!(matches!(
        BatchHash::new(vec![c0, c1_tampered]),
        Err(AggregationError::ContinuityViolation)
    ));
}

#[test]
fn capacity_refuses_empty_table() {
    assert_eq!(capacity(0), None);
}

#[test]
fn capacity_counts_blocks_minus_margin() {
    assert_eq!(capacity(600), Some(0));
    assert_eq!(capacity(899), Some(0));
    assert_eq!(capacity(900), Some(1));
    assert_eq!(capacity(3000), Some(8));
}

#[test]
fn capacity_is_monotone_on_samples() {
    let mut last = 0;
    for rows in [600usize, 900, 1200, 2400, 4800, 100_000] {
        let c = capacity(rows).unwrap();
        assert!(c >= last);
        last = c;
    }
}

#[test]
fn is_ascending_checks_adjacent_pairs() {
    assert!(is_ascending(&[]));
    assert!(is_ascending(&[5]));
    assert!(is_ascending(&[1, 2, 2, 3]));
    assert!(!is_ascending(&[1, 3, 2]));
}

#[test]
fn get_indices_rate_sized_preimage_takes_two_blocks() {
    // A preimage of exactly one rate (136 bytes) still reserves an extra
    // block for padding: 2 blocks of preimage rows, one digest row set.
    let preimages = vec![vec![0u8; 136]];
    let (preimage_rows, digest_rows) = get_indices(&preimages);
    assert_eq!(preimage_rows.len(), 2 * 136);
    assert_eq!(digest_rows.len(), 32);
    // First word of the first block sits right after the 12 header rows.
    assert_eq!(&preimage_rows[0..9], &[12, 13, 14, 15, 16, 17, 18, 19, 24]);
    // The second block starts at row 300 + 12.
    assert_eq!(preimage_rows[136], 312);
    // The digest sits in the last block at offset 252.
    assert_eq!(digest_rows[0], 300 + 252);
    assert_eq!(digest_rows[31], 300 + 3 * 12 + 7 + 252);
}

#[test]
fn get_indices_lengths_and_ascension() {
    let preimages = vec![vec![1u8; 0], vec![2u8; 136], vec![3u8; 10], vec![4u8; 272]];
    // Block counts: 1, 2, 1, 3 -> 7 blocks in all.
    let (preimage_rows, digest_rows) = get_indices(&preimages);
    assert_eq!(preimage_rows.len(), 7 * 136);
    assert_eq!(digest_rows.len(), 4 * 32);
    assert!(preimage_rows.windows(2).all(|w| w[0] < w[1]));
    assert!(digest_rows.windows(2).all(|w| w[0] < w[1]));
    assert!(is_ascending(&preimage_rows));
    assert!(is_ascending(&digest_rows));
}

#[test]
fn locate_gives_one_row_set_per_preimage() {
    let preimages = vec![vec![0u8; 136], vec![1u8; 10]];
    let sets = locate(&preimages);
    assert_eq!(sets.len(), 2);
    // First preimage: 2 blocks of absorbed rows, digest in its second block.
    assert_eq!(sets[0].preimage_row_indices.len(), 2 * 136);
    assert_eq!(sets[0].preimage_row_indices[0], 12);
    assert_eq!(sets[0].digest_row_indices.len(), 32);
    assert_eq!(sets[0].digest_row_indices[0], 300 + 252);
    // Second preimage: 1 block starting after the first preimage's 2 blocks.
    assert_eq!(sets[1].preimage_row_indices.len(), 136);
    assert_eq!(sets[1].preimage_row_indices[0], 2 * 300 + 12);
    assert_eq!(sets[1].digest_row_indices[0], 2 * 300 + 252);
    // The flat placement agrees with the per-preimage one.
    let (flat_preimage_rows, flat_digest_rows) = get_indices(&preimages);
    let joined_preimage: Vec<usize> = sets
        .iter()
        .flat_map(|s| s.preimage_row_indices.iter().copied())
        .collect();
    let joined_digest: Vec<usize> = sets
        .iter()
        .flat_map(|s| s.digest_row_indices.iter().copied())
        .collect();
    assert_eq!(joined_preimage, flat_preimage_rows);
    assert_eq!(joined_digest, flat_digest_rows);
    // Preimage rows and digest rows never collide.
    for p in &joined_preimage {
        assert!(!joined_digest.contains(p));
    }
}

#[test]
fn circuit_preimages_list_layout() {
    let x = [0x42u8; 32];
    let zero = [0u8; 32];
    let c0 = chunk_with(9, zero, x, [5u8; 32], [6u8; 32]);
    let c1 = chunk_with(9, x, [7u8; 32], [8u8; 32], [9u8; 32]);
    let circuit = BatchHashCircuit::new(vec![c0, c1]).unwrap();
    let preimages = circuit.preimages();
    assert_eq!(preimages.len(), 4);
    // One 136-byte preimage per chunk.
    assert_eq!(preimages[0].len(), 136);
    assert_eq!(preimages[1].len(), 136);
    assert_eq!(&preimages[0][0..8], &9u64.to_be_bytes());
    assert_eq!(&preimages[1][0..8], &9u64.to_be_bytes());
    // The batch data preimage concatenates the chunk data hashes.
    assert_eq!(preimages[2].len(), 64);
    assert_eq!(&preimages[2][0..32], &[6u8; 32]);
    assert_eq!(&preimages[2][32..64], &[9u8; 32]);
    // The batch pi preimage carries the data hash digest as its last 32 bytes.
    assert_eq!(preimages[3].len(), 136);
    assert_eq!(&preimages[3][0..8], &9u64.to_be_bytes());
    assert_eq!(&preimages[3][104..136], &keccak_ref(&preimages[2])[..]);
}

#[test]
fn circuit_capacity_check_and_layout() {
    let circuit = BatchHashCircuit::new(vec![zero_chunk(1)]).unwrap();
    // Blocks needed: chunk preimage 2, data preimage 1, pi preimage 2 -> 5.
    assert!(matches!(
        circuit.check_capacity(600),
        Err(AggregationError::CapacityExceeded)
    ));
    assert!(matches!(
        circuit.layout(600),
        Err(AggregationError::CapacityExceeded)
    ));
    assert!(circuit.check_capacity((5 + 2) * 300).is_ok());
    let (preimage_rows, digest_rows) = circuit.layout((5 + 2) * 300).unwrap();
    assert_eq!(preimage_rows.len(), 5 * 136);
    assert_eq!(digest_rows.len(), 3 * 32);
    assert!(preimage_rows.windows(2).all(|w| w[0] < w[1]));
    assert!(digest_rows.windows(2).all(|w| w[0] < w[1]));
}

#[test]
fn circuit_build_bundles_the_whole_layout() {
    let circuit = BatchHashCircuit::new(vec![zero_chunk(1)]).unwrap();
    assert!(matches!(
        circuit.build(600),
        Err(AggregationError::CapacityExceeded)
    ));
    let layout = circuit.build(7 * 300).unwrap();
    assert_eq!(layout.preimages, circuit.preimages());
    let (preimage_rows, digest_rows) = circuit.layout(7 * 300).unwrap();
    assert_eq!(layout.preimage_rows, preimage_rows);
    assert_eq!(layout.digest_rows, digest_rows);
    assert_eq!(layout.instance, circuit.to_instance());
}

#[test]
fn instance_layout_is_roots_hash_then_chain_id() {
    let circuit = BatchHashCircuit::new(vec![zero_chunk(1)]).unwrap();
    let instance = circuit.to_instance();
    assert_eq!(instance.len(), 136);
    assert_eq!(circuit.num_instance(), vec![136]);
    assert!(instance[0..96].iter().all(|&v| v == 0));
    let pi_hash: Vec<u64> =
        circuit.batch.batch_public_input_hash.iter().map(|&b| b as u64).collect();
    assert_eq!(&instance[96..128], &pi_hash[..]);
    assert_eq!(&instance[128..136], &[0, 0, 0, 0, 0, 0, 0, 1]);
    assert!(instance.iter().all(|&v| v < 256));
}

#[test]
fn instance_roundtrip_recovers_public_input() {
    let x = [0x33u8; 32];
    let zero = [0u8; 32];
    let c0 = chunk_with(0x0102030405060708, [1u8; 32], x, zero, [2u8; 32]);
    let c1 = chunk_with(0x0102030405060708, x, [3u8; 32], [4u8; 32], [5u8; 32]);
    let circuit = BatchHashCircuit::new(vec![c0, c1]).unwrap();
    let instance = circuit.to_instance();
    let unpacked = from_instance(&instance).unwrap();
    let packed = circuit.public_input();
    assert_eq!(unpacked.chain_id, packed.chain_id);
    assert_eq!(
        unpacked.first_chunk_prev_state_root,
        packed.first_chunk_prev_state_root
    );
    assert_eq!(
        unpacked.last_chunk_post_state_root,
        packed.last_chunk_post_state_root
    );
    assert_eq!(
        unpacked.last_chunk_withdraw_root,
        packed.last_chunk_withdraw_root
    );
    assert_eq!(
        unpacked.batch_public_input_hash,
        packed.batch_public_input_hash
    );
}

#[test]
fn from_instance_refuses_malformed_columns() {
    assert!(matches!(
        from_instance(&vec![0u64; 131]),
        Err(AggregationError::WrongFieldLength)
    ));
    let mut column = vec![0u64; 136];
    column[5] = 256;
    assert!(matches!(
        from_instance(&column),
        Err(AggregationError::WrongFieldLength)
    ));
    column[5] = 255;
    assert!(from_instance(&column).is_ok());
}

#[test]
fn circuit_public_input_fields() {
    let x = [0x21u8; 32];
    let zero = [0u8; 32];
    let c0 = chunk_with(4, [1u8; 32], x, zero, zero);
    let c1 = chunk_with(4, x, [2u8; 32], [3u8; 32], zero);
    let circuit = BatchHashCircuit::new(vec![c0, c1]).unwrap();
    let pi = circuit.public_input();
    assert_eq!(pi.chain_id, 4);
    assert_eq!(pi.first_chunk_prev_state_root, vec![1u8; 32]);
    assert_eq!(pi.last_chunk_post_state_root, vec![2u8; 32]);
    assert_eq!(pi.last_chunk_withdraw_root, vec![3u8; 32]);
    assert_eq!(pi.batch_public_input_hash, circuit.batch.batch_public_input_hash);
}

#[test]
fn mock_chunk_circuit_instances() {
    let c = zero_chunk(1);
    let expected_pi_hash = derive_chunk_pi_hash(&c);
    let mock = MockChunkCircuit { chunk: zero_chunk(1) };
    assert_eq!(mock.num_instance(), vec![64]);
    let instances = mock.instances();
    assert_eq!(instances.len(), 1);
    assert_eq!(instances[0].len(), 64);
    assert!(instances[0][0..32].iter().all(|&v| v == 0));
    let expected: Vec<u64> = expected_pi_hash.iter().map(|&b| b as u64).collect();
    assert_eq!(&instances[0][32..64], &expected[..]);
}
