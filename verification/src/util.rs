//! Row-layout allocator: maps an ordered list of byte preimages onto the
//! physical rows of the shared hash-permutation table, and computes how many
//! absorption blocks a table of a given height can host.

use vstd::prelude::*;

verus! {

use crate::{DEFAULT_KECCAK_ROWS, KECCAK_BLOCK_HEIGHT, KECCAK_RATE, NUM_ROUNDS};

/// Absorption blocks a preimage of `len` bytes occupies: one per started
/// rate-sized block, plus one always reserved so the hash's padding has room.
pub open spec fn num_blocks_of(len: int) -> int {
    1 + len / (KECCAK_RATE as int)
}

/// Row of absorbed preimage byte `b` (0 <= b < 136) of the block at `round`:
/// byte `b` sits in eight-byte word `b / 8`, each word spans 12 rows, and 12
/// header rows at the start of each block are skipped.
pub open spec fn preimage_row(round: int, b: int) -> int {
    round * 300 + (b / 8) * 12 + b % 8 + 12
}

/// Row of digest byte `b` (0 <= b < 32) of the block at `round`: the digest
/// occupies the first four words at a fixed late-row offset of its block.
pub open spec fn digest_row(round: int, b: int) -> int {
    round * 300 + (b / 8) * 12 + b % 8 + 252
}

/// Preimage rows of `nb` consecutive absorption blocks starting at `round0`.
pub open spec fn block_preimage_rows(round0: int, nb: int) -> Seq<int>
    decreases nb,
{
    if nb <= 0 {
        Seq::empty()
    } else {
        Seq::new(136, |b: int| preimage_row(round0, b)) + block_preimage_rows(round0 + 1, nb - 1)
    }
}

/// Preimage rows of a list of preimage lengths, absorbed back to back
/// starting at `round0`.
pub open spec fn preimage_rows_list(lens: Seq<int>, round0: int) -> Seq<int>
    decreases lens.len(),
{
    if lens.len() == 0 {
        Seq::empty()
    } else {
        block_preimage_rows(round0, num_blocks_of(lens[0])) + preimage_rows_list(
            lens.drop_first(),
            round0 + num_blocks_of(lens[0]),
        )
    }
}

/// Digest rows of the same list: each preimage's digest sits in its last
/// absorption block.
pub open spec fn digest_rows_list(lens: Seq<int>, round0: int) -> Seq<int>
    decreases lens.len(),
{
    if lens.len() == 0 {
        Seq::empty()
    } else {
        Seq::new(32, |b: int| digest_row(round0 + num_blocks_of(lens[0]) - 1, b))
            + digest_rows_list(lens.drop_first(), round0 + num_blocks_of(lens[0]))
    }
}

/// Total absorption blocks of the whole list.
pub open spec fn total_blocks(lens: Seq<int>) -> int
    decreases lens.len(),
{
    if lens.len() == 0 {
        0
    } else {
        num_blocks_of(lens[0]) + total_blocks(lens.drop_first())
    }
}

/// The preimage lengths, as mathematical integers.
pub open spec fn lens_of(preimages: Seq<Vec<u8>>) -> Seq<int> {
    preimages.map_values(|p: Vec<u8>| p@.len() as int)
}

/// Whether adjacent elements strictly increase.
pub open spec fn strictly_ascending(s: Seq<int>) -> bool {
    forall|i: int| 0 <= i < s.len() - 1 ==> #[trigger] s[i] < s[i + 1]
}

/// Number of absorption blocks a table of `num_rows` rows can host: the
/// blocks that fit, minus two reserved as unusable margin at the table edges.
/// No capacity is defined for an empty or negative row count.
pub open spec fn capacity_spec(num_rows: int) -> Option<int> {
    if num_rows <= 0 {
        None
    } else {
        Some(num_rows / (KECCAK_BLOCK_HEIGHT as int) - 2)
    }
}

/// Number of absorption blocks a table of `num_rows` rows can host.
///
/// Row counts between 1 and `2 * KECCAK_BLOCK_HEIGHT - 1` are excluded: the
/// two-block margin would exceed what fits, and the subtraction has no value
/// in `usize`.
pub fn capacity(num_rows: usize) -> (r: Option<usize>)
    requires
        num_rows == 0 || num_rows >= 2 * KECCAK_BLOCK_HEIGHT,
    ensures
        num_rows == 0 ==> r is None,
        num_rows > 0 ==> r == Some((num_rows / KECCAK_BLOCK_HEIGHT - 2) as usize),
        r is Some <==> capacity_spec(num_rows as int) is Some,
        r is Some ==> Some(r.unwrap() as int) == capacity_spec(num_rows as int),
{
    if num_rows > 0 {
        // Subtract two for unusable rows
        Some(num_rows / ((NUM_ROUNDS + 1) * DEFAULT_KECCAK_ROWS) - 2)
    } else {
        None
    }
}

/// Capacity never decreases as the table grows: for any two positive row
/// counts, the larger table hosts at least as many absorption blocks.
pub proof fn lemma_capacity_monotone(n1: int, n2: int)
    requires
        0 < n1 <= n2,
    ensures
        capacity_spec(n1) is Some,
        capacity_spec(n2) is Some,
        capacity_spec(n1).unwrap() <= capacity_spec(n2).unwrap(),
{
    vstd::arithmetic::div_mod::lemma_div_is_ordered(n1, n2, KECCAK_BLOCK_HEIGHT as int);
}

/// Whether adjacent elements never decrease.
pub open spec fn ascending_spec(s: Seq<usize>) -> bool {
    forall|i: int| 0 <= i < s.len() - 1 ==> #[trigger] s[i] <= s[i + 1]
}

/// Whether the slice is sorted in non-decreasing order.
pub fn is_ascending(a: &[usize]) -> (r: bool)
    ensures
        r == ascending_spec(a@),
{
    let n = a.len();
    if n == 0 {
        return true;
    }
    let mut i: usize = 0;
    while i < n - 1
        invariant
            n == a@.len(),
            1 <= n,
            i <= n - 1,
            forall|j: int| 0 <= j < i ==> #[trigger] a@[j] <= a@[j + 1],
        decreases n - i,
    {
        if a[i] > a[i + 1] {
            assert(!ascending_spec(a@));
            return false;
        }
        i += 1;
    }
    true
}

/// Appends the 136 preimage rows of the block at `round`.
fn push_block_rows(indices: Vec<usize>, round: usize) -> (r: Vec<usize>)
    requires
        round * 300 + 300 <= usize::MAX,
    ensures
        r@.map_values(|x: usize| x as int) == indices@.map_values(|x: usize| x as int) + Seq::new(
            136,
            |b: int| preimage_row(round as int, b),
        ),
        r@.len() == indices@.len() + 136,
{
    let mut v = indices;
    let ghost n0 = indices@.len();
    let mut b: usize = 0;
    while b < 136
        invariant
            b <= 136,
            round * 300 + 300 <= usize::MAX,
            v@.len() == n0 + b,
            forall|j: int| 0 <= j < n0 ==> #[trigger] v@[j] == indices@[j],
            forall|j: int| n0 <= j < n0 + b ==> #[trigger] v@[j] as int == preimage_row(
                round as int,
                j - n0,
            ),
        decreases 136 - b,
    {
        let row: usize = round * 300 + (b / 8) * 12 + b % 8 + 12;
        assert(row as int == preimage_row(round as int, b as int));
        v.push(row);
        b += 1;
    }
    assert(v@.map_values(|x: usize| x as int) =~= indices@.map_values(|x: usize| x as int)
        + Seq::new(136, |b: int| preimage_row(round as int, b)));
    v
}

/// Appends the 32 digest rows of the block at `round`.
fn push_digest_rows(indices: Vec<usize>, round: usize) -> (r: Vec<usize>)
    requires
        round * 300 + 300 <= usize::MAX,
    ensures
        r@.map_values(|x: usize| x as int) == indices@.map_values(|x: usize| x as int) + Seq::new(
            32,
            |b: int| digest_row(round as int, b),
        ),
        r@.len() == indices@.len() + 32,
{
    let mut v = indices;
    let ghost n0 = indices@.len();
    let mut b: usize = 0;
    while b < 32
        invariant
            b <= 32,
            round * 300 + 300 <= usize::MAX,
            v@.len() == n0 + b,
            forall|j: int| 0 <= j < n0 ==> #[trigger] v@[j] == indices@[j],
            forall|j: int| n0 <= j < n0 + b ==> #[trigger] v@[j] as int == digest_row(
                round as int,
                j - n0,
            ),
        decreases 32 - b,
    {
        let row: usize = round * 300 + (b / 8) * 12 + b % 8 + 252;
        assert(row as int == digest_row(round as int, b as int));
        v.push(row);
        b += 1;
    }
    assert(v@.map_values(|x: usize| x as int) =~= indices@.map_values(|x: usize| x as int)
        + Seq::new(32, |b: int| digest_row(round as int, b)));
    v
}

/// For each preimage in order: the rows of the shared hash table that hold
/// its absorbed input bytes, and the rows that hold its digest bytes. Both
/// index lists are strictly ascending; the rows of distinct preimages never
/// overlap, because the block counter only moves forward.
pub fn get_indices(preimages: &Vec<Vec<u8>>) -> (r: (Vec<usize>, Vec<usize>))
    requires
        total_blocks(lens_of(preimages@)) * 300 <= usize::MAX,
    ensures
        r.0@.map_values(|x: usize| x as int) == preimage_rows_list(lens_of(preimages@), 0),
        r.1@.map_values(|x: usize| x as int) == digest_rows_list(lens_of(preimages@), 0),
        r.0@.len() == 136 * total_blocks(lens_of(preimages@)),
        r.1@.len() == 32 * preimages@.len(),
        strictly_ascending(r.0@.map_values(|x: usize| x as int)),
        strictly_ascending(r.1@.map_values(|x: usize| x as int)),
{
    let ghost lens = lens_of(preimages@);
    let ghost total = total_blocks(lens);
    proof {
        assert forall|i: int| 0 <= i < lens.len() implies #[trigger] lens[i] >= 0 by {
            assert(lens[i] == preimages@[i]@.len() as int);
        }
        lemma_total_blocks_at_least(lens);
    }
    let mut preimage_indices: Vec<usize> = Vec::new();
    let mut digest_indices: Vec<usize> = Vec::new();
    let mut round_ctr: usize = 0;
    let mut p: usize = 0;
    assert(lens.skip(0) =~= lens);
    while p < preimages.len()
        invariant
            p <= preimages@.len(),
            lens == lens_of(preimages@),
            total == total_blocks(lens),
            total * 300 <= usize::MAX,
            forall|i: int| 0 <= i < lens.len() ==> #[trigger] lens[i] >= 0,
            round_ctr + total_blocks(lens.skip(p as int)) == total,
            total_blocks(lens.skip(p as int)) >= 0,
            preimage_indices@.map_values(|x: usize| x as int) + preimage_rows_list(
                lens.skip(p as int),
                round_ctr as int,
            ) == preimage_rows_list(lens, 0),
            digest_indices@.map_values(|x: usize| x as int) + digest_rows_list(
                lens.skip(p as int),
                round_ctr as int,
            ) == digest_rows_list(lens, 0),
        decreases preimages@.len() - p,
    {
        proof {
            lemma_skip_step(lens, p as int);
            assert forall|i: int| 0 <= i < lens.skip(p as int).len() implies #[trigger] lens.skip(
                p as int,
            )[i] >= 0 by {
                assert(lens.skip(p as int)[i] == lens[i + p]);
            }
            lemma_list_head_facts(lens.skip(p as int));
        }
        let plen = preimages[p].len();
        let num_blocks = 1 + plen / 136;
        let ghost nb = num_blocks_of(lens[p as int]);
        assert(num_blocks == nb);
        let ghost round_entry = round_ctr as int;
        let ghost rest_after = total_blocks(lens.skip(p as int + 1));
        assert(round_entry + nb + rest_after == total);
        assert(preimage_rows_list(lens.skip(p as int), round_entry) == block_preimage_rows(
            round_entry,
            nb,
        ) + preimage_rows_list(lens.skip(p as int + 1), round_entry + nb));
        assert(digest_rows_list(lens.skip(p as int), round_entry) == Seq::new(
            32,
            |b: int| digest_row(round_entry + nb - 1, b),
        ) + digest_rows_list(lens.skip(p as int + 1), round_entry + nb));
        let mut i: usize = 0;
        while i < num_blocks
            invariant
                i <= num_blocks,
                num_blocks == nb,
                round_ctr as int == round_entry + i,
                round_entry + nb + rest_after == total,
                rest_after >= 0,
                total * 300 <= usize::MAX,
                lens == lens_of(preimages@),
                total == total_blocks(lens),
                forall|i2: int| 0 <= i2 < lens.len() ==> #[trigger] lens[i2] >= 0,
                p < preimages@.len(),
                preimage_indices@.map_values(|x: usize| x as int) + block_preimage_rows(
                    round_ctr as int,
                    nb - i,
                ) + preimage_rows_list(lens.skip(p as int + 1), round_entry + nb)
                    == preimage_rows_list(lens, 0),
                digest_indices@.map_values(|x: usize| x as int) + (if i < num_blocks {
                    Seq::new(32, |b: int| digest_row(round_entry + nb - 1, b))
                } else {
                    Seq::empty()
                }) + digest_rows_list(lens.skip(p as int + 1), round_entry + nb)
                    == digest_rows_list(lens, 0),
            decreases num_blocks - i,
        {
            assert((round_ctr + 1) * 300 <= total * 300);
            let ghost pre_before = preimage_indices@.map_values(|x: usize| x as int);
            preimage_indices = push_block_rows(preimage_indices, round_ctr);
            proof {
                assert(block_preimage_rows(round_ctr as int, nb - i) == Seq::new(
                    136,
                    |b: int| preimage_row(round_ctr as int, b),
                ) + block_preimage_rows(round_ctr as int + 1, nb - i - 1));
                assert(preimage_indices@.map_values(|x: usize| x as int) + block_preimage_rows(
                    round_ctr as int + 1,
                    nb - (i + 1),
                ) =~= pre_before + block_preimage_rows(round_ctr as int, nb - i));
            }
            if i == num_blocks - 1 {
                let ghost dig_before = digest_indices@.map_values(|x: usize| x as int);
                digest_indices = push_digest_rows(digest_indices, round_ctr);
                proof {
                    assert(round_ctr as int == round_entry + nb - 1);
                    assert(digest_indices@.map_values(|x: usize| x as int) =~= dig_before
                        + Seq::new(32, |b: int| digest_row(round_entry + nb - 1, b)));
                    assert(digest_indices@.map_values(|x: usize| x as int) + Seq::empty()
                        =~= digest_indices@.map_values(|x: usize| x as int));
                }
            }
            round_ctr = round_ctr + 1;
            i += 1;
        }
        assert(block_preimage_rows(round_ctr as int, 0) == Seq::<int>::empty());
        assert(preimage_indices@.map_values(|x: usize| x as int) + preimage_rows_list(
            lens.skip(p as int + 1),
            round_ctr as int,
        ) =~= preimage_indices@.map_values(|x: usize| x as int) + block_preimage_rows(
            round_ctr as int,
            0,
        ) + preimage_rows_list(lens.skip(p as int + 1), round_entry + nb));
        assert(digest_indices@.map_values(|x: usize| x as int) + digest_rows_list(
            lens.skip(p as int + 1),
            round_ctr as int,
        ) =~= digest_indices@.map_values(|x: usize| x as int) + Seq::<int>::empty()
            + digest_rows_list(lens.skip(p as int + 1), round_entry + nb));
        p += 1;
    }
    proof {
        assert(lens.skip(p as int) =~= Seq::<int>::empty());
        assert(preimage_indices@.map_values(|x: usize| x as int) =~= preimage_rows_list(lens, 0));
        assert(digest_indices@.map_values(|x: usize| x as int) =~= digest_rows_list(lens, 0));
        lemma_preimage_rows_list_props(lens, 0);
        lemma_digest_rows_list_props(lens, 0);
        assert(preimage_indices@.len() == preimage_indices@.map_values(
            |x: usize| x as int,
        ).len());
        assert(digest_indices@.len() == digest_indices@.map_values(|x: usize| x as int).len());
    }
    (preimage_indices, digest_indices)
}

/// Allocator output for one preimage: the rows holding its absorbed input
/// bytes and the rows holding its digest, both strictly ascending. Not
/// persisted; recomputed per circuit build from the ordered preimage list.
pub struct RowIndexSet {
    pub preimage_row_indices: Vec<usize>,
    pub digest_row_indices: Vec<usize>,
}

/// The same placement that `get_indices` returns flat, as one typed row set
/// per preimage: preimage `j` owns the blocks after `blocks_before(lens, j)`.
pub fn locate(preimages: &Vec<Vec<u8>>) -> (r: Vec<RowIndexSet>)
    requires
        total_blocks(lens_of(preimages@)) * 300 <= usize::MAX,
    ensures
        r@.len() == preimages@.len(),
        forall|j: int|
            0 <= j < r@.len() ==> (#[trigger] r@[j]).preimage_row_indices@.map_values(
                |x: usize| x as int,
            ) == block_preimage_rows(
                blocks_before(lens_of(preimages@), j),
                num_blocks_of(lens_of(preimages@)[j]),
            ),
        forall|j: int|
            0 <= j < r@.len() ==> (#[trigger] r@[j]).digest_row_indices@.map_values(
                |x: usize| x as int,
            ) == Seq::new(
                32,
                |b: int|
                    digest_row(
                        blocks_before(lens_of(preimages@), j) + num_blocks_of(
                            lens_of(preimages@)[j],
                        ) - 1,
                        b,
                    ),
            ),
        forall|j: int|
            0 <= j < r@.len() ==> strictly_ascending(
                (#[trigger] r@[j]).preimage_row_indices@.map_values(|x: usize| x as int),
            ) && strictly_ascending(r@[j].digest_row_indices@.map_values(|x: usize| x as int)),
{
    let ghost lens = lens_of(preimages@);
    let ghost total = total_blocks(lens);
    proof {
        assert forall|i: int| 0 <= i < lens.len() implies #[trigger] lens[i] >= 0 by {
            assert(lens[i] == preimages@[i]@.len() as int);
        }
        lemma_total_blocks_at_least(lens);
    }
    let mut out: Vec<RowIndexSet> = Vec::new();
    let mut round_ctr: usize = 0;
    let mut p: usize = 0;
    assert(lens.take(0) =~= Seq::<int>::empty());
    assert(lens.skip(0) =~= lens);
    while p < preimages.len()
        invariant
            p <= preimages@.len(),
            lens == lens_of(preimages@),
            total == total_blocks(lens),
            total * 300 <= usize::MAX,
            forall|i: int| 0 <= i < lens.len() ==> #[trigger] lens[i] >= 0,
            round_ctr as int == blocks_before(lens, p as int),
            round_ctr + total_blocks(lens.skip(p as int)) == total,
            out@.len() == p,
            forall|j: int|
                0 <= j < p ==> (#[trigger] out@[j]).preimage_row_indices@.map_values(
                    |x: usize| x as int,
                ) == block_preimage_rows(blocks_before(lens, j), num_blocks_of(lens[j])),
            forall|j: int|
                0 <= j < p ==> (#[trigger] out@[j]).digest_row_indices@.map_values(
                    |x: usize| x as int,
                ) == Seq::new(
                    32,
                    |b: int| digest_row(blocks_before(lens, j) + num_blocks_of(lens[j]) - 1, b),
                ),
        decreases preimages@.len() - p,
    {
        proof {
            lemma_skip_step(lens, p as int);
            assert forall|i: int| 0 <= i < lens.skip(p as int).len() implies #[trigger] lens.skip(
                p as int,
            )[i] >= 0 by {
                assert(lens.skip(p as int)[i] == lens[i + p]);
            }
            lemma_list_head_facts(lens.skip(p as int));
        }
        let plen = preimages[p].len();
        let num_blocks = 1 + plen / 136;
        let ghost nb = num_blocks_of(lens[p as int]);
        assert(num_blocks == nb);
        let ghost round_entry = round_ctr as int;
        assert(round_entry + nb <= total);
        let mut pre: Vec<usize> = Vec::new();
        let mut dig: Vec<usize> = Vec::new();
        assert(pre@.map_values(|x: usize| x as int) =~= block_preimage_rows(round_entry, 0));
        let mut i: usize = 0;
        while i < num_blocks
            invariant
                i <= num_blocks,
                num_blocks == nb,
                round_ctr as int == round_entry + i,
                round_entry >= 0,
                round_entry + nb <= total,
                total * 300 <= usize::MAX,
                pre@.map_values(|x: usize| x as int) == block_preimage_rows(round_entry, i as int),
                dig@.map_values(|x: usize| x as int) == (if i < num_blocks {
                    Seq::<int>::empty()
                } else {
                    Seq::new(32, |b: int| digest_row(round_entry + nb - 1, b))
                }),
            decreases num_blocks - i,
        {
            assert((round_ctr + 1) * 300 <= total * 300);
            pre = push_block_rows(pre, round_ctr);
            proof {
                lemma_block_rows_snoc(round_entry, i as int);
            }
            if i == num_blocks - 1 {
                dig = push_digest_rows(dig, round_ctr);
                assert(dig@.map_values(|x: usize| x as int) =~= Seq::new(
                    32,
                    |b: int| digest_row(round_entry + nb - 1, b),
                ));
            }
            round_ctr = round_ctr + 1;
            i += 1;
        }
        out.push(
            RowIndexSet {
                preimage_row_indices: pre,
                digest_row_indices: dig,
            },
        );
        proof {
            assert(lens.take(p as int + 1) =~= lens.take(p as int).push(lens[p as int]));
            lemma_total_blocks_push(lens.take(p as int), lens[p as int]);
        }
        p += 1;
    }
    proof {
        assert forall|j: int|
            0 <= j < out@.len() implies strictly_ascending(
            (#[trigger] out@[j]).preimage_row_indices@.map_values(|x: usize| x as int),
        ) && strictly_ascending(
            out@[j].digest_row_indices@.map_values(|x: usize| x as int),
        ) by {
            assert(lens.take(j) =~= lens.take(j).take(j));
            assert forall|i: int| 0 <= i < lens.take(j).len() implies #[trigger] lens.take(j)[i]
                >= 0 by {
                assert(lens.take(j)[i] == lens[i]);
            }
            lemma_total_blocks_at_least(lens.take(j));
            lemma_block_rows_props(blocks_before(lens, j), num_blocks_of(lens[j]));
            lemma_digest_block_ascending(blocks_before(lens, j) + num_blocks_of(lens[j]) - 1);
        }
    }
    out
}

/// Dropping the head of a suffix steps the suffix forward.
pub proof fn lemma_skip_step<T>(s: Seq<T>, p: int)
    requires
        0 <= p < s.len(),
    ensures
        s.skip(p).len() == s.len() - p,
        s.skip(p)[0] == s[p],
        s.skip(p).drop_first() == s.skip(p + 1),
{
    assert(s.skip(p).drop_first() =~= s.skip(p + 1));
}

/// A list of nonnegative lengths needs at least one block per preimage.
pub proof fn lemma_total_blocks_at_least(lens: Seq<int>)
    requires
        forall|i: int| 0 <= i < lens.len() ==> #[trigger] lens[i] >= 0,
    ensures
        total_blocks(lens) >= lens.len(),
    decreases lens.len(),
{
    if lens.len() > 0 {
        assert forall|i: int| 0 <= i < lens.drop_first().len() implies #[trigger] lens.drop_first()[i] >= 0 by {
            assert(lens.drop_first()[i] == lens[i + 1]);
        }
        lemma_total_blocks_at_least(lens.drop_first());
    }
}

/// The rows of consecutive blocks are strictly ascending and stay within the
/// blocks' row span.
proof fn lemma_block_rows_props(round0: int, nb: int)
    requires
        round0 >= 0,
        nb >= 0,
    ensures
        block_preimage_rows(round0, nb).len() == 136 * nb,
        forall|t: int|
            0 <= t < 136 * nb ==> round0 * 300 + 12 <= #[trigger] block_preimage_rows(round0, nb)[t]
                <= (round0 + nb) * 300 - 89,
        forall|t: int|
            0 <= t < 136 * nb ==> 12 <= #[trigger] block_preimage_rows(round0, nb)[t] % 300 <= 211,
        strictly_ascending(block_preimage_rows(round0, nb)),
    decreases nb,
{
    if nb > 0 {
        lemma_block_rows_props(round0 + 1, nb - 1);
        let rows = block_preimage_rows(round0, nb);
        let head = Seq::new(136, |b: int| preimage_row(round0, b));
        let tail = block_preimage_rows(round0 + 1, nb - 1);
        assert forall|b: int| 0 <= b < 136 implies round0 * 300 + 12 <= #[trigger] head[b]
            <= round0 * 300 + 211 && 12 <= head[b] % 300 <= 211 by {
            assert(0 <= b / 8 <= 16);
            assert(0 <= b % 8 <= 7);
            let offset = (b / 8) * 12 + b % 8 + 12;
            vstd::arithmetic::div_mod::lemma_mod_multiples_vanish(round0, offset, 300);
            vstd::arithmetic::div_mod::lemma_small_mod(offset as nat, 300);
            assert(head[b] == 300 * round0 + offset);
        }
        assert forall|b: int| 0 <= b < 135 implies #[trigger] head[b] < head[b + 1] by {
            if b % 8 == 7 {
                assert((b + 1) / 8 == b / 8 + 1);
                assert((b + 1) % 8 == 0);
            } else {
                assert((b + 1) / 8 == b / 8);
                assert((b + 1) % 8 == b % 8 + 1);
            }
        }
        assert forall|t: int| 0 <= t < 136 * nb implies round0 * 300 + 12 <= #[trigger] rows[t]
            <= (round0 + nb) * 300 - 89 && 12 <= rows[t] % 300 <= 211 by {
            if t < 136 {
                assert(rows[t] == head[t]);
            } else {
                assert(rows[t] == tail[t - 136]);
            }
        }
        assert forall|t: int| 0 <= t < rows.len() - 1 implies #[trigger] rows[t] < rows[t + 1] by {
            if t + 1 < 136 {
                assert(rows[t] == head[t] && rows[t + 1] == head[t + 1]);
            } else if t + 1 == 136 {
                assert(rows[t] == head[t]);
                assert(head[t] <= round0 * 300 + 211);
                assert(rows[t + 1] == tail[0]);
                assert(tail[0] >= (round0 + 1) * 300 + 12);
            } else {
                assert(rows[t] == tail[t - 136] && rows[t + 1] == tail[t + 1 - 136]);
            }
        }
    }
}

/// The first preimage of a nonempty list takes at least one block, and the
/// rest of the list keeps its properties.
pub proof fn lemma_list_head_facts(lens: Seq<int>)
    requires
        lens.len() > 0,
        forall|i: int| 0 <= i < lens.len() ==> #[trigger] lens[i] >= 0,
    ensures
        num_blocks_of(lens[0]) >= 1,
        forall|i: int| 0 <= i < lens.drop_first().len() ==> #[trigger] lens.drop_first()[i] >= 0,
        total_blocks(lens) == num_blocks_of(lens[0]) + total_blocks(lens.drop_first()),
        total_blocks(lens.drop_first()) >= 0,
{
    assert(lens[0] / 136 >= 0) by {
        vstd::arithmetic::div_mod::lemma_div_is_ordered(0, lens[0], 136);
    }
    assert forall|i: int| 0 <= i < lens.drop_first().len() implies #[trigger] lens.drop_first()[i] >= 0 by {
        assert(lens.drop_first()[i] == lens[i + 1]);
    }
    lemma_total_blocks_at_least(lens.drop_first());
}

/// The preimage row list of a preimage-length list is strictly ascending,
/// holds 136 rows per consumed block, and stays within the consumed blocks'
/// row span.
#[verifier::rlimit(50)]
pub proof fn lemma_preimage_rows_list_props(lens: Seq<int>, round0: int)
    requires
        round0 >= 0,
        forall|i: int| 0 <= i < lens.len() ==> #[trigger] lens[i] >= 0,
    ensures
        preimage_rows_list(lens, round0).len() == 136 * total_blocks(lens),
        forall|t: int|
            0 <= t < preimage_rows_list(lens, round0).len() ==> round0 * 300 + 12
                <= #[trigger] preimage_rows_list(lens, round0)[t] <= (round0 + total_blocks(lens))
                * 300 - 89,
        forall|t: int|
            0 <= t < preimage_rows_list(lens, round0).len() ==> 12 <= #[trigger] preimage_rows_list(
                lens,
                round0,
            )[t] % 300 <= 211,
        strictly_ascending(preimage_rows_list(lens, round0)),
        total_blocks(lens) >= lens.len(),
    decreases lens.len(),
{
    lemma_total_blocks_at_least(lens);
    if lens.len() > 0 {
        let nb = num_blocks_of(lens[0]);
        lemma_list_head_facts(lens);
        lemma_block_rows_props(round0, nb);
        lemma_preimage_rows_list_props(lens.drop_first(), round0 + nb);
        let rest = total_blocks(lens.drop_first());
        assert(total_blocks(lens) == nb + rest);

        let prows = preimage_rows_list(lens, round0);
        let phead = block_preimage_rows(round0, nb);
        let ptail = preimage_rows_list(lens.drop_first(), round0 + nb);
        assert(prows == phead + ptail);
        assert forall|t: int| 0 <= t < prows.len() implies round0 * 300 + 12 <= #[trigger] prows[t]
            <= (round0 + total_blocks(lens)) * 300 - 89 && 12 <= prows[t] % 300 <= 211 by {
            if t < 136 * nb {
                assert(prows[t] == phead[t]);
            } else {
                assert(prows[t] == ptail[t - 136 * nb]);
            }
        }
        assert forall|t: int| 0 <= t < prows.len() - 1 implies #[trigger] prows[t] < prows[t + 1] by {
            if t + 1 < 136 * nb {
                assert(prows[t] == phead[t] && prows[t + 1] == phead[t + 1]);
            } else if t + 1 == 136 * nb {
                assert(prows[t] == phead[t]);
                assert(phead[t] <= (round0 + nb) * 300 - 89);
                assert(prows[t + 1] == ptail[0]);
                assert(ptail[0] >= (round0 + nb) * 300 + 12);
            } else {
                assert(prows[t] == ptail[t - 136 * nb] && prows[t + 1] == ptail[t + 1 - 136 * nb]);
            }
        }
    }
}

/// The digest row list of a preimage-length list is strictly ascending,
/// holds 32 rows per preimage, and stays within the consumed blocks' row
/// span.
#[verifier::rlimit(50)]
pub proof fn lemma_digest_rows_list_props(lens: Seq<int>, round0: int)
    requires
        round0 >= 0,
        forall|i: int| 0 <= i < lens.len() ==> #[trigger] lens[i] >= 0,
    ensures
        digest_rows_list(lens, round0).len() == 32 * lens.len(),
        forall|t: int|
            0 <= t < digest_rows_list(lens, round0).len() ==> round0 * 300 + 252
                <= #[trigger] digest_rows_list(lens, round0)[t] <= (round0 + total_blocks(lens))
                * 300 - 5,
        forall|t: int|
            0 <= t < digest_rows_list(lens, round0).len() ==> 252 <= #[trigger] digest_rows_list(
                lens,
                round0,
            )[t] % 300 <= 295,
        strictly_ascending(digest_rows_list(lens, round0)),
    decreases lens.len(),
{
    lemma_total_blocks_at_least(lens);
    if lens.len() > 0 {
        let nb = num_blocks_of(lens[0]);
        lemma_list_head_facts(lens);
        lemma_digest_rows_list_props(lens.drop_first(), round0 + nb);
        let rest = total_blocks(lens.drop_first());
        assert(total_blocks(lens) == nb + rest);

        let drows = digest_rows_list(lens, round0);
        let dhead = Seq::new(32, |b: int| digest_row(round0 + nb - 1, b));
        let dtail = digest_rows_list(lens.drop_first(), round0 + nb);
        assert(drows == dhead + dtail);
        assert forall|b: int| 0 <= b < 32 implies (round0 + nb - 1) * 300 + 252 <= #[trigger] dhead[b]
            <= (round0 + nb - 1) * 300 + 295 && 252 <= dhead[b] % 300 <= 295 by {
            assert(0 <= b / 8 <= 3);
            assert(0 <= b % 8 <= 7);
            let offset = (b / 8) * 12 + b % 8 + 252;
            vstd::arithmetic::div_mod::lemma_mod_multiples_vanish(round0 + nb - 1, offset, 300);
            vstd::arithmetic::div_mod::lemma_small_mod(offset as nat, 300);
            assert(dhead[b] == 300 * (round0 + nb - 1) + offset);
        }
        assert forall|b: int| 0 <= b < 31 implies #[trigger] dhead[b] < dhead[b + 1] by {
            if b % 8 == 7 {
                assert((b + 1) / 8 == b / 8 + 1);
                assert((b + 1) % 8 == 0);
            } else {
                assert((b + 1) / 8 == b / 8);
                assert((b + 1) % 8 == b % 8 + 1);
            }
        }
        assert forall|t: int| 0 <= t < drows.len() implies round0 * 300 + 252 <= #[trigger] drows[t]
            <= (round0 + total_blocks(lens)) * 300 - 5 && 252 <= drows[t] % 300 <= 295 by {
            if t < 32 {
                assert(drows[t] == dhead[t]);
            } else {
                assert(drows[t] == dtail[t - 32]);
            }
        }
        assert forall|t: int| 0 <= t < drows.len() - 1 implies #[trigger] drows[t] < drows[t + 1] by {
            if t + 1 < 32 {
                assert(drows[t] == dhead[t] && drows[t + 1] == dhead[t + 1]);
            } else if t + 1 == 32 {
                assert(drows[t] == dhead[t]);
                assert(dhead[t] <= (round0 + nb) * 300 - 5);
                assert(drows[t + 1] == dtail[0]);
                assert(dtail[0] >= (round0 + nb) * 300 + 252);
            } else {
                assert(drows[t] == dtail[t - 32] && drows[t + 1] == dtail[t + 1 - 32]);
            }
        }
    }
}

/// Blocks consumed before preimage `j` of the list.
pub open spec fn blocks_before(lens: Seq<int>, j: int) -> int {
    total_blocks(lens.take(j))
}

/// Appending one more length adds its block count to the total.
proof fn lemma_total_blocks_push(s: Seq<int>, x: int)
    ensures
        total_blocks(s.push(x)) == total_blocks(s) + num_blocks_of(x),
    decreases s.len(),
{
    reveal_with_fuel(total_blocks, 3);
    if s.len() == 0 {
        assert(s.push(x)[0] == x);
        assert(s.push(x).drop_first() =~= Seq::<int>::empty());
    } else {
        assert(s.push(x).drop_first() =~= s.drop_first().push(x));
        assert(s.push(x)[0] == s[0]);
        lemma_total_blocks_push(s.drop_first(), x);
    }
}

/// One more block extends the block row list at its end.
proof fn lemma_block_rows_snoc(round0: int, i: int)
    requires
        i >= 0,
    ensures
        block_preimage_rows(round0, i + 1) == block_preimage_rows(round0, i) + Seq::new(
            136,
            |b: int| preimage_row(round0 + i, b),
        ),
    decreases i,
{
    reveal_with_fuel(block_preimage_rows, 3);
    if i == 0 {
        assert(block_preimage_rows(round0, 1) =~= block_preimage_rows(round0, 0) + Seq::new(
            136,
            |b: int| preimage_row(round0, b),
        ));
    } else {
        lemma_block_rows_snoc(round0 + 1, i - 1);
        assert(block_preimage_rows(round0, i + 1) =~= block_preimage_rows(round0, i) + Seq::new(
            136,
            |b: int| preimage_row(round0 + i, b),
        ));
    }
}

/// The 32 digest rows of one block strictly increase.
proof fn lemma_digest_block_ascending(round: int)
    requires
        round >= 0,
    ensures
        strictly_ascending(Seq::new(32, |b: int| digest_row(round, b))),
{
    let rows = Seq::new(32, |b: int| digest_row(round, b));
    assert forall|b: int| 0 <= b < 31 implies #[trigger] rows[b] < rows[b + 1] by {
        if b % 8 == 7 {
            assert((b + 1) / 8 == b / 8 + 1);
            assert((b + 1) % 8 == 0);
        } else {
            assert((b + 1) / 8 == b / 8);
            assert((b + 1) % 8 == b % 8 + 1);
        }
    }
}

/// No row ever serves both roles: within each block the absorbed preimage
/// bytes sit in rows 12..=223 and the digest bytes in rows 252..=295, so the
/// preimage row list and the digest row list of one placement are disjoint.
pub proof fn lemma_preimage_digest_rows_disjoint(lens: Seq<int>, round0: int)
    requires
        round0 >= 0,
        forall|i: int| 0 <= i < lens.len() ==> #[trigger] lens[i] >= 0,
    ensures
        forall|t1: int, t2: int|
            0 <= t1 < preimage_rows_list(lens, round0).len() && 0 <= t2 < digest_rows_list(
                lens,
                round0,
            ).len() ==> #[trigger] preimage_rows_list(lens, round0)[t1] != #[trigger] digest_rows_list(
                lens,
                round0,
            )[t2],
{
    lemma_preimage_rows_list_props(lens, round0);
    lemma_digest_rows_list_props(lens, round0);
    assert forall|t1: int, t2: int|
        0 <= t1 < preimage_rows_list(lens, round0).len() && 0 <= t2 < digest_rows_list(
            lens,
            round0,
        ).len() implies preimage_rows_list(lens, round0)[t1] != digest_rows_list(lens, round0)[t2] by {
        assert(preimage_rows_list(lens, round0)[t1] % 300 <= 211);
        assert(digest_rows_list(lens, round0)[t2] % 300 >= 252);
    }
}

} // verus!
