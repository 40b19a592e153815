//! Challenges: node indices drawn from a seed, spread over the partitions of
//! a proof so that no two partitions share one, and the soundness policy on
//! their number.
use vstd::prelude::*;
use crate::graph::{le_u64_at, push_u64_le, read_u64_le, u64_le_bytes, MAX_NODES};
use crate::hash::{sha256, sha256_of, tagged, CHALLENGE_TAG};
use crate::seal::MAX_PARTITIONS;

verus! {

/// The most challenges one partition may answer.
pub const MAX_CHALLENGES_PER_PARTITION: usize = 0x1_0000;

/// Challenge number `index` over `nodes` nodes: a node other than the first,
/// drawn from the digest of the seed and the index.
pub open spec fn challenge(seed: Seq<u8>, nodes: nat, index: u64) -> usize {
    ((le_u64_at(sha256_of(seq![CHALLENGE_TAG] + (seed + u64_le_bytes(index))), 0) % ((nodes - 1) as u64)) + 1) as usize
}

/// The number of the `j`-th challenge of partition `partition`: each
/// partition has its own run of `per_partition` numbers.
pub open spec fn challenge_index(per_partition: nat, partition: nat, j: nat) -> nat {
    per_partition * partition + j
}

/// The challenges of partition `partition`, `per_partition` of them.
pub fn derive_challenges(seed: &[u8; 32], nodes: usize, per_partition: usize, partition: usize) -> (r:
    Vec<usize>)
    requires
        2 <= nodes <= MAX_NODES,
        per_partition <= MAX_CHALLENGES_PER_PARTITION,
        partition < MAX_PARTITIONS,
    ensures
        r@.len() == per_partition,
        forall|j: int|
            0 <= j < per_partition ==> (#[trigger] r@[j]) == challenge(
                seed@,
                nodes as nat,
                challenge_index(per_partition as nat, partition as nat, j as nat) as u64,
            ),
        forall|j: int| 0 <= j < per_partition ==> 1 <= (#[trigger] r@[j]) < nodes,
{
    let mut out: Vec<usize> = Vec::new();
    let mut j: usize = 0;
    while j < per_partition
        invariant
            2 <= nodes <= MAX_NODES,
            per_partition <= MAX_CHALLENGES_PER_PARTITION,
            partition < MAX_PARTITIONS,
            j <= per_partition,
            out@.len() == j,
            forall|q: int|
                0 <= q < j ==> (#[trigger] out@[q]) == challenge(
                    seed@,
                    nodes as nat,
                    challenge_index(per_partition as nat, partition as nat, q as nat) as u64,
                ),
            forall|q: int| 0 <= q < j ==> 1 <= (#[trigger] out@[q]) < nodes,
        decreases per_partition - j,
    {
        assert(per_partition * partition + j <= MAX_CHALLENGES_PER_PARTITION * MAX_PARTITIONS)
            by (nonlinear_arith)
            requires
                per_partition <= MAX_CHALLENGES_PER_PARTITION,
                partition < MAX_PARTITIONS,
                j < per_partition,
        ;
        let index: u64 = (per_partition * partition + j) as u64;
        let mut input: Vec<u8> = Vec::new();
        let mut t: usize = 0;
        while t < 32
            invariant
                t <= 32,
                input@ == seed@.subrange(0, t as int),
            decreases 32 - t,
        {
            input.push(seed[t]);
            t = t + 1;
            assert(input@ =~= seed@.subrange(0, t as int));
        }
        assert(seed@.subrange(0, 32) =~= seed@);
        push_u64_le(&mut input, index);
        let d = sha256(&tagged(CHALLENGE_TAG, &input));
        let v = read_u64_le(d.as_slice(), 0);
        let c = (v % ((nodes - 1) as u64) + 1) as usize;
        out.push(c);
        j = j + 1;
    }
    out
}

/// Distinct partitions, or distinct positions within one, draw challenges
/// of distinct numbers.
pub proof fn lemma_challenge_indices_disjoint(per_partition: nat, pa: nat, ja: nat, pb: nat, jb: nat)
    requires
        ja < per_partition,
        jb < per_partition,
        pa != pb || ja != jb,
    ensures
        challenge_index(per_partition, pa, ja) != challenge_index(per_partition, pb, jb),
{
    if pa < pb {
        assert(per_partition * pa + per_partition <= per_partition * pb) by (nonlinear_arith)
            requires
                pa < pb,
        ;
    } else if pb < pa {
        assert(per_partition * pb + per_partition <= per_partition * pa) by (nonlinear_arith)
            requires
                pb < pa,
        ;
    }
}

/// Whether `partitions` partitions of `per_partition` challenges each answer
/// at least `minimum` challenges in all.
pub fn meets_minimum_challenges(per_partition: usize, partitions: usize, minimum: usize) -> (r: bool)
    requires
        per_partition <= MAX_CHALLENGES_PER_PARTITION,
        partitions <= MAX_PARTITIONS,
    ensures
        r == (per_partition * partitions >= minimum),
{
    assert(per_partition * partitions <= MAX_CHALLENGES_PER_PARTITION * MAX_PARTITIONS)
        by (nonlinear_arith)
        requires
            per_partition <= MAX_CHALLENGES_PER_PARTITION,
            partitions <= MAX_PARTITIONS,
    ;
    per_partition * partitions >= minimum
}

} // verus!
