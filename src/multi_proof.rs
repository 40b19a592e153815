//! Proofs of several partitions: one fixed-length sub-proof per partition,
//! concatenated in order, with no length prefix. A reader must know the
//! number of partitions.
use vstd::prelude::*;
use crate::merkle::views;
use crate::seal::{MAX_PARTITIONS, SINGLE_PARTITION_PROOF_LEN};
use crate::zigzag::flatten;

verus! {

/// Sub-proof `k` of the bytes of a proof.
pub open spec fn partition_of(proof: Seq<u8>, k: int) -> Seq<u8> {
    proof.subrange(
        SINGLE_PARTITION_PROOF_LEN * k,
        SINGLE_PARTITION_PROOF_LEN * k + SINGLE_PARTITION_PROOF_LEN,
    )
}

/// Splits the bytes of a proof into its `partitions` sub-proofs, or `None`
/// where the length does not fit that many.
pub fn split_partitions(proof: &Vec<u8>, partitions: usize) -> (r: Option<Vec<Vec<u8>>>)
    requires
        partitions <= MAX_PARTITIONS,
    ensures
        r is None <==> proof@.len() != SINGLE_PARTITION_PROOF_LEN * partitions,
        r matches Some(parts) ==> parts@.len() == partitions && forall|k: int|
            0 <= k < partitions ==> (#[trigger] parts@[k])@ == partition_of(proof@, k),
{
    if proof.len() != SINGLE_PARTITION_PROOF_LEN * partitions {
        return None;
    }
    let mut parts: Vec<Vec<u8>> = Vec::new();
    let mut k: usize = 0;
    while k < partitions
        invariant
            partitions <= MAX_PARTITIONS,
            proof@.len() == SINGLE_PARTITION_PROOF_LEN * partitions,
            k <= partitions,
            parts@.len() == k,
            forall|q: int| 0 <= q < k ==> (#[trigger] parts@[q])@ == partition_of(proof@, q),
        decreases partitions - k,
    {
        let base = SINGLE_PARTITION_PROOF_LEN * k;
        let mut part: Vec<u8> = Vec::new();
        let mut t: usize = 0;
        while t < SINGLE_PARTITION_PROOF_LEN
            invariant
                k < partitions <= MAX_PARTITIONS,
                proof@.len() == SINGLE_PARTITION_PROOF_LEN * partitions,
                base == SINGLE_PARTITION_PROOF_LEN * k,
                t <= SINGLE_PARTITION_PROOF_LEN,
                part@ == partition_of(proof@, k as int).subrange(0, t as int),
            decreases SINGLE_PARTITION_PROOF_LEN - t,
        {
            part.push(proof[base + t]);
            t = t + 1;
            assert(part@ =~= partition_of(proof@, k as int).subrange(0, t as int));
        }
        assert(part@ =~= partition_of(proof@, k as int));
        parts.push(part);
        k = k + 1;
    }
    Some(parts)
}

/// The sub-proofs, one after the other.
pub fn join_partitions(parts: &Vec<Vec<u8>>) -> (r: Vec<u8>)
    ensures
        r@ == flatten(views(parts@)),
{
    let mut out: Vec<u8> = Vec::new();
    let mut k: usize = 0;
    while k < parts.len()
        invariant
            k <= parts@.len(),
            out@ == flatten(views(parts@).subrange(0, k as int)),
        decreases parts@.len() - k,
    {
        let ghost before = out@;
        let part = &parts[k];
        let mut t: usize = 0;
        while t < part.len()
            invariant
                t <= part@.len(),
                out@ == before + part@.subrange(0, t as int),
            decreases part@.len() - t,
        {
            out.push(part[t]);
            t = t + 1;
            assert(out@ =~= before + part@.subrange(0, t as int));
        }
        assert(part@.subrange(0, part@.len() as int) =~= part@);
        assert(views(parts@).subrange(0, k + 1).drop_last() =~= views(parts@).subrange(0, k as int));
        k = k + 1;
    }
    assert(views(parts@).subrange(0, parts@.len() as int) =~= views(parts@));
    out
}

proof fn lemma_flatten_fixed(parts: Seq<Seq<u8>>)
    requires
        forall|k: int| 0 <= k < parts.len() ==> (#[trigger] parts[k]).len() == SINGLE_PARTITION_PROOF_LEN,
    ensures
        flatten(parts).len() == SINGLE_PARTITION_PROOF_LEN * parts.len(),
        forall|k: int| 0 <= k < parts.len() ==> partition_of(flatten(parts), k) == parts[k],
    decreases parts.len(),
{
    if parts.len() > 0 {
        let init = parts.drop_last();
        assert forall|k: int| 0 <= k < init.len() implies (#[trigger] init[k]).len()
            == SINGLE_PARTITION_PROOF_LEN by {
            assert(init[k] == parts[k]);
        }
        lemma_flatten_fixed(init);
        let f = flatten(parts);
        assert(f == flatten(init) + parts.last());
        assert forall|k: int| 0 <= k < parts.len() implies partition_of(f, k) == parts[k] by {
            if k < parts.len() - 1 {
                assert(init[k] == parts[k]);
                assert(partition_of(flatten(init), k) == init[k]);
                assert(partition_of(f, k) =~= partition_of(flatten(init), k));
            } else {
                assert(partition_of(f, k) =~= parts.last());
            }
        }
    }
}

/// Splitting the concatenation of sub-proofs of the right length gives the
/// sub-proofs back, in order.
pub proof fn lemma_split_join(parts: Seq<Seq<u8>>)
    requires
        forall|k: int| 0 <= k < parts.len() ==> (#[trigger] parts[k]).len() == SINGLE_PARTITION_PROOF_LEN,
    ensures
        flatten(parts).len() == SINGLE_PARTITION_PROOF_LEN * parts.len(),
        forall|k: int| 0 <= k < parts.len() ==> partition_of(flatten(parts), k) == parts[k],
{
    lemma_flatten_fixed(parts);
}

} // verus!
