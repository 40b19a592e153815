//! The sealing drivers: a sector is padded, replicated in place, proved and
//! checked before its proof is handed out; a sealed sector is unsealed and a
//! range of its data read back.
use vstd::prelude::*;
use crate::fr32::{
    lemma_trimmed_is_canonical, lemma_unpad_pad, lemma_unpad_pad_tail, padded_sector, unpadded_capacity, fr_canonical, fr_trimmed, is_canonical_fr, pad_safe_fr, padded_fr, trim_digest, unpad_range,
    unpadded, Commitment, FrSafe,
};
use crate::error::Error;
use crate::graph::{Graph, MAX_NODES};
use crate::hash::{sha256, sha256_of, tagged, LAYERS_TAG, REPLICA_TAG};
use crate::merkle::{leaves, lemma_root_canonical, merkle_root, to_commitment};
use crate::zigzag::{
    comm_r_star_of, commitments_of, extract_layers, extracted, flatten, layer_roots, lemma_extract_replicate,
    lemma_replicated_len, replicate_layers, replicated, ReplicaCommitments,
};

verus! {

/// Parents per node of the replication graph.
pub const DRG_DEGREE: usize = 5;

/// Layers of a replica.
pub const LAYERS: usize = 4;

/// Bytes of the proof of one partition.
pub const SINGLE_PARTITION_PROOF_LEN: usize = 192;

/// The most partitions a proof may have.
pub const MAX_PARTITIONS: usize = 64;

/// The fewest challenges a replication proof must answer.
pub const POREP_MINIMUM_CHALLENGES: usize = 12;

/// The parameters of replication proofs for one class of sectors.
#[derive(Clone, Copy, Debug, PartialEq, Eq)]
pub struct PoRepConfig {
    /// Padded bytes per sector.
    pub sector_size: u64,
    /// Partitions of a proof.
    pub partitions: usize,
}

impl PoRepConfig {
    pub open spec fn wf(&self) -> bool {
        &&& self.sector_size % 32 == 0
        &&& 2 <= self.sector_size / 32 <= MAX_NODES
        &&& 1 <= self.partitions <= MAX_PARTITIONS
    }

    /// Nodes per sector.
    pub open spec fn nodes(&self) -> nat {
        (self.sector_size / 32) as nat
    }

    /// Bytes of a whole proof.
    pub open spec fn proof_len(&self) -> nat {
        SINGLE_PARTITION_PROOF_LEN as nat * self.partitions as nat
    }

    /// Whether the sizes are in range.
    pub fn is_valid(&self) -> (r: bool)
        ensures
            r == self.wf(),
    {
        self.sector_size % 32 == 0 && 2 <= self.sector_size / 32 && self.sector_size / 32
            <= MAX_NODES as u64 && 1 <= self.partitions && self.partitions <= MAX_PARTITIONS
    }

    /// Data bytes per sector: 254 bits in each node, in whole bytes.
    pub fn unpadded_bytes(&self) -> (r: u64)
        requires
            self.wf(),
        ensures
            r == unpadded_capacity(self.nodes() as int),
    {
        254 * (self.sector_size / 32) / 8
    }
}

/// The replica identity of a prover and a sector: the trimmed digest of
/// both, each padded to 32 bytes.
pub open spec fn replica_id_of(prover_id: Seq<u8>, sector_id: Seq<u8>) -> Seq<u8> {
    fr_trimmed(sha256_of(seq![REPLICA_TAG] + (padded_fr(prover_id) + padded_fr(sector_id))))
}

/// The 32-byte array whose bytes are `s`.
pub open spec fn seed_array(s: Seq<u8>) -> [u8; 32] {
    choose|a: [u8; 32]| a@ == s
}

/// The replication graph of a sector of `config` for the replica `rid`.
pub open spec fn porep_graph(config: PoRepConfig, rid: Seq<u8>) -> Graph {
    Graph { nodes: config.nodes() as usize, degree: DRG_DEGREE, seed: seed_array(rid) }
}

/// `data` followed by zeros up to `size` bytes.
pub open spec fn zero_extended(data: Seq<u8>, size: nat) -> Seq<u8> {
    data + Seq::new((size - data.len()) as nat, |i: int| 0u8)
}

/// The replica that sealing the staged bytes produces.
pub open spec fn sealed_replica(config: PoRepConfig, rid: Seq<u8>, staged: Seq<u8>) -> Seq<u8> {
    replicated(
        porep_graph(config, rid),
        rid,
        zero_extended(staged, config.sector_size as nat),
        LAYERS as nat,
    )
}

/// The public inputs of a replication proof.
#[derive(Clone, Copy)]
pub struct SealPublicInputs {
    pub replica_id: [u8; 32],
    pub comm_d: Commitment,
    pub comm_r: Commitment,
    pub comm_r_star: Commitment,
    pub config: PoRepConfig,
    pub minimum_challenges: usize,
}

/// The public inputs that bind a proof to `config`, the replica and its
/// commitments.
pub open spec fn seal_inputs(
    config: PoRepConfig,
    rid: Seq<u8>,
    comm_d: Commitment,
    comm_r: Commitment,
    comm_r_star: Commitment,
) -> SealPublicInputs {
    SealPublicInputs {
        replica_id: seed_array(rid),
        comm_d,
        comm_r,
        comm_r_star,
        config,
        minimum_challenges: POREP_MINIMUM_CHALLENGES,
    }
}

/// A backend's answer as a driver reports it.
pub open spec fn backend_verdict(res: Result<bool, String>) -> Result<bool, Error> {
    match res {
        Ok(b) => Ok(b),
        Err(msg) => Err(Error::Backend(msg)),
    }
}

/// `out` is what sealing the staged bytes hands back: the commitments of the
/// replication, and a proof of the right length that `prove` returned for
/// the padded data and the replica, and that `verify` accepted, both for
/// exactly those commitments.
pub open spec fn seal_succeeded<
    P: Fn(SealPublicInputs, &Vec<u8>, &Vec<u8>) -> Result<Vec<u8>, String>,
    V: Fn(SealPublicInputs, &Vec<u8>) -> Result<bool, String>,
>(
    config: PoRepConfig,
    prover_id: Seq<u8>,
    sector_id: Seq<u8>,
    staged: Seq<u8>,
    out: SealOutput,
    prove: P,
    verify: V,
) -> bool {
    let rid = replica_id_of(prover_id, sector_id);
    let g = porep_graph(config, rid);
    let padded = zero_extended(staged, config.sector_size as nat);
    &&& config.wf()
    &&& staged.len() <= config.sector_size
    &&& commitments_of(
        g,
        rid,
        padded,
        LAYERS as nat,
        ReplicaCommitments { comm_d: out.comm_d, comm_r: out.comm_r, comm_r_star: out.comm_r_star },
    )
    &&& out.proof@.len() == config.proof_len()
    &&& exists|d: Vec<u8>, rep: Vec<u8>|
        d@ == padded && rep@ == sealed_replica(config, rid, staged) && prove.ensures(
            (seal_inputs(config, rid, out.comm_d, out.comm_r, out.comm_r_star), &d, &rep),
            Ok::<Vec<u8>, String>(out.proof),
        )
    &&& verify.ensures(
        (seal_inputs(config, rid, out.comm_d, out.comm_r, out.comm_r_star), &out.proof),
        Ok::<bool, String>(true),
    )
}

/// `r` is an answer of the verification of `proof` against the commitments:
/// a configuration error, a field encoding error exactly when a commitment is
/// not canonical, a rejection of a proof of the wrong length, and otherwise
/// an answer of `verify` for the inputs that the commitments make.
pub open spec fn verify_seal_outcome<V: Fn(SealPublicInputs, &Vec<u8>) -> Result<bool, String>>(
    config: PoRepConfig,
    comm_r: Commitment,
    comm_d: Commitment,
    comm_r_star: Commitment,
    prover_id: Seq<u8>,
    sector_id: Seq<u8>,
    proof: &Vec<u8>,
    verify: V,
    r: Result<bool, Error>,
) -> bool {
    let canonical = fr_canonical(comm_r@) && fr_canonical(comm_d@) && fr_canonical(comm_r_star@);
    &&& !config.wf() <==> r == Err::<bool, Error>(Error::ConfigMismatch)
    &&& config.wf() ==> (r == Err::<bool, Error>(Error::FieldEncoding) <==> !canonical)
    &&& config.wf() && canonical ==> if proof@.len() != config.proof_len() {
        r == Ok::<bool, Error>(false)
    } else {
        exists|res: Result<bool, String>|
            verify.ensures(
                (
                    seal_inputs(
                        config,
                        replica_id_of(prover_id, sector_id),
                        comm_d,
                        comm_r,
                        comm_r_star,
                    ),
                    proof,
                ),
                res,
            ) && r == backend_verdict(res)
    }
}

/// The commitments, as arrays, of sealing the staged bytes.
pub open spec fn porep_commitments(config: PoRepConfig, rid: Seq<u8>, staged: Seq<u8>) -> ReplicaCommitments {
    let g = porep_graph(config, rid);
    let padded = zero_extended(staged, config.sector_size as nat);
    ReplicaCommitments {
        comm_d: seed_array(merkle_root(padded)),
        comm_r: seed_array(merkle_root(replicated(g, rid, padded, LAYERS as nat))),
        comm_r_star: seed_array(comm_r_star_of(rid, layer_roots(g, rid, padded, LAYERS as nat))),
    }
}

/// What sealing answers once the proof `proof` of the commitments `c` has
/// the right length, given the verifier's answer `v`.
pub open spec fn sealed_verdict(c: ReplicaCommitments, proof: Vec<u8>, v: Result<bool, String>) -> Result<
    SealOutput,
    Error,
> {
    match v {
        Ok(true) => Ok(SealOutput {
            comm_r: c.comm_r,
            comm_r_star: c.comm_r_star,
            comm_d: c.comm_d,
            proof,
        }),
        Ok(false) => Err(Error::InternalConsistency),
        Err(m) => Err(Error::Backend(m)),
    }
}

/// What sealing the staged bytes may come to: a configuration error exactly
/// when the sizes are out of range; a size error exactly when the staged
/// bytes exceed the sector; otherwise `prove` is handed the public inputs of
/// the exact commitments, the padded data and the replica, and its error, a
/// proof of the wrong length, or `verify`'s answer on that proof decides.
pub open spec fn seal_outcome<
    P: Fn(SealPublicInputs, &Vec<u8>, &Vec<u8>) -> Result<Vec<u8>, String>,
    V: Fn(SealPublicInputs, &Vec<u8>) -> Result<bool, String>,
>(
    config: PoRepConfig,
    prover_id: Seq<u8>,
    sector_id: Seq<u8>,
    staged: Seq<u8>,
    prove: P,
    verify: V,
    r: Result<SealOutput, Error>,
) -> bool {
    let rid = replica_id_of(prover_id, sector_id);
    let c = porep_commitments(config, rid, staged);
    let inputs = seal_inputs(config, rid, c.comm_d, c.comm_r, c.comm_r_star);
    &&& (r is Err && r->Err_0 == Error::ConfigMismatch) <==> !config.wf()
    &&& config.wf() ==> ((r is Err && r->Err_0 == Error::DataSizeMismatch) <==> staged.len()
        > config.sector_size)
    &&& config.wf() && staged.len() <= config.sector_size ==> exists|
        d: Vec<u8>,
        rep: Vec<u8>,
        res: Result<Vec<u8>, String>,
    |
        #![trigger prove.ensures((inputs, &d, &rep), res)]
        d@ == zero_extended(staged, config.sector_size as nat) && rep@ == sealed_replica(
            config,
            rid,
            staged,
        ) && prove.ensures((inputs, &d, &rep), res) && match res {
            Err(m) => r == Err::<SealOutput, Error>(Error::Backend(m)),
            Ok(p) => if p@.len() != config.proof_len() {
                r == Err::<SealOutput, Error>(Error::MalformedProof)
            } else {
                exists|v: Result<bool, String>|
                    #![trigger verify.ensures((inputs, &p), v)]
                    verify.ensures((inputs, &p), v) && r == sealed_verdict(c, p, v)
            },
        }
}

/// What sealing hands back.
#[derive(Clone, Debug)]
pub struct SealOutput {
    pub comm_r: Commitment,
    pub comm_r_star: Commitment,
    pub comm_d: Commitment,
    pub proof: Vec<u8>,
}

proof fn lemma_seed_array(a: [u8; 32])
    ensures
        seed_array(a@) == a,
{
    assert(a@ == a@ ==> exists|b: [u8; 32]| #[trigger] b@ == a@) by {
        assert(a@ == a@);
    }
    let c = seed_array(a@);
    assert(c@ == a@);
    assert(c =~= a);
}

/// The replica identity of a prover and a sector.
pub fn replica_id(prover_id: &FrSafe, sector_id: &FrSafe) -> (r: [u8; 32])
    ensures
        r@ == replica_id_of(prover_id@, sector_id@),
{
    let p = pad_safe_fr(prover_id);
    let s = pad_safe_fr(sector_id);
    let mut input: Vec<u8> = Vec::new();
    let mut t: usize = 0;
    while t < 32
        invariant
            t <= 32,
            input@ == p@.subrange(0, t as int),
        decreases 32 - t,
    {
        input.push(p[t]);
        t = t + 1;
        assert(input@ =~= p@.subrange(0, t as int));
    }
    let mut t: usize = 0;
    while t < 32
        invariant
            t <= 32,
            p@.len() == 32,
            input@ == p@ + s@.subrange(0, t as int),
        decreases 32 - t,
    {
        input.push(s[t]);
        t = t + 1;
        assert(input@ =~= p@ + s@.subrange(0, t as int));
    }
    assert(p@.subrange(0, 32) =~= p@);
    assert(s@.subrange(0, 32) =~= s@);
    let mut d = sha256(&tagged(REPLICA_TAG, &input));
    trim_digest(&mut d);
    to_commitment(&d)
}

fn copy_bytes(v: &Vec<u8>) -> (r: Vec<u8>)
    ensures
        r@ == v@,
{
    let mut out: Vec<u8> = Vec::new();
    let mut i: usize = 0;
    while i < v.len()
        invariant
            i <= v@.len(),
            out@ == v@.subrange(0, i as int),
        decreases v@.len() - i,
    {
        out.push(v[i]);
        i = i + 1;
        assert(out@ =~= v@.subrange(0, i as int));
    }
    assert(out@ =~= v@);
    out
}

/// Seals the staged sector `data` in place: pads it with zeros to the
/// sector size, replicates it, proves the replication with `prove`, and
/// hands the proof out only once `verify` has accepted it.
///
/// `prove` receives the public inputs, the padded data and the replica;
/// `verify` the public inputs and the proof.
pub fn seal<P, V>(
    config: PoRepConfig,
    data: &mut Vec<u8>,
    prover_id: &FrSafe,
    sector_id: &FrSafe,
    prove: &P,
    verify: &V,
) -> (r: Result<SealOutput, Error>) where
    P: Fn(SealPublicInputs, &Vec<u8>, &Vec<u8>) -> Result<Vec<u8>, String>,
    V: Fn(SealPublicInputs, &Vec<u8>) -> Result<bool, String>,

    requires
        forall|i: SealPublicInputs, d: &Vec<u8>, rep: &Vec<u8>| prove.requires((i, d, rep)),
        forall|i: SealPublicInputs, p: &Vec<u8>| verify.requires((i, p)),
    ensures
        !config.wf() ==> final(data)@ == old(data)@,
        config.wf() && old(data)@.len() > config.sector_size ==> final(data)@ == old(data)@,
        seal_outcome(config, prover_id@, sector_id@, old(data)@, *prove, *verify, r),
        config.wf() && old(data)@.len() <= config.sector_size ==> final(data)@ == sealed_replica(
            config,
            replica_id_of(prover_id@, sector_id@),
            old(data)@,
        ),
        r matches Ok(out) ==> seal_succeeded(
            config,
            prover_id@,
            sector_id@,
            old(data)@,
            out,
            *prove,
            *verify,
        ),
{
    if !config.is_valid() {
        return Err(Error::ConfigMismatch);
    }
    let size = config.sector_size as usize;
    if data.len() > size {
        return Err(Error::DataSizeMismatch);
    }
    let ghost d0 = data@;
    while data.len() < size
        invariant
            d0.len() <= size,
            data@.len() <= size,
            data@ == zero_extended(d0, data@.len() as nat),
        decreases size - data@.len(),
    {
        data.push(0);
        assert(data@ =~= zero_extended(d0, data@.len() as nat));
    }
    let rid = replica_id(prover_id, sector_id);
    let g = Graph { nodes: size / 32, degree: DRG_DEGREE, seed: rid };
    proof {
        lemma_seed_array(rid);
        assert(g == porep_graph(config, rid@));
    }
    let unencoded = copy_bytes(data);
    let c = replicate_layers(&g, &rid, data, LAYERS);
    let inputs = SealPublicInputs {
        replica_id: rid,
        comm_d: c.comm_d,
        comm_r: c.comm_r,
        comm_r_star: c.comm_r_star,
        config,
        minimum_challenges: POREP_MINIMUM_CHALLENGES,
    };
    let res = prove(inputs, &unencoded, data);
    proof {
        lemma_seed_array(c.comm_d);
        lemma_seed_array(c.comm_r);
        lemma_seed_array(c.comm_r_star);
        assert(c == porep_commitments(config, rid@, d0));
        let si = seal_inputs(config, rid@, c.comm_d, c.comm_r, c.comm_r_star);
        assert(inputs == si);
        assert(prove.ensures((si, &unencoded, &*data), res));
    }
    let proof = match res {
        Ok(p) => p,
        Err(msg) => {
            return Err(Error::Backend(msg));
        },
    };
    if proof.len() != SINGLE_PARTITION_PROOF_LEN * config.partitions {
        return Err(Error::MalformedProof);
    }
    let verdict = verify(inputs, &proof);
    let out = SealOutput { comm_r: c.comm_r, comm_r_star: c.comm_r_star, comm_d: c.comm_d, proof };
    let r = match verdict {
        Ok(true) => Ok(out),
        Ok(false) => Err(Error::InternalConsistency),
        Err(msg) => Err(Error::Backend(msg)),
    };
    proof {
        let si = seal_inputs(config, rid@, c.comm_d, c.comm_r, c.comm_r_star);
        assert(verify.ensures((si, &proof), verdict) && r == sealed_verdict(c, proof, verdict));
    }
    r
}

/// Verifies the proof of a previous sealing against its commitments.
///
/// Commitments that are not canonical field elements are an error; a proof
/// of the wrong length is rejected without consulting `verify`; otherwise the
/// answer is `verify`'s.
pub fn verify_seal<V>(
    config: PoRepConfig,
    comm_r: Commitment,
    comm_d: Commitment,
    comm_r_star: Commitment,
    prover_id: &FrSafe,
    sector_id: &FrSafe,
    proof: &Vec<u8>,
    verify: &V,
) -> (r: Result<bool, Error>) where V: Fn(SealPublicInputs, &Vec<u8>) -> Result<bool, String>
    requires
        forall|i: SealPublicInputs, p: &Vec<u8>| verify.requires((i, p)),
    ensures
        verify_seal_outcome(
            config,
            comm_r,
            comm_d,
            comm_r_star,
            prover_id@,
            sector_id@,
            proof,
            *verify,
            r,
        ),
{
    if !config.is_valid() {
        return Err(Error::ConfigMismatch);
    }
    if !(is_canonical_fr(&comm_r) && is_canonical_fr(&comm_d) && is_canonical_fr(&comm_r_star)) {
        return Err(Error::FieldEncoding);
    }
    if proof.len() != SINGLE_PARTITION_PROOF_LEN * config.partitions {
        return Ok(false);
    }
    let rid = replica_id(prover_id, sector_id);
    proof {
        lemma_seed_array(rid);
    }
    let inputs = SealPublicInputs {
        replica_id: rid,
        comm_d,
        comm_r,
        comm_r_star,
        config,
        minimum_challenges: POREP_MINIMUM_CHALLENGES,
    };
    let res = verify(inputs, proof);
    proof {
        let si = seal_inputs(config, replica_id_of(prover_id@, sector_id@), comm_d, comm_r, comm_r_star);
        assert(inputs == si);
        assert(verify.ensures((si, proof), res));
    }
    let out = match res {
        Ok(b) => Ok(b),
        Err(msg) => Err(Error::Backend(msg)),
    };
    proof {
        let si = seal_inputs(config, replica_id_of(prover_id@, sector_id@), comm_d, comm_r, comm_r_star);
        assert(out == backend_verdict(res));
        assert(verify.ensures((si, proof), res) && out == backend_verdict(res));
    }
    out
}

/// The data bytes `[offset, offset + num_bytes)` of the sealed sector,
/// cut at the sector's data capacity.
pub open spec fn unsealed_range(
    config: PoRepConfig,
    rid: Seq<u8>,
    sealed: Seq<u8>,
    offset: nat,
    num_bytes: nat,
) -> Seq<u8> {
    let data = unpadded(extracted(porep_graph(config, rid), rid, sealed, LAYERS as nat));
    let start = if offset <= data.len() {
        offset
    } else {
        data.len()
    };
    let end = if offset + num_bytes <= data.len() {
        offset + num_bytes
    } else {
        data.len()
    };
    data.subrange(start as int, if end < start { start as int } else { end as int })
}

/// Unseals the sealed sector and returns the data bytes from `offset` on,
/// `num_bytes` of them or as many as the sector holds. The whole sector is
/// decoded each time.
pub fn get_unsealed_range(
    config: PoRepConfig,
    sealed: &Vec<u8>,
    prover_id: &FrSafe,
    sector_id: &FrSafe,
    offset: u64,
    num_bytes: u64,
) -> (r: Result<Vec<u8>, Error>)
    ensures
        !config.wf() <==> r == Err::<Vec<u8>, Error>(Error::ConfigMismatch),
        config.wf() ==> (r == Err::<Vec<u8>, Error>(Error::DataSizeMismatch) <==> sealed@.len()
            != config.sector_size),
        config.wf() && sealed@.len() == config.sector_size ==> r is Ok,
        r matches Ok(out) ==> out@ == unsealed_range(
            config,
            replica_id_of(prover_id@, sector_id@),
            sealed@,
            offset as nat,
            num_bytes as nat,
        ),
{
    if !config.is_valid() {
        return Err(Error::ConfigMismatch);
    }
    if sealed.len() as u64 != config.sector_size {
        return Err(Error::DataSizeMismatch);
    }
    let rid = replica_id(prover_id, sector_id);
    let g = Graph { nodes: sealed.len() / 32, degree: DRG_DEGREE, seed: rid };
    proof {
        lemma_seed_array(rid);
        assert(g == porep_graph(config, rid@));
    }
    let data = extract_layers(&g, &rid, sealed, LAYERS);
    let cap = 254 * (data.len() / 32) / 8;
    let start: usize = if offset <= cap as u64 {
        offset as usize
    } else {
        cap
    };
    let end: usize = if num_bytes <= (cap - start) as u64 {
        start + num_bytes as usize
    } else {
        cap
    };
    Ok(unpad_range(&data, start, end))
}

/// A proof that sealing hands out passes the verification of the
/// commitments it came with, wherever the verifier answers the same inputs
/// the same way.
pub proof fn lemma_seal_verifies<
    P: Fn(SealPublicInputs, &Vec<u8>, &Vec<u8>) -> Result<Vec<u8>, String>,
    V: Fn(SealPublicInputs, &Vec<u8>) -> Result<bool, String>,
>(
    config: PoRepConfig,
    prover_id: Seq<u8>,
    sector_id: Seq<u8>,
    staged: Seq<u8>,
    out: SealOutput,
    prove: P,
    verify: V,
    r: Result<bool, Error>,
)
    requires
        seal_succeeded(config, prover_id, sector_id, staged, out, prove, verify),
        verify_seal_outcome(
            config,
            out.comm_r,
            out.comm_d,
            out.comm_r_star,
            prover_id,
            sector_id,
            &out.proof,
            verify,
            r,
        ),
        forall|a: Result<bool, String>, b: Result<bool, String>|
            verify.ensures(
                (
                    seal_inputs(
                        config,
                        replica_id_of(prover_id, sector_id),
                        out.comm_d,
                        out.comm_r,
                        out.comm_r_star,
                    ),
                    &out.proof,
                ),
                a,
            ) && verify.ensures(
                (
                    seal_inputs(
                        config,
                        replica_id_of(prover_id, sector_id),
                        out.comm_d,
                        out.comm_r,
                        out.comm_r_star,
                    ),
                    &out.proof,
                ),
                b,
            ) ==> a == b,
    ensures
        r == Ok::<bool, Error>(true),
{
    let rid = replica_id_of(prover_id, sector_id);
    let g = porep_graph(config, rid);
    let padded = zero_extended(staged, config.sector_size as nat);
    assert(padded.len() == 32 * g.nodes);
    assert(padded.len() / 32 == g.nodes);
    lemma_root_canonical(leaves(padded));
    lemma_replicated_len(g, rid, padded, LAYERS as nat);
    let rep = replicated(g, rid, padded, LAYERS as nat);
    assert(rep.len() / 32 == g.nodes);
    lemma_root_canonical(leaves(rep));
    lemma_trimmed_is_canonical(
        sha256_of(seq![LAYERS_TAG] + (rid + flatten(layer_roots(g, rid, padded, LAYERS as nat)))),
    );
}

/// Unsealing the whole of a sector sealed from padded data gives back the
/// data, followed by zeros up to the sector's data capacity.
pub proof fn lemma_unseal_whole_sector(
    config: PoRepConfig,
    prover_id: Seq<u8>,
    sector_id: Seq<u8>,
    data: Seq<u8>,
)
    requires
        config.wf(),
        data.len() <= unpadded_capacity(config.nodes() as int),
    ensures
        ({
            let rid = replica_id_of(prover_id, sector_id);
            let cap = unpadded_capacity(config.nodes() as int);
            let staged = padded_sector(data, config.nodes() as int);
            unsealed_range(config, rid, sealed_replica(config, rid, staged), 0, cap as nat) == data
                + Seq::new((cap - data.len()) as nat, |i: int| 0u8)
        }),
{
    let rid = replica_id_of(prover_id, sector_id);
    let g = porep_graph(config, rid);
    let n = config.nodes() as int;
    let cap = unpadded_capacity(n);
    let staged = padded_sector(data, n);
    assert(staged.len() == config.sector_size);
    assert(zero_extended(staged, config.sector_size as nat) =~= staged);
    lemma_extract_replicate(g, rid, staged, LAYERS as nat);
    lemma_unpad_pad(data, n);
    lemma_unpad_pad_tail(data, n);
    let u = unpadded(staged);
    assert(u.subrange(0, data.len() as int) == data);
    assert forall|i: int| 0 <= i < cap implies u[i] == (data + Seq::new(
        (cap - data.len()) as nat,
        |j: int| 0u8,
    ))[i] by {
        if i < data.len() {
            assert(u.subrange(0, data.len() as int)[i] == u[i]);
        }
    }
    assert(u.subrange(0, cap) =~= data + Seq::new((cap - data.len()) as nat, |i: int| 0u8));
}

/// Unsealing a sector sealed from padded data gives back every range of
/// that data.
pub proof fn lemma_unseal_sealed(
    config: PoRepConfig,
    prover_id: Seq<u8>,
    sector_id: Seq<u8>,
    data: Seq<u8>,
    offset: nat,
    num_bytes: nat,
)
    requires
        config.wf(),
        data.len() <= unpadded_capacity(config.nodes() as int),
        offset + num_bytes <= data.len(),
    ensures
        ({
            let rid = replica_id_of(prover_id, sector_id);
            let staged = padded_sector(data, config.nodes() as int);
            unsealed_range(
                config,
                rid,
                sealed_replica(config, rid, staged),
                offset,
                num_bytes,
            ) == data.subrange(offset as int, (offset + num_bytes) as int)
        }),
{
    let rid = replica_id_of(prover_id, sector_id);
    let g = porep_graph(config, rid);
    let staged = padded_sector(data, config.nodes() as int);
    assert(staged.len() == config.sector_size);
    assert(zero_extended(staged, config.sector_size as nat) =~= staged);
    lemma_extract_replicate(g, rid, staged, LAYERS as nat);
    lemma_unpad_pad(data, config.nodes() as int);
    let u = unpadded(staged);
    assert(u.subrange(0, data.len() as int) == data);
    assert(u.subrange(offset as int, (offset + num_bytes) as int) =~= data.subrange(
        offset as int,
        (offset + num_bytes) as int,
    ));
}

} // verus!
