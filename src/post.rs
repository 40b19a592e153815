//! Proof-of-spacetime drivers: a list of sectors of any length is spread
//! over batches of a fixed number of sectors, each batch is proved or
//! verified on its own, and the answers are gathered in input order.
use vstd::prelude::*;
use crate::fr32::{
    fr_canonical, fr_trimmed, is_canonical_fr, safe_challenge_seed, ChallengeSeed, Commitment,
};
use crate::graph::MAX_NODES;
use crate::error::Error;
use crate::seal::{MAX_PARTITIONS, SINGLE_PARTITION_PROOF_LEN};

verus! {

/// Sectors per batch.
pub const POST_SECTORS_COUNT: usize = 2;

/// The parameters of spacetime proofs for one class of sectors.
#[derive(Clone, Copy, Debug, PartialEq, Eq)]
pub struct PoStConfig {
    /// Padded bytes per sector.
    pub sector_size: u64,
    /// Partitions of the proof of one batch.
    pub partitions: usize,
}

impl PoStConfig {
    pub open spec fn wf(&self) -> bool {
        &&& self.sector_size % 32 == 0
        &&& 2 <= self.sector_size / 32 <= MAX_NODES
        &&& 1 <= self.partitions <= MAX_PARTITIONS
    }

    /// Bytes of the proof of one batch.
    pub open spec fn proof_len(&self) -> nat {
        SINGLE_PARTITION_PROOF_LEN as nat * self.partitions as nat
    }

    /// Whether the sizes are in range.
    pub fn is_valid(&self) -> (r: bool)
        ensures
            r == self.wf(),
    {
        self.sector_size % 32 == 0 && 2 <= self.sector_size / 32 && self.sector_size / 32
            <= MAX_NODES as u64 && 1 <= self.partitions && self.partitions <= MAX_PARTITIONS
    }
}

/// A request for spacetime proofs: for each sector, where its replica can be
/// read (`None` where it cannot) and its replica commitment.
pub struct GeneratePoStDynamicSectorsCountInput {
    pub post_config: PoStConfig,
    pub challenge_seed: ChallengeSeed,
    pub input_parts: Vec<(Option<String>, Commitment)>,
}

/// The proofs of a request, one per batch, and the sectors found faulty.
pub struct GeneratePoStDynamicSectorsCountOutput {
    pub proofs: Vec<Vec<u8>>,
    pub faults: Vec<u64>,
}

/// A request to verify spacetime proofs, one per batch.
pub struct VerifyPoStDynamicSectorsCountInput {
    pub post_config: PoStConfig,
    pub comm_rs: Vec<Commitment>,
    pub challenge_seed: ChallengeSeed,
    pub proofs: Vec<Vec<u8>>,
    pub faults: Vec<u64>,
}

/// Whether every batch verified.
pub struct VerifyPoStDynamicSectorsCountOutput {
    pub is_valid: bool,
}

/// What a backend proves or verifies for one batch.
pub struct PoStPublicInputs {
    pub post_config: PoStConfig,
    /// The seed with its two top bits cleared.
    pub challenge_seed: [u8; 32],
    pub commitments: Vec<Commitment>,
    /// Positions within the batch of the sectors declared faulty.
    pub faults: Vec<u64>,
}

/// The number of batches for `n` sectors.
pub open spec fn num_batches(n: nat) -> nat {
    ((n + POST_SECTORS_COUNT - 1) / POST_SECTORS_COUNT as int) as nat
}

/// The sector at position `k` of batch `b` out of `n`: a short last batch is
/// filled up with its last sector.
pub open spec fn batch_member(n: nat, b: int, k: int) -> int {
    if b * POST_SECTORS_COUNT + k < n {
        b * POST_SECTORS_COUNT + k
    } else {
        n - 1
    }
}

/// The faults among `faults` that fall in batch `b`, as positions within it.
pub open spec fn batch_faults(faults: Seq<u64>, b: int) -> Seq<u64>
    decreases faults.len(),
{
    if faults.len() == 0 {
        Seq::empty()
    } else {
        let rest = batch_faults(faults.drop_last(), b);
        let f = faults.last();
        if f / POST_SECTORS_COUNT as u64 == b {
            rest.push(f % POST_SECTORS_COUNT as u64)
        } else {
            rest
        }
    }
}

/// Every sector of the request can be read.
pub open spec fn all_accessible(parts: Seq<(Option<String>, Commitment)>) -> bool {
    forall|i: int| 0 <= i < parts.len() ==> (#[trigger] parts[i]).0 is Some
}

/// Every commitment of the request is a canonical field element.
pub open spec fn all_canonical(comms: Seq<Commitment>) -> bool {
    forall|i: int| 0 <= i < comms.len() ==> fr_canonical((#[trigger] comms[i])@)
}

/// The commitments of a generation request.
pub open spec fn part_comms(parts: Seq<(Option<String>, Commitment)>) -> Seq<Commitment> {
    parts.map_values(|p: (Option<String>, Commitment)| p.1)
}

/// `pi` and `access` are what batch `b` of the generation request hands to
/// the backend.
pub open spec fn generate_batch(
    input: GeneratePoStDynamicSectorsCountInput,
    b: int,
    pi: PoStPublicInputs,
    access: Seq<String>,
) -> bool {
    let parts = input.input_parts@;
    let n = parts.len();
    &&& pi.post_config == input.post_config
    &&& pi.challenge_seed@ == fr_trimmed(input.challenge_seed@)
    &&& pi.commitments@ == Seq::new(
        POST_SECTORS_COUNT as nat,
        |k: int| parts[batch_member(n, b, k)].1,
    )
    &&& pi.faults@.len() == 0
    &&& access == Seq::new(
        POST_SECTORS_COUNT as nat,
        |k: int| parts[batch_member(n, b, k)].0->Some_0,
    )
}

/// `pi` is what batch `b` of the verification request hands to the backend.
pub open spec fn verify_batch(
    input: VerifyPoStDynamicSectorsCountInput,
    b: int,
    pi: PoStPublicInputs,
) -> bool {
    let comms = input.comm_rs@;
    let n = comms.len();
    &&& pi.post_config == input.post_config
    &&& pi.challenge_seed@ == fr_trimmed(input.challenge_seed@)
    &&& pi.commitments@ == Seq::new(
        POST_SECTORS_COUNT as nat,
        |k: int| comms[batch_member(n, b, k)],
    )
    &&& pi.faults@ == batch_faults(input.faults@, b)
}

/// What one batch's proving comes to, given the backend's answer `res`: a
/// proof of the right length, an error for one of another length, or the
/// backend's error.
pub open spec fn post_proof_outcome(res: Result<Vec<u8>, String>, cfg: PoStConfig) -> Result<
    Vec<u8>,
    Error,
> {
    match res {
        Ok(p) => if p@.len() == cfg.proof_len() {
            Ok(p)
        } else {
            Err(Error::MalformedProof)
        },
        Err(m) => Err(Error::Backend(m)),
    }
}

/// A backend's answer as a batch verification reports it.
pub open spec fn post_verdict(res: Result<bool, String>) -> Result<bool, Error> {
    match res {
        Ok(b) => Ok(b),
        Err(m) => Err(Error::Backend(m)),
    }
}

/// `o` is an outcome of proving batch `b` of `dynamic` with `prove`, on the
/// inputs that batch hands to it.
pub open spec fn batch_generated<P: Fn(&PoStPublicInputs, &Vec<String>) -> Result<Vec<u8>, String>>(
    dynamic: GeneratePoStDynamicSectorsCountInput,
    b: int,
    prove: P,
    o: Result<Vec<u8>, Error>,
) -> bool {
    exists|pi: PoStPublicInputs, a: Vec<String>, res: Result<Vec<u8>, String>|
        #![trigger generate_batch(dynamic, b, pi, a@), prove.ensures((&pi, &a), res)]
        generate_batch(dynamic, b, pi, a@) && prove.ensures((&pi, &a), res) && o
            == post_proof_outcome(res, dynamic.post_config)
}

/// `o` is an outcome of verifying batch `b` of `dynamic` with `verify`: a
/// rejection of a proof of the wrong length, otherwise the backend's answer
/// on the inputs that batch hands to it.
pub open spec fn batch_verified<V: Fn(&PoStPublicInputs, &Vec<u8>) -> Result<bool, String>>(
    dynamic: VerifyPoStDynamicSectorsCountInput,
    b: int,
    verify: V,
    o: Result<bool, Error>,
) -> bool {
    if dynamic.proofs@[b]@.len() != dynamic.post_config.proof_len() {
        o == Ok::<bool, Error>(false)
    } else {
        exists|pi: PoStPublicInputs, res: Result<bool, String>|
            #![trigger verify_batch(dynamic, b, pi), verify.ensures((&pi, &dynamic.proofs@[b]), res)]
            verify_batch(dynamic, b, pi) && verify.ensures((&pi, &dynamic.proofs@[b]), res) && o
                == post_verdict(res)
    }
}

/// All of `answers` are true.
pub open spec fn all_true(answers: Seq<bool>) -> bool {
    forall|b: int| 0 <= b < answers.len() ==> #[trigger] answers[b]
}

fn batch_fault_positions(faults: &Vec<u64>, b: usize) -> (r: Vec<u64>)
    ensures
        r@ == batch_faults(faults@, b as int),
{
    let mut out: Vec<u64> = Vec::new();
    let mut i: usize = 0;
    while i < faults.len()
        invariant
            i <= faults@.len(),
            out@ == batch_faults(faults@.subrange(0, i as int), b as int),
        decreases faults@.len() - i,
    {
        let f = faults[i];
        assert(faults@.subrange(0, i + 1).drop_last() =~= faults@.subrange(0, i as int));
        if f / (POST_SECTORS_COUNT as u64) == b as u64 {
            out.push(f % (POST_SECTORS_COUNT as u64));
        }
        i = i + 1;
    }
    assert(faults@.subrange(0, faults@.len() as int) =~= faults@);
    out
}

/// The public inputs and sector accesses of batch `b` of a generation
/// request.
pub fn generate_post_batch_input(
    input: &GeneratePoStDynamicSectorsCountInput,
    safe_seed: [u8; 32],
    b: usize,
) -> (r: (PoStPublicInputs, Vec<String>))
    requires
        all_accessible(input.input_parts@),
        b < num_batches(input.input_parts@.len()),
        safe_seed@ == fr_trimmed(input.challenge_seed@),
    ensures
        generate_batch(*input, b as int, r.0, r.1@),
        all_canonical(part_comms(input.input_parts@)) ==> all_canonical(r.0.commitments@),
{
    let parts = &input.input_parts;
    let n = parts.len();
    let ghost target_c = Seq::new(
        POST_SECTORS_COUNT as nat,
        |k: int| parts@[batch_member(n as nat, b as int, k)].1,
    );
    let ghost target_a = Seq::new(
        POST_SECTORS_COUNT as nat,
        |k: int| parts@[batch_member(n as nat, b as int, k)].0->Some_0,
    );
    let mut commitments: Vec<Commitment> = Vec::new();
    let mut access: Vec<String> = Vec::new();
    let mut k: usize = 0;
    while k < POST_SECTORS_COUNT
        invariant
            n == parts@.len(),
            b < num_batches(n as nat),
            all_accessible(parts@),
            k <= POST_SECTORS_COUNT,
            target_c == Seq::new(
                POST_SECTORS_COUNT as nat,
                |k: int| parts@[batch_member(n as nat, b as int, k)].1,
            ),
            target_a == Seq::new(
                POST_SECTORS_COUNT as nat,
                |k: int| parts@[batch_member(n as nat, b as int, k)].0->Some_0,
            ),
            commitments@ == target_c.subrange(0, k as int),
            access@ == target_a.subrange(0, k as int),
        decreases POST_SECTORS_COUNT - k,
    {
        let idx = if b * POST_SECTORS_COUNT + k < n {
            b * POST_SECTORS_COUNT + k
        } else {
            n - 1
        };
        assert(idx == batch_member(n as nat, b as int, k as int));
        assert(parts@[idx as int].0 is Some);
        commitments.push(parts[idx].1);
        match &parts[idx].0 {
            Some(a) => {
                access.push(a.clone());
            },
            None => {},
        }
        k = k + 1;
        assert(commitments@ =~= target_c.subrange(0, k as int));
        assert(access@ =~= target_a.subrange(0, k as int));
    }
    assert(commitments@ =~= target_c);
    assert(access@ =~= target_a);
    proof {
        if all_canonical(part_comms(parts@)) {
            assert forall|q: int| 0 <= q < commitments@.len() implies fr_canonical(
                (#[trigger] commitments@[q])@,
            ) by {
                let m = batch_member(n as nat, b as int, q);
                assert(0 <= m < n);
                assert(part_comms(parts@)[m] == parts@[m].1);
            }
        }
    }
    let pi = PoStPublicInputs {
        post_config: input.post_config,
        challenge_seed: safe_seed,
        commitments,
        faults: Vec::new(),
    };
    (pi, access)
}

/// The public inputs of batch `b` of a verification request.
pub fn verify_post_batch_input(
    input: &VerifyPoStDynamicSectorsCountInput,
    safe_seed: [u8; 32],
    b: usize,
) -> (r: PoStPublicInputs)
    requires
        b < num_batches(input.comm_rs@.len()),
        safe_seed@ == fr_trimmed(input.challenge_seed@),
    ensures
        verify_batch(*input, b as int, r),
        all_canonical(input.comm_rs@) ==> all_canonical(r.commitments@),
{
    let comms = &input.comm_rs;
    let n = comms.len();
    let ghost target = Seq::new(
        POST_SECTORS_COUNT as nat,
        |k: int| comms@[batch_member(n as nat, b as int, k)],
    );
    let mut commitments: Vec<Commitment> = Vec::new();
    let mut k: usize = 0;
    while k < POST_SECTORS_COUNT
        invariant
            n == comms@.len(),
            b < num_batches(n as nat),
            k <= POST_SECTORS_COUNT,
            target == Seq::new(
                POST_SECTORS_COUNT as nat,
                |k: int| comms@[batch_member(n as nat, b as int, k)],
            ),
            commitments@ == target.subrange(0, k as int),
        decreases POST_SECTORS_COUNT - k,
    {
        let idx = if b * POST_SECTORS_COUNT + k < n {
            b * POST_SECTORS_COUNT + k
        } else {
            n - 1
        };
        commitments.push(comms[idx]);
        k = k + 1;
        assert(commitments@ =~= target.subrange(0, k as int));
    }
    assert(commitments@ =~= target);
    let faults = batch_fault_positions(&input.faults, b);
    PoStPublicInputs {
        post_config: input.post_config,
        challenge_seed: safe_seed,
        commitments,
        faults,
    }
}

/// Proves one batch with `prove`, and checks the length of the proof. A
/// commitment that is not a field element is refused before proving.
pub fn generate_post_fixed_sectors_count<P>(
    pi: &PoStPublicInputs,
    access: &Vec<String>,
    prove: &P,
) -> (r: Result<Vec<u8>, Error>) where
    P: Fn(&PoStPublicInputs, &Vec<String>) -> Result<Vec<u8>, String>,

    requires
        pi.post_config.wf(),
        forall|q: &PoStPublicInputs, a: &Vec<String>| prove.requires((q, a)),
    ensures
        !all_canonical(pi.commitments@) ==> r == Err::<Vec<u8>, Error>(Error::FieldEncoding),
        all_canonical(pi.commitments@) ==> exists|res: Result<Vec<u8>, String>|
            prove.ensures((pi, access), res) && r == post_proof_outcome(res, pi.post_config),
{
    if !check_canonical(&pi.commitments) {
        return Err(Error::FieldEncoding);
    }
    let res = prove(pi, access);
    let out = match res {
        Ok(p) => {
            if p.len() == SINGLE_PARTITION_PROOF_LEN * pi.post_config.partitions {
                Ok(p)
            } else {
                Err(Error::MalformedProof)
            }
        },
        Err(msg) => Err(Error::Backend(msg)),
    };
    assert(prove.ensures((pi, access), res) && out == post_proof_outcome(res, pi.post_config));
    out
}

/// Verifies one batch with `verify`. A commitment that is not a field
/// element is refused, and a proof of the wrong length rejected, without
/// consulting it.
pub fn verify_post_fixed_sectors_count<V>(pi: &PoStPublicInputs, proof: &Vec<u8>, verify: &V) -> (r:
    Result<bool, Error>) where V: Fn(&PoStPublicInputs, &Vec<u8>) -> Result<bool, String>
    requires
        pi.post_config.wf(),
        forall|q: &PoStPublicInputs, p: &Vec<u8>| verify.requires((q, p)),
    ensures
        !all_canonical(pi.commitments@) ==> r == Err::<bool, Error>(Error::FieldEncoding),
        all_canonical(pi.commitments@) && proof@.len() != pi.post_config.proof_len() ==> r == Ok::<
            bool,
            Error,
        >(false),
        all_canonical(pi.commitments@) && proof@.len() == pi.post_config.proof_len() ==> exists|
            res: Result<bool, String>,
        | verify.ensures((pi, proof), res) && r == post_verdict(res),
{
    if !check_canonical(&pi.commitments) {
        return Err(Error::FieldEncoding);
    }
    if proof.len() != SINGLE_PARTITION_PROOF_LEN * pi.post_config.partitions {
        return Ok(false);
    }
    let res = verify(pi, proof);
    let out = match res {
        Ok(b) => Ok(b),
        Err(msg) => Err(Error::Backend(msg)),
    };
    assert(verify.ensures((pi, proof), res) && out == post_verdict(res));
    out
}

/// Every commitment is a canonical field element.
fn check_canonical(comms: &Vec<Commitment>) -> (r: bool)
    ensures
        r == all_canonical(comms@),
{
    let mut i: usize = 0;
    while i < comms.len()
        invariant
            i <= comms@.len(),
            forall|j: int| 0 <= j < i ==> fr_canonical((#[trigger] comms@[j])@),
        decreases comms@.len() - i,
    {
        if !is_canonical_fr(&comms[i]) {
            return false;
        }
        i = i + 1;
    }
    true
}

fn part_commitments(parts: &Vec<(Option<String>, Commitment)>) -> (r: Vec<Commitment>)
    ensures
        r@ == part_comms(parts@),
{
    let mut out: Vec<Commitment> = Vec::new();
    let mut i: usize = 0;
    while i < parts.len()
        invariant
            i <= parts@.len(),
            out@ == part_comms(parts@).subrange(0, i as int),
        decreases parts@.len() - i,
    {
        out.push(parts[i].1);
        i = i + 1;
        assert(out@ =~= part_comms(parts@).subrange(0, i as int));
    }
    assert(out@ =~= part_comms(parts@));
    out
}

/// Whether every answer is true.
pub fn verify_post_collect_output(answers: &Vec<bool>) -> (r: VerifyPoStDynamicSectorsCountOutput)
    ensures
        r.is_valid == all_true(answers@),
{
    let mut i: usize = 0;
    while i < answers.len()
        invariant
            i <= answers@.len(),
            forall|j: int| 0 <= j < i ==> #[trigger] answers@[j],
        decreases answers@.len() - i,
    {
        if !answers[i] {
            return VerifyPoStDynamicSectorsCountOutput { is_valid: false };
        }
        i = i + 1;
    }
    VerifyPoStDynamicSectorsCountOutput { is_valid: true }
}

/// What generating the proofs of `dynamic` with `prove` may come to, for
/// every sector readable: a configuration error exactly when the sizes are
/// out of range; a field encoding error exactly when a commitment is not a
/// field element; otherwise one proof per batch, each an outcome of proving
/// its batch, or the error of proving one batch.
pub open spec fn generate_post_outcome<
    P: Fn(&PoStPublicInputs, &Vec<String>) -> Result<Vec<u8>, String>,
>(
    dynamic: GeneratePoStDynamicSectorsCountInput,
    prove: P,
    r: Result<GeneratePoStDynamicSectorsCountOutput, Error>,
) -> bool {
    let cfg = dynamic.post_config;
    let parts = dynamic.input_parts@;
    let nb = num_batches(parts.len());
    &&& (r is Err && r->Err_0 == Error::ConfigMismatch) <==> !cfg.wf()
    &&& cfg.wf() ==> ((r is Err && r->Err_0 == Error::FieldEncoding) <==> !all_canonical(
        part_comms(parts),
    ))
    &&& cfg.wf() && all_canonical(part_comms(parts)) ==> match r {
        Ok(out) => {
            &&& out.proofs@.len() == nb
            &&& out.faults@.len() == 0
            &&& forall|b: int|
                0 <= b < nb ==> #[trigger] batch_generated(
                    dynamic,
                    b,
                    prove,
                    Ok::<Vec<u8>, Error>(out.proofs@[b]),
                )
        },
        Err(e) => exists|b: int|
            0 <= b < nb && #[trigger] batch_generated(dynamic, b, prove, Err::<Vec<u8>, Error>(e)),
    }
}

/// What verifying the proofs of `dynamic` with `verify` may come to: a
/// configuration error exactly when the sizes are out of range; a malformed
/// proof error exactly when the number of proofs is not the number of
/// batches; a field encoding error exactly when a commitment is not a field
/// element; otherwise valid exactly when every batch's answer is true, each
/// an outcome of verifying its batch, or the error of verifying one batch.
pub open spec fn verify_post_outcome<V: Fn(&PoStPublicInputs, &Vec<u8>) -> Result<bool, String>>(
    dynamic: VerifyPoStDynamicSectorsCountInput,
    verify: V,
    r: Result<VerifyPoStDynamicSectorsCountOutput, Error>,
) -> bool {
    let cfg = dynamic.post_config;
    let nb = num_batches(dynamic.comm_rs@.len());
    let counted = dynamic.proofs@.len() == nb;
    &&& (r is Err && r->Err_0 == Error::ConfigMismatch) <==> !cfg.wf()
    &&& cfg.wf() ==> ((r is Err && r->Err_0 == Error::MalformedProof) <==> !counted)
    &&& cfg.wf() && counted ==> ((r is Err && r->Err_0 == Error::FieldEncoding) <==> !all_canonical(
        dynamic.comm_rs@,
    ))
    &&& cfg.wf() && counted && all_canonical(dynamic.comm_rs@) ==> match r {
        Ok(out) => exists|answers: Seq<bool>|
            #![trigger all_true(answers)]
            answers.len() == nb && out.is_valid == all_true(answers) && forall|b: int|
                0 <= b < nb ==> #[trigger] batch_verified(
                    dynamic,
                    b,
                    verify,
                    Ok::<bool, Error>(answers[b]),
                ),
        Err(e) => exists|b: int|
            0 <= b < nb && #[trigger] batch_verified(dynamic, b, verify, Err::<bool, Error>(e)),
    }
}

/// Generates the spacetime proofs of a request, one per batch. Every sector
/// must be readable: proving faulted sectors is not supported.
pub fn generate_post_dynamic<P>(dynamic: GeneratePoStDynamicSectorsCountInput, prove: &P) -> (r:
    Result<GeneratePoStDynamicSectorsCountOutput, Error>) where
    P: Fn(&PoStPublicInputs, &Vec<String>) -> Result<Vec<u8>, String>,

    requires
        all_accessible(dynamic.input_parts@),
        forall|q: &PoStPublicInputs, a: &Vec<String>| prove.requires((q, a)),
    ensures
        generate_post_outcome(dynamic, *prove, r),
{
    if !dynamic.post_config.is_valid() {
        return Err(Error::ConfigMismatch);
    }
    let comms = part_commitments(&dynamic.input_parts);
    if !check_canonical(&comms) {
        return Err(Error::FieldEncoding);
    }
    let safe_seed = safe_challenge_seed(&dynamic.challenge_seed);
    let n = dynamic.input_parts.len();
    let nb = n / POST_SECTORS_COUNT + n % POST_SECTORS_COUNT;
    assert(nb == num_batches(n as nat));
    let mut proofs: Vec<Vec<u8>> = Vec::new();
    let mut b: usize = 0;
    while b < nb
        invariant
            nb == num_batches(dynamic.input_parts@.len()),
            dynamic.post_config.wf(),
            all_accessible(dynamic.input_parts@),
            all_canonical(part_comms(dynamic.input_parts@)),
            safe_seed@ == fr_trimmed(dynamic.challenge_seed@),
            forall|q: &PoStPublicInputs, a: &Vec<String>| prove.requires((q, a)),
            b <= nb,
            proofs@.len() == b,
            forall|j: int|
                0 <= j < b ==> #[trigger] batch_generated(
                    dynamic,
                    j,
                    *prove,
                    Ok::<Vec<u8>, Error>(proofs@[j]),
                ),
        decreases nb - b,
    {
        let (pi, access) = generate_post_batch_input(&dynamic, safe_seed, b);
        let res = generate_post_fixed_sectors_count(&pi, &access, prove);
        let ghost wit = choose|x: Result<Vec<u8>, String>|
            prove.ensures((&pi, &access), x) && res == post_proof_outcome(
                x,
                pi.post_config,
            );
        assert(generate_batch(dynamic, b as int, pi, access@) && prove.ensures((&pi, &access), wit));
        assert(batch_generated(dynamic, b as int, *prove, res));
        match res {
            Ok(p) => {
                let ghost before = proofs@;
                proofs.push(p);
                assert forall|j: int| 0 <= j < b + 1 implies #[trigger] batch_generated(
                    dynamic,
                    j,
                    *prove,
                    Ok::<Vec<u8>, Error>(proofs@[j]),
                ) by {
                    if j < b {
                        assert(proofs@[j] == before[j]);
                    }
                }
            },
            Err(e) => {
                return Err(e);
            },
        }
        b = b + 1;
    }
    Ok(GeneratePoStDynamicSectorsCountOutput { proofs, faults: Vec::new() })
}

/// Verifies the spacetime proofs of a request, one per batch: valid exactly
/// when the verification of every batch answers true.
pub fn verify_post_dynamic<V>(dynamic: VerifyPoStDynamicSectorsCountInput, verify: &V) -> (r:
    Result<VerifyPoStDynamicSectorsCountOutput, Error>) where
    V: Fn(&PoStPublicInputs, &Vec<u8>) -> Result<bool, String>,

    requires
        forall|q: &PoStPublicInputs, p: &Vec<u8>| verify.requires((q, p)),
    ensures
        verify_post_outcome(dynamic, *verify, r),
{
    if !dynamic.post_config.is_valid() {
        return Err(Error::ConfigMismatch);
    }
    let n = dynamic.comm_rs.len();
    let nb = n / POST_SECTORS_COUNT + n % POST_SECTORS_COUNT;
    assert(nb == num_batches(n as nat));
    if dynamic.proofs.len() != nb {
        return Err(Error::MalformedProof);
    }
    if !check_canonical(&dynamic.comm_rs) {
        return Err(Error::FieldEncoding);
    }
    let safe_seed = safe_challenge_seed(&dynamic.challenge_seed);
    let mut answers: Vec<bool> = Vec::new();
    let mut b: usize = 0;
    while b < nb
        invariant
            nb == num_batches(dynamic.comm_rs@.len()),
            nb == dynamic.proofs@.len(),
            dynamic.post_config.wf(),
            all_canonical(dynamic.comm_rs@),
            safe_seed@ == fr_trimmed(dynamic.challenge_seed@),
            forall|q: &PoStPublicInputs, p: &Vec<u8>| verify.requires((q, p)),
            b <= nb,
            answers@.len() == b,
            forall|j: int|
                0 <= j < b ==> #[trigger] batch_verified(
                    dynamic,
                    j,
                    *verify,
                    Ok::<bool, Error>(answers@[j]),
                ),
        decreases nb - b,
    {
        let pi = verify_post_batch_input(&dynamic, safe_seed, b);
        let res = verify_post_fixed_sectors_count(&pi, &dynamic.proofs[b], verify);
        proof {
            if dynamic.proofs@[b as int]@.len() == dynamic.post_config.proof_len() {
                let wit = choose|x: Result<bool, String>|
                    verify.ensures((&pi, &dynamic.proofs@[b as int]), x) && res == post_verdict(x);
                assert(verify_batch(dynamic, b as int, pi) && verify.ensures(
                    (&pi, &dynamic.proofs@[b as int]),
                    wit,
                ));
            }
            assert(batch_verified(dynamic, b as int, *verify, res));
        }
        match res {
            Ok(ok) => {
                let ghost before = answers@;
                answers.push(ok);
                assert forall|j: int| 0 <= j < b + 1 implies #[trigger] batch_verified(
                    dynamic,
                    j,
                    *verify,
                    Ok::<bool, Error>(answers@[j]),
                ) by {
                    if j < b {
                        assert(answers@[j] == before[j]);
                    }
                }
            },
            Err(e) => {
                return Err(e);
            },
        }
        b = b + 1;
    }
    let out = verify_post_collect_output(&answers);
    assert(answers@.len() == nb && out.is_valid == all_true(answers@));
    Ok(out)
}

/// Generates a proof of spacetime over the sectors `input_parts`: for each,
/// where its replica can be read and its replica commitment. Every sector
/// must be readable: proving faulted sectors is not supported.
pub fn generate_post<P>(
    post_config: PoStConfig,
    challenge_seed: ChallengeSeed,
    input_parts: Vec<(Option<String>, Commitment)>,
    prove: &P,
) -> (r: Result<GeneratePoStDynamicSectorsCountOutput, Error>) where
    P: Fn(&PoStPublicInputs, &Vec<String>) -> Result<Vec<u8>, String>,

    requires
        all_accessible(input_parts@),
        forall|q: &PoStPublicInputs, a: &Vec<String>| prove.requires((q, a)),
    ensures
        generate_post_outcome(
            GeneratePoStDynamicSectorsCountInput { post_config, challenge_seed, input_parts },
            *prove,
            r,
        ),
{
    generate_post_dynamic(
        GeneratePoStDynamicSectorsCountInput { post_config, challenge_seed, input_parts },
        prove,
    )
}

/// Verifies a proof of spacetime: the proofs of each batch of the
/// commitments `comm_rs`, with the sectors declared faulty.
pub fn verify_post<V>(
    post_config: PoStConfig,
    comm_rs: Vec<Commitment>,
    challenge_seed: ChallengeSeed,
    proofs: Vec<Vec<u8>>,
    faults: Vec<u64>,
    verify: &V,
) -> (r: Result<VerifyPoStDynamicSectorsCountOutput, Error>) where
    V: Fn(&PoStPublicInputs, &Vec<u8>) -> Result<bool, String>,

    requires
        forall|q: &PoStPublicInputs, p: &Vec<u8>| verify.requires((q, p)),
    ensures
        verify_post_outcome(
            VerifyPoStDynamicSectorsCountInput {
                post_config,
                comm_rs,
                challenge_seed,
                proofs,
                faults,
            },
            *verify,
            r,
        ),
{
    verify_post_dynamic(
        VerifyPoStDynamicSectorsCountInput { post_config, comm_rs, challenge_seed, proofs, faults },
        verify,
    )
}

} // verus!
