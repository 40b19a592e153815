use filecoin_proofs::fr32::pad_sector;
use filecoin_proofs::post::{generate_post, verify_post, PoStConfig, PoStPublicInputs};
use filecoin_proofs::seal::{
    get_unsealed_range, seal, verify_seal, PoRepConfig, SealOutput, SealPublicInputs,
};

const TEST_SECTOR_SIZE: u64 = 128;

const TEST_POREP: PoRepConfig = PoRepConfig { sector_size: TEST_SECTOR_SIZE, partitions: 2 };

const TEST_POST: PoStConfig = PoStConfig { sector_size: TEST_SECTOR_SIZE, partitions: 1 };

fn digest(parts: &[&[u8]]) -> Vec<u8> {
    let mut ctx = ring::digest::Context::new(&ring::digest::SHA256);
    for p in parts {
        ctx.update(p);
    }
    ctx.finish().as_ref().to_vec()
}

/// A stand-in proving backend: each partition's proof is a digest of the
/// public inputs, so that it binds exactly those inputs.
fn seal_proof_for(i: &SealPublicInputs) -> Vec<u8> {
    let mut out = Vec::new();
    for part in 0..i.config.partitions {
        for chunk in 0..6u8 {
            out.extend(digest(&[
                &i.replica_id,
                &i.comm_d,
                &i.comm_r,
                &i.comm_r_star,
                &i.config.sector_size.to_le_bytes(),
                &(part as u64).to_le_bytes(),
                &[chunk],
            ]));
        }
    }
    out
}

fn test_seal_prove(i: SealPublicInputs, _data: &Vec<u8>, _replica: &Vec<u8>) -> Result<Vec<u8>, String> {
    Ok(seal_proof_for(&i))
}

fn test_seal_verify(i: SealPublicInputs, proof: &Vec<u8>) -> Result<bool, String> {
    Ok(*proof == seal_proof_for(&i))
}

fn post_proof_for(i: &PoStPublicInputs) -> Vec<u8> {
    let mut comms = Vec::new();
    for c in &i.commitments {
        comms.extend_from_slice(c);
    }
    let mut faults = Vec::new();
    for f in &i.faults {
        faults.extend_from_slice(&f.to_le_bytes());
    }
    let mut out = Vec::new();
    for part in 0..i.post_config.partitions {
        for chunk in 0..6u8 {
            out.extend(digest(&[
                &i.challenge_seed,
                &comms,
                &faults,
                &(part as u64).to_le_bytes(),
                &[chunk],
            ]));
        }
    }
    out
}

fn test_post_prove(i: &PoStPublicInputs, _access: &Vec<String>) -> Result<Vec<u8>, String> {
    Ok(post_proof_for(i))
}

fn test_post_verify(i: &PoStPublicInputs, proof: &Vec<u8>) -> Result<bool, String> {
    Ok(*proof == post_proof_for(i))
}

#[derive(Debug, Clone, Copy)]
enum BytesAmount<'a> {
    Max,
    Offset(u64),
    Exact(&'a [u8]),
}

struct Harness {
    prover_id: [u8; 31],
    sector_id: [u8; 31],
    seal_output: SealOutput,
    sealed: Vec<u8>,
    written_contents: Vec<Vec<u8>>,
    unsealed: Vec<u8>,
}

fn make_random_bytes(num_bytes_to_make: u64) -> Vec<u8> {
    (0..num_bytes_to_make).map(|_| rand::random::<u8>()).collect()
}

fn create_harness(config: PoRepConfig, bytes_amts: &[BytesAmount]) -> Harness {
    let max: u64 = config.unpadded_bytes();
    let prover_id = [2; 31];
    let sector_id = [0; 31];

    let mut staged_unpadded: Vec<u8> = Vec::new();
    let mut written_contents: Vec<Vec<u8>> = Vec::new();
    for bytes_amt in bytes_amts {
        let contents = match bytes_amt {
            BytesAmount::Exact(bs) => bs.to_vec(),
            BytesAmount::Max => make_random_bytes(max),
            BytesAmount::Offset(m) => make_random_bytes(max - m),
        };
        staged_unpadded.extend_from_slice(&contents);
        written_contents.push(contents);
    }
    let nodes = (config.sector_size / 32) as usize;
    let mut sealed = pad_sector(&staged_unpadded, nodes);

    let seal_output = seal(
        config,
        &mut sealed,
        &prover_id,
        &sector_id,
        &test_seal_prove,
        &test_seal_verify,
    )
    .expect("failed to seal");

    let SealOutput { comm_r, comm_d, comm_r_star, proof } = seal_output.clone();

    // valid commitments
    let is_valid = verify_seal(
        config,
        comm_r,
        comm_d,
        comm_r_star,
        &prover_id,
        &sector_id,
        &proof,
        &test_seal_verify,
    )
    .expect("failed to run verify_seal");
    assert!(is_valid, "verification of valid proof failed for bytes_amts={:?}", bytes_amts);

    // unseal the whole thing
    let unsealed = get_unsealed_range(config, &sealed, &prover_id, &sector_id, 0, max)
        .expect("failed to unseal");
    assert_eq!(max, unsealed.len() as u64);

    Harness { prover_id, sector_id, seal_output, sealed, written_contents, unsealed }
}

fn seal_verify_aux(config: PoRepConfig, bytes_amt: BytesAmount) {
    let h = create_harness(config, &[bytes_amt]);

    // The commitments are rotated: comm_d stands for comm_r and comm_r_star
    // for comm_d, so the proof must not verify.
    let is_valid = verify_seal(
        config,
        h.seal_output.comm_d,
        h.seal_output.comm_r_star,
        h.seal_output.comm_r,
        &h.prover_id,
        &h.sector_id,
        &h.seal_output.proof,
        &test_seal_verify,
    )
    .expect("failed to run verify_seal");
    assert!(!is_valid, "proof should not be valid");
}

fn seal_unsealed_roundtrip_aux(config: PoRepConfig, bytes_amt: BytesAmount) {
    let h = create_harness(config, &[bytes_amt]);
    let buf = h.unsealed.clone();
    let max: u64 = config.unpadded_bytes();

    let byte_padding_amount = match bytes_amt {
        BytesAmount::Exact(bs) => max - (bs.len() as u64),
        BytesAmount::Max => 0,
        BytesAmount::Offset(m) => m,
    };

    assert_eq!(
        h.written_contents[0].len(),
        buf.len() - (byte_padding_amount as usize),
        "length of written and unsealed contents differed for bytes_amt={:?}",
        bytes_amt
    );
    assert_eq!(
        h.written_contents[0][..],
        buf[0..h.written_contents[0].len()],
        "written and unsealed contents differed for bytes_amt={:?}",
        bytes_amt
    );
}

fn seal_unsealed_range_roundtrip_aux(config: PoRepConfig, bytes_amt: BytesAmount) {
    let h = create_harness(config, &[bytes_amt]);

    let offset = 5;
    let range_length = h.written_contents[0].len() as u64 - offset;

    let buf = get_unsealed_range(
        config,
        &h.sealed,
        &h.prover_id,
        &h.sector_id,
        offset,
        range_length,
    )
    .expect("failed to unseal");
    assert_eq!(range_length, buf.len() as u64);

    assert_eq!(
        h.written_contents[0][(offset as usize)..],
        buf[0..(range_length as usize)],
        "written and unsealed range contents differed for bytes_amt={:?}",
        bytes_amt
    );
}

fn write_and_preprocess_overwrites_unaligned_last_bytes_aux(config: PoRepConfig) {
    // Two writes, of 32 and of 95 bytes, that fill the 127 data bytes of the
    // sector; the second must not leave the last, incomplete byte of the
    // first unwritten.
    let contents_a = [255; 32];
    let contents_b = [255; 95];

    let h = create_harness(config, &[BytesAmount::Exact(&contents_a), BytesAmount::Exact(&contents_b)]);

    let buf_from_file = get_unsealed_range(
        config,
        &h.sealed,
        &h.prover_id,
        &h.sector_id,
        0,
        (contents_a.len() + contents_b.len()) as u64,
    )
    .expect("failed to unseal");

    assert_eq!(contents_a.len() + contents_b.len(), buf_from_file.len());
    assert_eq!(contents_a[..], buf_from_file[0..contents_a.len()]);
    assert_eq!(
        contents_b[..],
        buf_from_file[contents_a.len()..contents_a.len() + contents_b.len()]
    );
}

fn post_verify_aux(config: PoRepConfig, bytes_amt: BytesAmount) {
    let h = create_harness(config, &[bytes_amt]);
    let comm_r = h.seal_output.comm_r;
    let comm_rs = vec![comm_r, comm_r];
    let challenge_seed: [u8; 32] = rand::random();
    let access = String::from("sealed-sector");

    let post_output = generate_post(
        TEST_POST,
        challenge_seed,
        vec![(Some(access.clone()), comm_r), (Some(access.clone()), comm_r)],
        &test_post_prove,
    )
    .expect("PoSt generation failed");

    let result = verify_post(
        TEST_POST,
        comm_rs,
        challenge_seed,
        post_output.proofs,
        post_output.faults,
        &test_post_verify,
    )
    .expect("failed to run verify_post");

    assert!(result.is_valid, "verification of valid proof failed");
}

#[test]
fn seal_verify_test() {
    seal_verify_aux(TEST_POREP, BytesAmount::Max);
    seal_verify_aux(TEST_POREP, BytesAmount::Offset(5));
}

#[test]
fn seal_unsealed_roundtrip_test() {
    seal_unsealed_roundtrip_aux(TEST_POREP, BytesAmount::Max);
    seal_unsealed_roundtrip_aux(TEST_POREP, BytesAmount::Offset(5));
}

#[test]
fn seal_unsealed_range_roundtrip_test() {
    seal_unsealed_range_roundtrip_aux(TEST_POREP, BytesAmount::Max);
    seal_unsealed_range_roundtrip_aux(TEST_POREP, BytesAmount::Offset(5));
}

#[test]
fn write_and_preprocess_overwrites_unaligned_last_bytes() {
    write_and_preprocess_overwrites_unaligned_last_bytes_aux(TEST_POREP);
}

#[test]
fn concurrent_seal_unsealed_range_roundtrip_test() {
    // Independent sealings, each on its own buffer, sharing no state.
    let runs = 5;
    for _ in 0..runs {
        seal_unsealed_range_roundtrip_aux(TEST_POREP, BytesAmount::Max);
    }
}

#[test]
fn post_verify_test() {
    post_verify_aux(TEST_POREP, BytesAmount::Max);
}

#[test]
fn post_rejects_mutated_challenge_seed() {
    let h = create_harness(TEST_POREP, &[BytesAmount::Max]);
    let comm_r = h.seal_output.comm_r;
    let challenge_seed: [u8; 32] = [7; 32];
    let access = String::from("sealed-sector");
    let out = generate_post(
        TEST_POST,
        challenge_seed,
        vec![(Some(access.clone()), comm_r), (Some(access), comm_r)],
        &test_post_prove,
    )
    .expect("PoSt generation failed");
    let mut mutated = challenge_seed;
    mutated[0] ^= 1;
    let result = verify_post(
        TEST_POST,
        vec![comm_r, comm_r],
        mutated,
        out.proofs,
        out.faults,
        &test_post_verify,
    )
    .expect("failed to run verify_post");
    assert!(!result.is_valid);
}

#[test]
fn seal_binds_data_prover_and_sector() {
    let base: Vec<u8> = (0..127u32).map(|i| (i * 7 + 3) as u8).collect();
    let seal_with = |data: &Vec<u8>, prover: [u8; 31], sector: [u8; 31]| {
        let mut staged = pad_sector(data, 4);
        seal(TEST_POREP, &mut staged, &prover, &sector, &test_seal_prove, &test_seal_verify)
            .expect("failed to seal")
    };
    let a = seal_with(&base, [2; 31], [0; 31]);
    let mut other = base.clone();
    other[60] ^= 0x10;
    let b = seal_with(&other, [2; 31], [0; 31]);
    assert!(a.comm_d != b.comm_d || a.comm_r != b.comm_r);
    let c = seal_with(&base, [3; 31], [0; 31]);
    assert!(a.comm_r != c.comm_r);
    let d = seal_with(&base, [2; 31], [1; 31]);
    assert!(a.comm_r != d.comm_r);
    let again = seal_with(&base, [2; 31], [0; 31]);
    assert_eq!(a.comm_r, again.comm_r);
    assert_eq!(a.comm_d, again.comm_d);
    assert_eq!(a.comm_r_star, again.comm_r_star);
}
