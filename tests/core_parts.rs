use filecoin_proofs::challenges::{derive_challenges, meets_minimum_challenges};
use filecoin_proofs::drg::{decode, encode};
use filecoin_proofs::error::Error;
use filecoin_proofs::multi_proof::{join_partitions, split_partitions};
use filecoin_proofs::fr32::{is_canonical_fr, pad_safe_fr, pad_sector, safe_challenge_seed, unpad_range};
use filecoin_proofs::graph::{feistel_permute, sample_parents, Graph};
use filecoin_proofs::merkle::{merkle_path, merkle_root_of, verify_merkle_path};
use filecoin_proofs::post::{
    generate_post_dynamic, generate_post_fixed_sectors_count, verify_post_collect_output,
    verify_post_dynamic, verify_post_fixed_sectors_count, GeneratePoStDynamicSectorsCountInput,
    PoStConfig, PoStPublicInputs, VerifyPoStDynamicSectorsCountInput,
};
use filecoin_proofs::seal::{
    get_unsealed_range, replica_id, seal, verify_seal, PoRepConfig, SealPublicInputs,
};
use filecoin_proofs::zigzag::{extract_all, replicate};

const MODULUS_LE: [u8; 32] = [
    0x01, 0x00, 0x00, 0x00, 0xff, 0xff, 0xff, 0xff, 0xfe, 0x5b, 0xfe, 0xff, 0x02, 0xa4, 0xbd, 0x53,
    0x05, 0xd8, 0xa1, 0x09, 0x08, 0xd8, 0x39, 0x33, 0x48, 0x7d, 0x9d, 0x29, 0x53, 0xa7, 0xed, 0x73,
];

fn sha(b: &[u8]) -> Vec<u8> {
    ring::digest::digest(&ring::digest::SHA256, b).as_ref().to_vec()
}

fn ok_prove(_i: SealPublicInputs, _d: &Vec<u8>, _r: &Vec<u8>) -> Result<Vec<u8>, String> {
    Ok(vec![1; 384])
}

fn short_prove(_i: SealPublicInputs, _d: &Vec<u8>, _r: &Vec<u8>) -> Result<Vec<u8>, String> {
    Ok(vec![1; 10])
}

fn accept(_i: SealPublicInputs, _p: &Vec<u8>) -> Result<bool, String> {
    Ok(true)
}

fn reject(_i: SealPublicInputs, _p: &Vec<u8>) -> Result<bool, String> {
    Ok(false)
}

fn failing_verify(_i: SealPublicInputs, _p: &Vec<u8>) -> Result<bool, String> {
    Err(String::from("no key"))
}

fn post_prove(_i: &PoStPublicInputs, _a: &Vec<String>) -> Result<Vec<u8>, String> {
    Ok(vec![0; 192])
}

fn post_accept(_i: &PoStPublicInputs, _p: &Vec<u8>) -> Result<bool, String> {
    Ok(true)
}

const CONFIG: PoRepConfig = PoRepConfig { sector_size: 128, partitions: 2 };

#[test]
fn pad_safe_fr_appends_zero() {
    let mut id = [0u8; 31];
    for (i, b) in id.iter_mut().enumerate() {
        *b = i as u8 + 1;
    }
    let padded = pad_safe_fr(&id);
    assert_eq!(&padded[..31], &id[..]);
    assert_eq!(padded[31], 0);
}

#[test]
fn challenge_seed_top_bits_cleared() {
    let seed = [0xff; 32];
    let safe = safe_challenge_seed(&seed);
    assert_eq!(&safe[..31], &seed[..31]);
    assert_eq!(safe[31], 0x3f);
    assert!(is_canonical_fr(&safe));
}

#[test]
fn canonical_field_elements() {
    assert!(is_canonical_fr(&[0; 32]));
    assert!(!is_canonical_fr(&MODULUS_LE));
    let mut below = MODULUS_LE;
    below[0] = 0;
    assert!(is_canonical_fr(&below));
    assert!(!is_canonical_fr(&[0xff; 32]));
}

#[test]
fn padding_layout_of_full_node() {
    let data = vec![0xff; 32];
    let padded = pad_sector(&data, 2);
    assert_eq!(padded.len(), 64);
    assert!(padded[..31].iter().all(|b| *b == 0xff));
    assert_eq!(padded[31], 0x3f);
    assert_eq!(padded[32], 0x03);
    assert!(padded[33..].iter().all(|b| *b == 0));
}

#[test]
fn unpad_range_inverts_padding() {
    let data: Vec<u8> = (0..127u32).map(|i| (i * 31 + 5) as u8).collect();
    let padded = pad_sector(&data, 4);
    assert_eq!(unpad_range(&padded, 0, 127), data);
    assert_eq!(unpad_range(&padded, 10, 20), data[10..20].to_vec());
}

#[test]
fn parents_precede_their_node() {
    let g = Graph::new(64, 5, [9; 32]).expect("graph");
    assert!(sample_parents(&g, 0).is_empty());
    assert_eq!(sample_parents(&g, 1), vec![0]);
    for i in 1..64 {
        let ps = sample_parents(&g, i);
        assert!(!ps.is_empty() && ps.len() <= 5);
        assert!(ps.iter().all(|p| *p < i));
        assert!(ps.windows(2).all(|w| w[0] < w[1]));
    }
    assert!(Graph::new(0, 5, [0; 32]).is_none());
    assert!(Graph::new(4, 0, [0; 32]).is_none());
}

#[test]
fn feistel_is_injective_on_samples() {
    let seed = [3; 32];
    let mut seen: Vec<u64> = (0..200u64).map(|x| feistel_permute(&seed, x)).collect();
    seen.sort();
    seen.dedup();
    assert_eq!(seen.len(), 200);
    assert_ne!(feistel_permute(&seed, 1), feistel_permute(&[4; 32], 1));
}

#[test]
fn decode_inverts_encode() {
    let g = Graph::new(8, 5, [1; 32]).expect("graph");
    let rid = [5u8; 32];
    let data: Vec<u8> = (0..256u32).map(|i| (i % 251) as u8).collect();
    let mut replica = data.clone();
    assert_eq!(encode(&g, &rid, &mut replica), Ok(()));
    assert_ne!(replica, data);
    assert_eq!(decode(&g, &rid, &replica), Ok(data));
}

#[test]
fn encode_refuses_wrong_sizes() {
    let g = Graph::new(8, 5, [1; 32]).expect("graph");
    let mut short = vec![1u8; 255];
    assert_eq!(encode(&g, &[0; 32], &mut short), Err(Error::DataSizeMismatch));
    assert_eq!(short, vec![1u8; 255]);
    assert_eq!(decode(&g, &[0; 32], &short), Err(Error::DataSizeMismatch));
    let bad = Graph { nodes: 8, degree: 0, seed: [0; 32] };
    let mut d = vec![0u8; 256];
    assert_eq!(encode(&bad, &[0; 32], &mut d), Err(Error::ConfigMismatch));
    assert_eq!(decode(&bad, &[0; 32], &d), Err(Error::ConfigMismatch));
    assert_eq!(replicate(&g, &[0; 32], &mut short, 4).err(), Some(Error::DataSizeMismatch));
    assert_eq!(replicate(&g, &[0; 32], &mut d, 0).err(), Some(Error::ConfigMismatch));
    assert_eq!(extract_all(&g, &[0; 32], &d, 17), Err(Error::ConfigMismatch));
    assert_eq!(extract_all(&g, &[0; 32], &short, 4), Err(Error::DataSizeMismatch));
}

#[test]
fn merkle_root_of_two_nodes() {
    let mut d = vec![1u8; 32];
    d.extend(vec![2u8; 32]);
    let mut expected = sha(&[&[2u8][..], &d[..]].concat());
    expected[31] &= 0x3f;
    assert_eq!(merkle_root_of(&d, 2).to_vec(), expected);
    let single = vec![4u8; 32];
    assert_eq!(merkle_root_of(&single, 1).to_vec(), single);
}

#[test]
fn replicate_then_extract() {
    let g = Graph::new(4, 5, [8; 32]).expect("graph");
    let rid = [8u8; 32];
    let data: Vec<u8> = (0..128u32).map(|i| (i * 3) as u8 & 0x3f).collect();
    let mut replica = data.clone();
    let c = replicate(&g, &rid, &mut replica, 4).expect("replicate");
    assert_eq!(c.comm_d, merkle_root_of(&data, 4));
    assert_eq!(c.comm_r, merkle_root_of(&replica, 4));
    assert_eq!(extract_all(&g, &rid, &replica, 4), Ok(data));
}

#[test]
fn replica_id_is_trimmed_digest() {
    let p = [1u8; 31];
    let s = [2u8; 31];
    let mut input = vec![3u8];
    input.extend_from_slice(&pad_safe_fr(&p));
    input.extend_from_slice(&pad_safe_fr(&s));
    let mut expected = sha(&input);
    expected[31] &= 0x3f;
    assert_eq!(replica_id(&p, &s).to_vec(), expected);
}

#[test]
fn seal_errors() {
    let bad = PoRepConfig { sector_size: 100, partitions: 2 };
    let mut data = vec![0u8; 10];
    assert_eq!(
        seal(bad, &mut data, &[0; 31], &[0; 31], &ok_prove, &accept).err(),
        Some(Error::ConfigMismatch)
    );
    let mut long = vec![0u8; 129];
    assert_eq!(
        seal(CONFIG, &mut long, &[0; 31], &[0; 31], &ok_prove, &accept).err(),
        Some(Error::DataSizeMismatch)
    );
    assert_eq!(long.len(), 129);
    let mut d = vec![0u8; 40];
    assert_eq!(
        seal(CONFIG, &mut d, &[0; 31], &[0; 31], &short_prove, &accept).err(),
        Some(Error::MalformedProof)
    );
    assert_eq!(d.len(), 128);
    let mut d = vec![0u8; 40];
    assert_eq!(
        seal(CONFIG, &mut d, &[0; 31], &[0; 31], &ok_prove, &reject).err(),
        Some(Error::InternalConsistency)
    );
    let mut d = vec![0u8; 40];
    assert_eq!(
        seal(CONFIG, &mut d, &[0; 31], &[0; 31], &ok_prove, &failing_verify).err(),
        Some(Error::Backend(String::from("no key")))
    );
}

#[test]
fn seal_pads_and_replicates_in_place() {
    let mut d = vec![9u8; 40];
    let out = seal(CONFIG, &mut d, &[1; 31], &[2; 31], &ok_prove, &accept).expect("seal");
    assert_eq!(d.len(), 128);
    let mut staged = vec![9u8; 40];
    staged.resize(128, 0);
    let rid = replica_id(&[1; 31], &[2; 31]);
    let g = Graph::new(4, 5, rid).expect("graph");
    let mut expected = staged.clone();
    let c = replicate(&g, &rid, &mut expected, 4).expect("replicate");
    assert_eq!(d, expected);
    assert_eq!(out.comm_d, c.comm_d);
    assert_eq!(out.comm_r, c.comm_r);
    assert_eq!(out.comm_r_star, c.comm_r_star);
    assert_eq!(out.proof.len(), 384);
}

#[test]
fn verify_seal_errors() {
    let bad = PoRepConfig { sector_size: 128, partitions: 0 };
    let proof = vec![0u8; 384];
    assert_eq!(
        verify_seal(bad, [0; 32], [0; 32], [0; 32], &[0; 31], &[0; 31], &proof, &accept),
        Err(Error::ConfigMismatch)
    );
    assert_eq!(
        verify_seal(CONFIG, [0xff; 32], [0; 32], [0; 32], &[0; 31], &[0; 31], &proof, &accept),
        Err(Error::FieldEncoding)
    );
    assert_eq!(
        verify_seal(CONFIG, [0; 32], [0; 32], [0; 32], &[0; 31], &[0; 31], &vec![0; 383], &accept),
        Ok(false)
    );
    assert_eq!(
        verify_seal(CONFIG, [0; 32], [0; 32], [0; 32], &[0; 31], &[0; 31], &proof, &accept),
        Ok(true)
    );
}

#[test]
fn unsealed_range_errors_and_cut() {
    let sealed = vec![0u8; 128];
    let bad = PoRepConfig { sector_size: 64, partitions: 65 };
    assert_eq!(get_unsealed_range(bad, &sealed, &[0; 31], &[0; 31], 0, 1), Err(Error::ConfigMismatch));
    assert_eq!(
        get_unsealed_range(CONFIG, &vec![0u8; 96], &[0; 31], &[0; 31], 0, 1),
        Err(Error::DataSizeMismatch)
    );
    let all = get_unsealed_range(CONFIG, &sealed, &[0; 31], &[0; 31], 0, 1000).expect("unseal");
    assert_eq!(all.len(), 127);
    let tail = get_unsealed_range(CONFIG, &sealed, &[0; 31], &[0; 31], 120, 1000).expect("unseal");
    assert_eq!(tail, all[120..].to_vec());
    let none = get_unsealed_range(CONFIG, &sealed, &[0; 31], &[0; 31], 500, 3).expect("unseal");
    assert!(none.is_empty());
}

#[test]
fn post_generation_errors_and_batches() {
    let cfg = PoStConfig { sector_size: 128, partitions: 1 };
    let bad_comm = GeneratePoStDynamicSectorsCountInput {
        post_config: cfg,
        challenge_seed: [0; 32],
        input_parts: vec![(Some(String::from("a")), [0xff; 32])],
    };
    assert_eq!(generate_post_dynamic(bad_comm, &post_prove).err(), Some(Error::FieldEncoding));
    let three = GeneratePoStDynamicSectorsCountInput {
        post_config: cfg,
        challenge_seed: [0; 32],
        input_parts: vec![
            (Some(String::from("a")), [0; 32]),
            (Some(String::from("b")), [1; 32]),
            (Some(String::from("c")), [2; 32]),
        ],
    };
    let out = generate_post_dynamic(three, &post_prove).expect("generate");
    assert_eq!(out.proofs.len(), 2);
    assert!(out.faults.is_empty());
}

#[test]
fn post_verification_errors() {
    let cfg = PoStConfig { sector_size: 128, partitions: 1 };
    let count_mismatch = VerifyPoStDynamicSectorsCountInput {
        post_config: cfg,
        comm_rs: vec![[0; 32]; 3],
        challenge_seed: [0; 32],
        proofs: vec![vec![0; 192]],
        faults: vec![],
    };
    assert_eq!(verify_post_dynamic(count_mismatch, &post_accept).err(), Some(Error::MalformedProof));
    let short = VerifyPoStDynamicSectorsCountInput {
        post_config: cfg,
        comm_rs: vec![[0; 32]; 3],
        challenge_seed: [0; 32],
        proofs: vec![vec![0; 192], vec![0; 191]],
        faults: vec![],
    };
    assert!(!verify_post_dynamic(short, &post_accept).expect("verify").is_valid);
    let fine = VerifyPoStDynamicSectorsCountInput {
        post_config: cfg,
        comm_rs: vec![[0; 32]; 3],
        challenge_seed: [0; 32],
        proofs: vec![vec![0; 192], vec![0; 192]],
        faults: vec![3],
    };
    assert!(verify_post_dynamic(fine, &post_accept).expect("verify").is_valid);
}

#[test]
fn multi_proof_split_and_join() {
    let parts: Vec<Vec<u8>> = (0..3u8).map(|k| vec![k + 1; 192]).collect();
    let joined = join_partitions(&parts);
    assert_eq!(joined.len(), 576);
    assert_eq!(joined[191], 1);
    assert_eq!(joined[192], 2);
    assert_eq!(split_partitions(&joined, 3), Some(parts));
    assert_eq!(split_partitions(&joined, 2), None);
    assert_eq!(split_partitions(&vec![0; 575], 3), None);
    assert_eq!(split_partitions(&Vec::new(), 0), Some(Vec::new()));
}

#[test]
fn challenges_in_range_and_exact() {
    let seed = [6u8; 32];
    let cs = derive_challenges(&seed, 16, 4, 1);
    assert_eq!(cs.len(), 4);
    assert!(cs.iter().all(|c| 1 <= *c && *c < 16));
    let mut input = vec![6u8];
    input.extend_from_slice(&seed);
    input.extend_from_slice(&5u64.to_le_bytes());
    let d = sha(&input);
    let v = u64::from_le_bytes([d[0], d[1], d[2], d[3], d[4], d[5], d[6], d[7]]);
    assert_eq!(cs[1], (v % 15 + 1) as usize);
    assert!(derive_challenges(&seed, 16, 0, 0).is_empty());
}

#[test]
fn minimum_challenge_policy() {
    assert!(meets_minimum_challenges(6, 2, 12));
    assert!(!meets_minimum_challenges(5, 2, 12));
    assert!(meets_minimum_challenges(0, 0, 0));
}

#[test]
fn merkle_openings_verify() {
    let d: Vec<u8> = (0..160u32).map(|i| (i * 13 % 256) as u8).collect();
    let root = merkle_root_of(&d, 5);
    for k in 0..5 {
        let leaf = d[32 * k..32 * k + 32].to_vec();
        let path = merkle_path(&d, 5, k);
        assert_eq!(path.len(), 3);
        assert!(verify_merkle_path(&root, &leaf, k, &path));
        let mut bad = leaf.clone();
        bad[0] ^= 1;
        assert!(!verify_merkle_path(&root, &bad, k, &path));
    }
    let leaf0 = d[0..32].to_vec();
    let path0 = merkle_path(&d, 5, 0);
    assert!(!verify_merkle_path(&root, &leaf0, 1, &path0));
    assert!(!verify_merkle_path(&root, &leaf0[..31].to_vec(), 0, &path0));
    // The lone last node is paired with itself.
    let last = merkle_path(&d, 5, 4);
    assert_eq!(last[0], d[128..160].to_vec());
    let mut h = sha(&[&[2u8][..], &d[128..160], &d[128..160]].concat());
    h[31] &= 0x3f;
    assert_eq!(last[1], h);
}

#[test]
fn post_empty_request() {
    let cfg = PoStConfig { sector_size: 128, partitions: 1 };
    let gen = GeneratePoStDynamicSectorsCountInput {
        post_config: cfg,
        challenge_seed: [0; 32],
        input_parts: vec![],
    };
    let out = generate_post_dynamic(gen, &post_prove).expect("generate");
    assert!(out.proofs.is_empty() && out.faults.is_empty());
    let ver = VerifyPoStDynamicSectorsCountInput {
        post_config: cfg,
        comm_rs: vec![],
        challenge_seed: [0; 32],
        proofs: vec![],
        faults: vec![],
    };
    assert!(verify_post_dynamic(ver, &post_reject).expect("verify").is_valid);
}

#[test]
fn post_batch_functions() {
    let cfg = PoStConfig { sector_size: 128, partitions: 1 };
    let pi = PoStPublicInputs {
        post_config: cfg,
        challenge_seed: [0; 32],
        commitments: vec![[0; 32], [0; 32]],
        faults: vec![],
    };
    let access = vec![String::from("a"), String::from("a")];
    assert_eq!(generate_post_fixed_sectors_count(&pi, &access, &post_prove), Ok(vec![0; 192]));
    assert_eq!(generate_post_fixed_sectors_count(&pi, &access, &post_prove_short), Err(Error::MalformedProof));
    assert_eq!(
        generate_post_fixed_sectors_count(&pi, &access, &post_prove_fail),
        Err(Error::Backend(String::from("down")))
    );
    assert_eq!(verify_post_fixed_sectors_count(&pi, &vec![0; 192], &post_accept), Ok(true));
    assert_eq!(verify_post_fixed_sectors_count(&pi, &vec![0; 192], &post_reject), Ok(false));
    assert_eq!(verify_post_fixed_sectors_count(&pi, &vec![0; 191], &post_accept), Ok(false));
    let bad = PoStPublicInputs {
        post_config: cfg,
        challenge_seed: [0; 32],
        commitments: vec![[0xff; 32], [0; 32]],
        faults: vec![],
    };
    assert_eq!(generate_post_fixed_sectors_count(&bad, &access, &post_prove), Err(Error::FieldEncoding));
    assert_eq!(verify_post_fixed_sectors_count(&bad, &vec![0; 192], &post_accept), Err(Error::FieldEncoding));
    assert_eq!(verify_post_collect_output(&vec![true, false]).is_valid, false);
    assert_eq!(verify_post_collect_output(&vec![true, true]).is_valid, true);
    assert_eq!(verify_post_collect_output(&vec![]).is_valid, true);
}

#[test]
fn post_batch_error_is_an_error() {
    let cfg = PoStConfig { sector_size: 128, partitions: 1 };
    let ver = VerifyPoStDynamicSectorsCountInput {
        post_config: cfg,
        comm_rs: vec![[0; 32]; 2],
        challenge_seed: [0; 32],
        proofs: vec![vec![0; 192]],
        faults: vec![],
    };
    assert_eq!(verify_post_dynamic(ver, &post_verify_fail).err(), Some(Error::Backend(String::from("down"))));
}

fn post_prove_short(_i: &PoStPublicInputs, _a: &Vec<String>) -> Result<Vec<u8>, String> {
    Ok(vec![0; 10])
}

fn post_prove_fail(_i: &PoStPublicInputs, _a: &Vec<String>) -> Result<Vec<u8>, String> {
    Err(String::from("down"))
}

fn post_reject(_i: &PoStPublicInputs, _p: &Vec<u8>) -> Result<bool, String> {
    Ok(false)
}

fn post_verify_fail(_i: &PoStPublicInputs, _p: &Vec<u8>) -> Result<bool, String> {
    Err(String::from("down"))
}
