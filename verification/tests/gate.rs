use proofpass::gate::{ZkGateError, ZkInvestorGate, CREDENTIAL_LIFETIME, PROOF_LIFETIME};
use proofpass::ledger::{
    Credential, Entry, GateLedger, Groth16Proof, PublicInputs, TtlExtension, Value,
    VerificationKey,
};
use sha2::Digest;
use soroban_sdk::crypto::bn254::{Bn254G1Affine, Fr};
use soroban_sdk::{BytesN, Env};

const NOW: u64 = 1_750_000_000;

const ORIGIN: [u8; 64] = [0u8; 64];

fn dummy_vk() -> VerificationKey {
    VerificationKey {
        alpha: [0u8; 64],
        beta: [0u8; 128],
        gamma: [0u8; 128],
        delta: [0u8; 128],
        ic: vec![[0u8; 64]; 3],
    }
}

fn dummy_program_vkey() -> [u8; 32] {
    [0u8; 32]
}

fn dummy_proof() -> Groth16Proof {
    Groth16Proof { a: [0u8; 64], b: [0u8; 128], c: [0u8; 64] }
}

fn fresh_timestamp(ledger: &GateLedger) -> u64 {
    ledger.timestamp().saturating_sub(86_400)
}

fn fresh_inputs(ledger: &GateLedger, wallet: [u8; 32], nullifier: [u8; 32]) -> PublicInputs {
    PublicInputs {
        investor_wallet: wallet,
        nullifier,
        timestamp: fresh_timestamp(ledger),
    }
}

fn used() -> Entry {
    Entry { value: Value::Used, extension: None }
}

#[test]
fn test_initialize_and_is_authorized_returns_false() {
    let mut ledger = GateLedger::new(1_750_000_000);
    ZkInvestorGate::initialize(&mut ledger, dummy_vk(), dummy_program_vkey());
    assert!(!ZkInvestorGate::is_authorized(&ledger, &[1u8; 32]));
}

#[test]
fn test_is_authorized_unknown_wallet_returns_false() {
    let ledger = GateLedger::new(1_750_000_000);
    assert!(!ZkInvestorGate::is_authorized(&ledger, &[99u8; 32]));
}

#[test]
fn test_verify_without_init_returns_not_initialized() {
    let env = Env::default();
    let mut ledger = GateLedger::new(1_750_000_000);
    let inputs = fresh_inputs(&ledger, [1u8; 32], [2u8; 32]);
    let result =
        ZkInvestorGate::verify_and_authorize(&env, &mut ledger, &dummy_proof(), &inputs, None);
    assert_eq!(result, Err(ZkGateError::ContractNotInitialized));
    assert_eq!(ZkGateError::ContractNotInitialized.code(), 4);
}

#[test]
fn test_expired_timestamp_returns_proof_timestamp_expired() {
    let env = Env::default();
    let now: u64 = 1_750_000_000;
    let mut ledger = GateLedger::new(now);
    ZkInvestorGate::initialize(&mut ledger, dummy_vk(), dummy_program_vkey());

    let stale = now - (91 * 24 * 60 * 60);
    let inputs = PublicInputs {
        investor_wallet: [3u8; 32],
        nullifier: [4u8; 32],
        timestamp: stale,
    };
    let result =
        ZkInvestorGate::verify_and_authorize(&env, &mut ledger, &dummy_proof(), &inputs, None);
    assert_eq!(result, Err(ZkGateError::ProofTimestampExpired));
    assert_eq!(ZkGateError::ProofTimestampExpired.code(), 2);
}

#[test]
fn test_timestamp_at_boundary_passes_recency_check() {
    let env = Env::default();
    let now: u64 = 1_750_000_000;
    let mut ledger = GateLedger::new(now);

    let exactly_90_days_ago = now - (90 * 24 * 60 * 60);
    let inputs = PublicInputs {
        investor_wallet: [7u8; 32],
        nullifier: [8u8; 32],
        timestamp: exactly_90_days_ago,
    };
    let result =
        ZkInvestorGate::verify_and_authorize(&env, &mut ledger, &dummy_proof(), &inputs, None);
    assert_eq!(result, Err(ZkGateError::ContractNotInitialized));
}

#[test]
fn test_replay_nullifier_returns_nullifier_already_used() {
    let env = Env::default();
    let mut ledger = GateLedger::new(1_750_000_000);
    ZkInvestorGate::initialize(&mut ledger, dummy_vk(), dummy_program_vkey());

    let nullifier = [6u8; 32];
    ledger.put(ZkInvestorGate::nullifier_key(&nullifier), used());

    let inputs = fresh_inputs(&ledger, [5u8; 32], nullifier);
    let result =
        ZkInvestorGate::verify_and_authorize(&env, &mut ledger, &dummy_proof(), &inputs, None);
    assert_eq!(result, Err(ZkGateError::NullifierAlreadyUsed));
    assert_eq!(ZkGateError::NullifierAlreadyUsed.code(), 1);
}

#[test]
fn test_double_initialize_overwrites_silently() {
    let mut ledger = GateLedger::new(1_750_000_000);
    ZkInvestorGate::initialize(&mut ledger, dummy_vk(), dummy_program_vkey());

    let new_vkey = [0xABu8; 32];
    ZkInvestorGate::initialize(&mut ledger, dummy_vk(), new_vkey);
    assert_eq!(ledger.program_vkey_hash(), Some([0xABu8; 32]));
}

#[test]
fn error_codes() {
    assert_eq!(ZkGateError::MalformedVerifyingKey.code(), 0);
    assert_eq!(ZkGateError::InvalidZKProof.code(), 3);
    assert_eq!(ZkGateError::CredentialExpired.code(), 5);
}

#[test]
fn points_at_infinity_pass_and_are_stored() {
    let env = Env::default();
    let mut ledger = GateLedger::new(NOW);
    ZkInvestorGate::initialize(&mut ledger, dummy_vk(), dummy_program_vkey());
    let inputs = fresh_inputs(&ledger, [1u8; 32], [2u8; 32]);
    let result =
        ZkInvestorGate::verify_and_authorize(&env, &mut ledger, &dummy_proof(), &inputs, Some(inputs.investor_wallet));
    assert_eq!(result, Ok(()));

    let extension = Some(TtlExtension { threshold: 100_000, extend_to: 1_000_000 });
    assert_eq!(ledger.get(&[2u8; 32]), Some(Entry { value: Value::Used, extension }));
    assert_eq!(
        ledger.get(&[1u8; 32]),
        Some(Entry {
            value: Value::Credential(Credential {
                verified_at: NOW,
                expires_at: NOW + 5 * 365 * 24 * 60 * 60,
                nullifier: [2u8; 32],
            }),
            extension,
        })
    );
    assert_eq!(ledger.get(&[3u8; 32]), None);
    assert!(ZkInvestorGate::is_authorized(&ledger, &[1u8; 32]));
}

#[test]
fn a_nullifier_serves_once() {
    let mut ledger = GateLedger::new(NOW);
    ZkInvestorGate::initialize(&mut ledger, dummy_vk(), dummy_program_vkey());
    let inputs = fresh_inputs(&ledger, [1u8; 32], [2u8; 32]);
    assert_eq!(ZkInvestorGate::settle(&mut ledger, &inputs, true), Ok(()));
    ledger.set_timestamp(NOW + 1_000);
    ZkInvestorGate::initialize(&mut ledger, dummy_vk(), [7u8; 32]);
    let replay = fresh_inputs(&ledger, [9u8; 32], [2u8; 32]);
    assert_eq!(
        ZkInvestorGate::settle(&mut ledger, &replay, true),
        Err(ZkGateError::NullifierAlreadyUsed)
    );
    assert!(!ZkInvestorGate::is_authorized(&ledger, &[9u8; 32]));
    assert!(ZkInvestorGate::is_authorized(&ledger, &[1u8; 32]));
}

#[test]
fn an_invalid_proof_changes_nothing() {
    let mut ledger = GateLedger::new(NOW);
    ZkInvestorGate::initialize(&mut ledger, dummy_vk(), dummy_program_vkey());
    let inputs = fresh_inputs(&ledger, [1u8; 32], [2u8; 32]);
    assert_eq!(
        ZkInvestorGate::settle(&mut ledger, &inputs, false),
        Err(ZkGateError::InvalidZKProof)
    );
    assert!(!ledger.has(&[1u8; 32]));
    assert!(!ledger.has(&[2u8; 32]));
}

#[test]
fn refusals_come_in_order() {
    let mut ledger = GateLedger::new(NOW);
    let stale = PublicInputs {
        investor_wallet: [1u8; 32],
        nullifier: [2u8; 32],
        timestamp: NOW - PROOF_LIFETIME - 1,
    };
    assert_eq!(
        ZkInvestorGate::settle(&mut ledger, &stale, false),
        Err(ZkGateError::ProofTimestampExpired)
    );
    ledger.put([2u8; 32], used());
    assert_eq!(
        ZkInvestorGate::settle(&mut ledger, &stale, false),
        Err(ZkGateError::NullifierAlreadyUsed)
    );
}

#[test]
fn a_credential_ends_after_five_years_to_the_second() {
    let mut ledger = GateLedger::new(NOW);
    ZkInvestorGate::initialize(&mut ledger, dummy_vk(), dummy_program_vkey());
    let inputs = fresh_inputs(&ledger, [1u8; 32], [2u8; 32]);
    assert_eq!(ZkInvestorGate::settle(&mut ledger, &inputs, true), Ok(()));
    ledger.set_timestamp(NOW + CREDENTIAL_LIFETIME - 1);
    assert!(ZkInvestorGate::is_authorized(&ledger, &[1u8; 32]));
    ledger.set_timestamp(NOW + CREDENTIAL_LIFETIME);
    assert!(!ZkInvestorGate::is_authorized(&ledger, &[1u8; 32]));
}

#[test]
fn a_later_request_renews_the_credential() {
    let mut ledger = GateLedger::new(NOW);
    ZkInvestorGate::initialize(&mut ledger, dummy_vk(), dummy_program_vkey());
    let first = fresh_inputs(&ledger, [1u8; 32], [2u8; 32]);
    assert_eq!(ZkInvestorGate::settle(&mut ledger, &first, true), Ok(()));
    let other = fresh_inputs(&ledger, [4u8; 32], [5u8; 32]);
    assert_eq!(ZkInvestorGate::settle(&mut ledger, &other, true), Ok(()));
    ledger.set_timestamp(NOW + 10);
    let second = fresh_inputs(&ledger, [1u8; 32], [3u8; 32]);
    assert_eq!(ZkInvestorGate::settle(&mut ledger, &second, true), Ok(()));
    match ledger.get(&[1u8; 32]).unwrap().value {
        Value::Credential(c) => {
            assert_eq!(c.verified_at, NOW + 10);
            assert_eq!(c.nullifier, [3u8; 32]);
        }
        Value::Used => panic!("a credential was expected"),
    }
    match ledger.get(&[4u8; 32]).unwrap().value {
        Value::Credential(c) => assert_eq!(c.verified_at, NOW),
        Value::Used => panic!("a credential was expected"),
    }
}

#[test]
fn a_key_for_another_number_of_signals_fails() {
    let env = Env::default();
    let inputs = PublicInputs { investor_wallet: [1u8; 32], nullifier: [2u8; 32], timestamp: NOW };
    let mut vk = dummy_vk();
    vk.ic.pop();
    assert!(!ZkInvestorGate::verify_sp1_groth16(&env, &dummy_proof(), &inputs, &vk, &[0u8; 32]));
    vk.ic = vec![[0u8; 64]; 4];
    assert!(!ZkInvestorGate::verify_sp1_groth16(&env, &dummy_proof(), &inputs, &vk, &[0u8; 32]));
    vk.ic = Vec::new();
    assert!(!ZkInvestorGate::verify_sp1_groth16(&env, &dummy_proof(), &inputs, &vk, &[0u8; 32]));
}

#[test]
fn public_signals_of_a_proof() {
    let env = Env::default();
    let inputs = PublicInputs {
        investor_wallet: [0x11u8; 32],
        nullifier: [0x22u8; 32],
        timestamp: 0x0102_0304_0506_0708,
    };
    let mut program_vkey = [0x33u8; 32];
    program_vkey[31] = 0x44;
    let signals = ZkInvestorGate::build_sp1_public_inputs(&env, &inputs, &program_vkey);
    assert_eq!(signals.len(), 2);

    let mut first = program_vkey;
    first[0] = 0;
    assert_eq!(signals[0], first);

    let mut committed = Vec::new();
    committed.extend_from_slice(&[0x11u8; 32]);
    committed.extend_from_slice(&[0x22u8; 32]);
    committed.extend_from_slice(&[1, 2, 3, 4, 5, 6, 7, 8]);
    let mut second: [u8; 32] = sha2::Sha256::digest(&committed).into();
    second[0] &= 0x1F;
    assert_eq!(signals[1], second);
}

fn unhex<const N: usize>(digits: &str) -> [u8; N] {
    let mut out = [0u8; N];
    hex::decode_to_slice(digits, &mut out).unwrap();
    out
}

fn g1_generator() -> [u8; 64] {
    let mut point = [0u8; 64];
    point[31] = 1;
    point[63] = 2;
    point
}

fn g1_doubled() -> [u8; 64] {
    unhex(concat_digits(&[
        "030644e72e131a029b85045b68181585d97816a916871ca8d3c208c16d87cfd3",
        "15ed738c0e0a7c92e7845f96b2ae9c0a68a6a449e3538fc7ff3ebf7a5a18a2c4",
    ])
    .as_str())
}

fn g2_generator() -> [u8; 128] {
    unhex(concat_digits(&[
        "198e9393920d483a7260bfb731fb5d25f1aa493335a9e71297e485b7aef312c2",
        "1800deef121f1e76426a00665e5c4479674322d4f75edadd46debd5cd992f6ed",
        "090689d0585ff075ec9e99ad690c3395bc4b313370b38ef355acdadcd122975b",
        "12c85ea5db8c6deb4aab71808dcb408fe3d1e7690c43d37b4ce6cc0166fa7daa",
    ])
    .as_str())
}

fn concat_digits(parts: &[&str]) -> String {
    parts.concat()
}

/// With all points of G2 the generator, the equation is `a == alpha + vk_x + c`.
fn linear_case(ic: [[u8; 64]; 3], a: [u8; 64]) -> (VerificationKey, Groth16Proof) {
    let g2 = g2_generator();
    (
        VerificationKey { alpha: ORIGIN, beta: g2, gamma: g2, delta: g2, ic: ic.to_vec() },
        Groth16Proof { a, b: g2, c: ORIGIN },
    )
}

fn unmetered() -> Env {
    let env = Env::default();
    env.cost_estimate().budget().reset_unlimited();
    env
}

fn some_inputs() -> PublicInputs {
    PublicInputs { investor_wallet: [1u8; 32], nullifier: [2u8; 32], timestamp: NOW }
}

fn small_vkey(n: u8) -> [u8; 32] {
    let mut key = [0u8; 32];
    key[0] = 0xFF;
    key[31] = n;
    key
}

#[test]
fn the_equation_negates_the_first_point() {
    let env = unmetered();
    let (vk, proof) = linear_case([g1_generator(), ORIGIN, ORIGIN], g1_generator());
    assert!(ZkInvestorGate::verify_sp1_groth16(&env, &proof, &some_inputs(), &vk, &small_vkey(1)));
    let (vk, proof) = linear_case([g1_generator(), ORIGIN, ORIGIN], g1_doubled());
    assert!(!ZkInvestorGate::verify_sp1_groth16(&env, &proof, &some_inputs(), &vk, &small_vkey(1)));
    let (vk, proof) = linear_case([g1_generator(), ORIGIN, ORIGIN], ORIGIN);
    assert!(!ZkInvestorGate::verify_sp1_groth16(&env, &proof, &some_inputs(), &vk, &small_vkey(1)));
}

#[test]
fn the_first_signal_scales_the_second_point_of_the_key() {
    let env = unmetered();
    let (vk, proof) = linear_case([ORIGIN, g1_generator(), ORIGIN], g1_doubled());
    assert!(ZkInvestorGate::verify_sp1_groth16(&env, &proof, &some_inputs(), &vk, &small_vkey(2)));
    assert!(!ZkInvestorGate::verify_sp1_groth16(&env, &proof, &some_inputs(), &vk, &small_vkey(1)));
    let (vk, proof) = linear_case([g1_generator(), g1_generator(), ORIGIN], g1_doubled());
    assert!(ZkInvestorGate::verify_sp1_groth16(&env, &proof, &some_inputs(), &vk, &small_vkey(1)));
    assert!(!ZkInvestorGate::verify_sp1_groth16(&env, &proof, &some_inputs(), &vk, &small_vkey(2)));
}

#[test]
fn the_second_signal_binds_the_inputs() {
    let env = unmetered();
    let inputs = some_inputs();
    let key = small_vkey(0);
    let signals = ZkInvestorGate::build_sp1_public_inputs(&env, &inputs, &key);
    let scalar = Fr::from_bytes(BytesN::from_array(&env, &signals[1]));
    let a = env
        .crypto()
        .bn254()
        .g1_mul(&Bn254G1Affine::from_array(&env, &g1_generator()), &scalar)
        .to_array();
    let (vk, proof) = linear_case([ORIGIN, ORIGIN, g1_generator()], a);
    assert!(ZkInvestorGate::verify_sp1_groth16(&env, &proof, &inputs, &vk, &key));

    let mut other = inputs;
    other.timestamp += 1;
    assert!(!ZkInvestorGate::verify_sp1_groth16(&env, &proof, &other, &vk, &key));
    let mut other = inputs;
    other.investor_wallet[0] = 9;
    assert!(!ZkInvestorGate::verify_sp1_groth16(&env, &proof, &other, &vk, &key));

    let mut ledger = GateLedger::new(NOW);
    ZkInvestorGate::initialize(&mut ledger, vk, key);
    assert_eq!(
        ZkInvestorGate::verify_and_authorize(&env, &mut ledger, &proof, &other, Some(other.investor_wallet)),
        Err(ZkGateError::InvalidZKProof)
    );
    assert!(!ledger.has(&[2u8; 32]));
    assert_eq!(ZkInvestorGate::verify_and_authorize(&env, &mut ledger, &proof, &inputs, Some(inputs.investor_wallet)), Ok(()));
    assert!(ZkInvestorGate::is_authorized(&ledger, &[1u8; 32]));
}

#[test]
fn a_credential_whose_end_cannot_be_written_down() {
    let env = unmetered();
    let now = u64::MAX - CREDENTIAL_LIFETIME + 1;
    let inputs = PublicInputs { investor_wallet: [1u8; 32], nullifier: [2u8; 32], timestamp: now };
    let mut ledger = GateLedger::new(now);
    ZkInvestorGate::initialize(&mut ledger, dummy_vk(), dummy_program_vkey());
    assert_eq!(
        ZkInvestorGate::try_verify_and_authorize(&env, &mut ledger, &dummy_proof(), &inputs, Some(inputs.investor_wallet)),
        None
    );
    assert!(!ledger.has(&[2u8; 32]));

    let (vk, proof) = linear_case([g1_generator(), ORIGIN, ORIGIN], g1_doubled());
    ZkInvestorGate::initialize(&mut ledger, vk, dummy_program_vkey());
    assert_eq!(
        ZkInvestorGate::try_verify_and_authorize(&env, &mut ledger, &proof, &inputs, Some(inputs.investor_wallet)),
        Some(Err(ZkGateError::InvalidZKProof))
    );
    assert_eq!(
        ZkInvestorGate::verify_and_authorize(&env, &mut ledger, &proof, &inputs, Some(inputs.investor_wallet)),
        Err(ZkGateError::InvalidZKProof)
    );

    ledger.set_timestamp(now - 1);
    ZkInvestorGate::initialize(&mut ledger, dummy_vk(), dummy_program_vkey());
    let inputs = PublicInputs { timestamp: now - 1, ..inputs };
    assert_eq!(
        ZkInvestorGate::try_verify_and_authorize(&env, &mut ledger, &dummy_proof(), &inputs, Some(inputs.investor_wallet)),
        Some(Ok(()))
    );
}

#[test]
fn a_refused_request_leaves_the_credential() {
    let mut ledger = GateLedger::new(NOW);
    ZkInvestorGate::initialize(&mut ledger, dummy_vk(), dummy_program_vkey());
    let inputs = fresh_inputs(&ledger, [1u8; 32], [2u8; 32]);
    assert_eq!(ZkInvestorGate::settle(&mut ledger, &inputs, true), Ok(()));
    let stored = ledger.get(&[1u8; 32]);
    let refused = fresh_inputs(&ledger, [1u8; 32], [3u8; 32]);
    assert!(ZkInvestorGate::settle(&mut ledger, &refused, false).is_err());
    let colliding = fresh_inputs(&ledger, [4u8; 32], [1u8; 32]);
    assert!(ZkInvestorGate::settle(&mut ledger, &colliding, true).is_err());
    assert_eq!(ledger.get(&[1u8; 32]), stored);
}
