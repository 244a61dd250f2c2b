use proofpass::proof_encoding::{encode_prefixed, encode_proof_for_soroban};

#[test]
fn hexadecimal_is_lower_case_and_prefixed() {
    assert_eq!(encode_prefixed(&[0x00, 0x1f, 0xA0, 0xFF]), "0x001fa0ff");
    assert_eq!(encode_prefixed(&[]), "0x");
}

#[test]
fn a_proof_is_cut_into_its_points() {
    let raw: Vec<u8> = (0..260u32).map(|i| (i % 251) as u8).collect();
    let encoded = encode_proof_for_soroban(&raw, [0xAA; 32], [0xBB; 32], 1_750_000_000);
    assert_eq!(encoded.vkey_hash_prefix, "0x00010203");
    assert_eq!(encoded.pi_a.len(), 2 + 128);
    assert_eq!(encoded.pi_b.len(), 2 + 256);
    assert_eq!(encoded.pi_c.len(), 2 + 128);
    assert!(encoded.pi_a.starts_with("0x04050607"));
    assert!(encoded.pi_a.ends_with("4243"));
    assert!(encoded.pi_b.starts_with("0x4445"));
    assert!(encoded.pi_b.ends_with("c2c3"));
    assert!(encoded.pi_c.starts_with("0xc4c5"));
    assert!(encoded.pi_c.ends_with("0708"));
    let parts = [
        &encoded.vkey_hash_prefix[2..],
        &encoded.pi_a[2..],
        &encoded.pi_b[2..],
        &encoded.pi_c[2..],
    ]
    .concat();
    assert_eq!(encoded.raw_sp1_proof_hex, parts);
    assert_eq!(encoded.public_inputs.investor_wallet, format!("0x{}", "aa".repeat(32)));
    assert_eq!(encoded.public_inputs.nullifier, format!("0x{}", "bb".repeat(32)));
    assert_eq!(encoded.public_inputs.timestamp, 1_750_000_000);
}

#[test]
fn what_follows_the_points_is_kept_only_as_raw_bytes() {
    let mut raw = vec![7u8; 260];
    raw.push(9);
    let encoded = encode_proof_for_soroban(&raw, [0; 32], [0; 32], 0);
    assert!(encoded.raw_sp1_proof_hex.ends_with("0709"));
    assert!(encoded.pi_c.ends_with("0707"));
}
