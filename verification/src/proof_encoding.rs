//! The form in which a proof is handed to the contract.
//!
//! The bytes of a proof, as the prover gives them:
//!
//! | bytes      | what they hold                                                 |
//! |------------|----------------------------------------------------------------|
//! | 0 to 4     | a prefix of the hash of the program's verification key         |
//! | 4 to 68    | `pi_a`, a point of G1: `x`, `y`                                |
//! | 68 to 196  | `pi_b`, a point of G2: `x1`, `x0`, `y1`, `y0`                  |
//! | 196 to 260 | `pi_c`, a point of G1: `x`, `y`                                |
//!
//! Each coordinate is 32 bytes, the most significant first. The contract takes the coordinates of G2
//! in the same order.
use vstd::prelude::*;

use crate::text;

verus! {

/// The number of bytes before the points.
pub const PREFIX_LEN: usize = 4;

/// The number of bytes that a proof has at least.
pub const PROOF_LEN: usize = 260;

/// A proof in the form that the contract takes.
#[derive(Clone, Debug, PartialEq, Eq)]
pub struct SorobanProof {
    /// A point of G1 in hexadecimal, after `0x`.
    pub pi_a: String,
    /// A point of G2 in hexadecimal, after `0x`.
    pub pi_b: String,
    /// A point of G1 in hexadecimal, after `0x`.
    pub pi_c: String,
    /// The prefix of the hash of the program's verification key in hexadecimal, after `0x`.
    pub vkey_hash_prefix: String,
    /// All bytes of the proof in hexadecimal.
    pub raw_sp1_proof_hex: String,
    /// The values that the program committed to.
    pub public_inputs: SorobanPublicInputs,
}

/// The values that the program committed to.
#[derive(Clone, Debug, PartialEq, Eq)]
pub struct SorobanPublicInputs {
    /// The wallet's 32 bytes in hexadecimal, after `0x`.
    pub investor_wallet: String,
    /// The nullifier's 32 bytes in hexadecimal, after `0x`.
    pub nullifier: String,
    /// A Unix timestamp.
    pub timestamp: u64,
}

/// The lower-case hexadecimal digit for a number below sixteen.
pub open spec fn hex_char(n: int) -> char {
    "0123456789abcdef"@[n]
}

/// Bytes in lower-case hexadecimal, two digits to a byte.
pub open spec fn hex_text(bytes: Seq<u8>) -> Seq<char> {
    Seq::new(
        2 * bytes.len(),
        |i: int|
            if i % 2 == 0 {
                hex_char(bytes[i / 2] as int / 16)
            } else {
                hex_char(bytes[i / 2] as int % 16)
            },
    )
}

/// `hex::encode`: each byte becomes two digits, the higher four bits first, in lower case.
#[verifier::external_body]
fn hex_encode(bytes: &[u8]) -> (digits: String)
    ensures
        digits@ == hex_text(bytes@),
{
    hex::encode(bytes)
}

/// Bytes in hexadecimal, after `0x`.
pub open spec fn prefixed_hex(bytes: Seq<u8>) -> Seq<char> {
    seq!['0', 'x'] + hex_text(bytes)
}

/// Writes bytes in hexadecimal, after `0x`.
pub fn encode_prefixed(bytes: &[u8]) -> (digits: String)
    ensures
        digits@ == prefixed_hex(bytes@),
        digits@ == seq!['0', 'x'] + hex_text(bytes@),
{
    let encoded: String = hex_encode(bytes);
    let chars: Vec<char> = text::chars_of(encoded.as_str());
    let mut digits: String = String::new();
    digits.push('0');
    digits.push('x');
    text::push_chars(&mut digits, chars.as_slice());
    assert(digits@ =~= prefixed_hex(bytes@));
    digits
}

/// Puts a proof and the values that the program committed to into the form that the contract takes.
pub fn encode_proof_for_soroban(
    raw: &[u8],
    investor_wallet: [u8; 32],
    nullifier: [u8; 32],
    timestamp: u64,
) -> (encoded: SorobanProof)
    requires
        raw@.len() >= PROOF_LEN,
    ensures
        encoded.pi_a@ == prefixed_hex(raw@.subrange(4, 68)),
        encoded.pi_b@ == prefixed_hex(raw@.subrange(68, 196)),
        encoded.pi_c@ == prefixed_hex(raw@.subrange(196, 260)),
        encoded.vkey_hash_prefix@ == prefixed_hex(raw@.subrange(0, 4)),
        encoded.raw_sp1_proof_hex@ == hex_text(raw@),
        encoded.public_inputs.investor_wallet@ == prefixed_hex(investor_wallet@),
        encoded.public_inputs.nullifier@ == prefixed_hex(nullifier@),
        encoded.public_inputs.timestamp == timestamp,
{
    SorobanProof {
        pi_a: encode_prefixed(&raw[4..68]),
        pi_b: encode_prefixed(&raw[68..196]),
        pi_c: encode_prefixed(&raw[196..260]),
        vkey_hash_prefix: encode_prefixed(&raw[0..PREFIX_LEN]),
        raw_sp1_proof_hex: hex_encode(raw),
        public_inputs: SorobanPublicInputs {
            investor_wallet: encode_prefixed(investor_wallet.as_slice()),
            nullifier: encode_prefixed(nullifier.as_slice()),
            timestamp,
        },
    }
}

/// Hexadecimal tells bytes apart.
pub proof fn law_hex_is_injective(a: Seq<u8>, b: Seq<u8>)
    ensures
        hex_text(a) == hex_text(b) <==> a == b,
{
    if hex_text(a) == hex_text(b) {
        assert(hex_text(a).len() == hex_text(b).len());
        assert forall|i: int| 0 <= i < a.len() implies a[i] == b[i] by {
            reveal_strlit("0123456789abcdef");
            let high = hex_text(a)[2 * i];
            let low = hex_text(a)[2 * i + 1];
            assert(high == hex_char(a[i] as int / 16) && high == hex_text(b)[2 * i]);
            assert(low == hex_char(a[i] as int % 16) && low == hex_text(b)[2 * i + 1]);
            assert((2 * i + 1) / 2 == i && (2 * i) / 2 == i);
            assert(a[i] as int / 16 == b[i] as int / 16);
            assert(a[i] as int % 16 == b[i] as int % 16);
        }
        assert(a =~= b);
    }
}

/// A proof of just the usual length is told by the prefix and the three points together: what
/// stands after `0x` in the four fields makes up the whole of it.
pub proof fn law_parts_make_up_the_proof(raw: Seq<u8>)
    requires
        raw.len() == PROOF_LEN,
    ensures
        hex_text(raw.subrange(0, 4)) + hex_text(raw.subrange(4, 68)) + hex_text(
            raw.subrange(68, 196),
        ) + hex_text(raw.subrange(196, 260)) == hex_text(raw),
{
    let parts = hex_text(raw.subrange(0, 4)) + hex_text(raw.subrange(4, 68)) + hex_text(
        raw.subrange(68, 196),
    ) + hex_text(raw.subrange(196, 260));
    assert(parts =~= hex_text(raw));
}

} // verus!
