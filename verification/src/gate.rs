//! The investor gate: a contract that lets investors pass with a proof of their accreditation.
use vstd::prelude::*;

use crate::bn254;
use crate::ledger::{
    CredentialModel, Entry, EntryModel, GateLedger, GateState, Groth16ProofModel,
    PublicInputsModel, TtlExtension, Value, ValueModel, VerificationKeyModel,
};
use crate::scan;

pub use crate::ledger::{Credential, Groth16Proof, PublicInputs, VerificationKey};

verus! {

/// A proof is taken for this many seconds after the time that it is about: ninety days.
pub const PROOF_LIFETIME: u64 = 7_776_000;

/// A credential is valid for this many seconds: five years.
pub const CREDENTIAL_LIFETIME: u64 = 157_680_000;

/// Where fewer ledgers than this are left to an entry, its life is extended.
pub const TTL_THRESHOLD: u32 = 100_000;

/// The number of ledgers that the life of an entry is extended to.
pub const TTL_EXTEND_TO: u32 = 1_000_000;

/// Why a request is refused.
#[derive(Clone, Copy, Debug, PartialEq, Eq, PartialOrd, Ord, Structural)]
pub enum ZkGateError {
    MalformedVerifyingKey,
    NullifierAlreadyUsed,
    ProofTimestampExpired,
    InvalidZKProof,
    ContractNotInitialized,
    CredentialExpired,
}

impl ZkGateError {
    /// The number that stands for the error on the ledger.
    pub open spec fn code_spec(self) -> u32 {
        match self {
            ZkGateError::MalformedVerifyingKey => 0,
            ZkGateError::NullifierAlreadyUsed => 1,
            ZkGateError::ProofTimestampExpired => 2,
            ZkGateError::InvalidZKProof => 3,
            ZkGateError::ContractNotInitialized => 4,
            ZkGateError::CredentialExpired => 5,
        }
    }

    /// The number that stands for the error on the ledger.
    pub fn code(self) -> (code: u32)
        ensures
            code == self.code_spec(),
            self == ZkGateError::MalformedVerifyingKey <==> code == 0,
            self == ZkGateError::NullifierAlreadyUsed <==> code == 1,
            self == ZkGateError::ProofTimestampExpired <==> code == 2,
            self == ZkGateError::InvalidZKProof <==> code == 3,
            self == ZkGateError::ContractNotInitialized <==> code == 4,
            self == ZkGateError::CredentialExpired <==> code == 5,
    {
        match self {
            ZkGateError::MalformedVerifyingKey => 0,
            ZkGateError::NullifierAlreadyUsed => 1,
            ZkGateError::ProofTimestampExpired => 2,
            ZkGateError::InvalidZKProof => 3,
            ZkGateError::ContractNotInitialized => 4,
            ZkGateError::CredentialExpired => 5,
        }
    }
}

/// The eight bytes of a number, the most significant first.
pub open spec fn be_bytes(n: u64) -> Seq<u8> {
    seq![
        (n / 0x100_0000_0000_0000) as u8,
        (n / 0x1_0000_0000_0000 % 256) as u8,
        (n / 0x100_0000_0000 % 256) as u8,
        (n / 0x1_0000_0000 % 256) as u8,
        (n / 0x100_0000 % 256) as u8,
        (n / 0x1_0000 % 256) as u8,
        (n / 0x100 % 256) as u8,
        (n % 256) as u8,
    ]
}

/// Appends the eight bytes of a number, the most significant first.
pub fn push_be_bytes(out: &mut Vec<u8>, n: u64)
    ensures
        final(out)@ == old(out)@ + be_bytes(n),
{
    out.push((n / 0x100_0000_0000_0000) as u8);
    out.push((n / 0x1_0000_0000_0000 % 256) as u8);
    out.push((n / 0x100_0000_0000 % 256) as u8);
    out.push((n / 0x1_0000_0000 % 256) as u8);
    out.push((n / 0x100_0000 % 256) as u8);
    out.push((n / 0x1_0000 % 256) as u8);
    out.push((n / 0x100 % 256) as u8);
    out.push((n % 256) as u8);
    assert(out@ =~= old(out)@ + be_bytes(n));
}

/// What the program commits to, in the order in which it does so.
pub open spec fn committed_bytes(inputs: PublicInputsModel) -> Seq<u8> {
    inputs.investor_wallet + inputs.nullifier + be_bytes(inputs.timestamp)
}

/// Puts together what the program commits to.
pub fn commit(inputs: &PublicInputs) -> (committed: Vec<u8>)
    ensures
        committed@ == committed_bytes(inputs@),
        committed@.len() == 72,
        committed@.subrange(0, 32) == inputs.investor_wallet@,
        committed@.subrange(32, 64) == inputs.nullifier@,
        committed@.subrange(64, 72) == be_bytes(inputs.timestamp),
{
    let mut committed: Vec<u8> = Vec::new();
    committed.extend_from_slice(inputs.investor_wallet.as_slice());
    committed.extend_from_slice(inputs.nullifier.as_slice());
    push_be_bytes(&mut committed, inputs.timestamp);
    proof {
        assert(committed@ =~= committed_bytes(inputs@));
        assert(committed@.subrange(0, 32) =~= inputs.investor_wallet@);
        assert(committed@.subrange(32, 64) =~= inputs.nullifier@);
        assert(committed@.subrange(64, 72) =~= be_bytes(inputs.timestamp));
    }
    committed
}

/// The signal that names the program: its hash with the first byte cleared.
pub open spec fn vkey_signal(program_vkey: Seq<u8>) -> Seq<u8> {
    program_vkey.update(0, 0)
}

/// The signal that names the committed values: their digest with the three top bits cleared.
pub open spec fn digest_signal(digest: Seq<u8>) -> Seq<u8> {
    digest.update(0, (digest[0] % 32) as u8)
}

/// Makes the signal that names the program.
pub fn signal_of_vkey(program_vkey: &[u8; 32]) -> (signal: [u8; 32])
    ensures
        signal@ == vkey_signal(program_vkey@),
{
    let mut signal: [u8; 32] = *program_vkey;
    signal[0] = 0;
    assert(signal@ =~= vkey_signal(program_vkey@));
    signal
}

/// Makes the signal that names the committed values from their digest.
pub fn signal_of_digest(digest: [u8; 32]) -> (signal: [u8; 32])
    ensures
        signal@ == digest_signal(digest@),
{
    let mut signal: [u8; 32] = digest;
    let first: u8 = digest[0];
    assert(first & 0x1F == first % 32) by (bit_vector);
    signal[0] = first & 0x1F;
    assert(signal@ =~= digest_signal(digest@));
    signal
}

/// The two public signals of a proof.
pub open spec fn public_signals(inputs: PublicInputsModel, program_vkey: Seq<u8>) -> Seq<Seq<u8>> {
    seq![
        vkey_signal(program_vkey),
        digest_signal(bn254::host_sha256(committed_bytes(inputs))),
    ]
}

/// Some signals as mathematical values.
pub open spec fn signal_models(signals: Seq<[u8; 32]>) -> Seq<Seq<u8>> {
    signals.map_values(|s: [u8; 32]| s@)
}

/// `ic[0] + ic[1] * signals[0] + ... + ic[n] * signals[n - 1]` on the curve.
pub open spec fn combination(ic: Seq<Seq<u8>>, signals: Seq<Seq<u8>>, n: int) -> Seq<u8>
    decreases n,
{
    if n <= 0 {
        ic[0]
    } else {
        bn254::g1_sum(
            combination(ic, signals, n - 1),
            bn254::g1_product(ic[n], signals[n - 1]),
        )
    }
}

/// Every point of the proof and of the key lies on its curve.
pub open spec fn points_valid(proof: Groth16ProofModel, vk: VerificationKeyModel) -> bool {
    &&& bn254::is_g1_point(proof.a)
    &&& bn254::is_g2_point(proof.b)
    &&& bn254::is_g1_point(proof.c)
    &&& bn254::is_g1_point(vk.alpha)
    &&& bn254::is_g2_point(vk.beta)
    &&& bn254::is_g2_point(vk.gamma)
    &&& bn254::is_g2_point(vk.delta)
    &&& forall|i: int| 0 <= i < vk.ic.len() ==> bn254::is_g1_point(#[trigger] vk.ic[i])
}

/// The key is made for two public signals.
pub open spec fn takes_two_signals(vk: VerificationKeyModel) -> bool {
    vk.ic.len() == 3
}

/// The proof is valid for the inputs and the program: the key takes two signals, and the pairing
/// equation `e(-a, b) * e(alpha, beta) * e(vk_x, gamma) * e(c, delta) == 1` holds, where `vk_x`
/// is the combination of the signals.
pub open spec fn proof_valid(
    proof: Groth16ProofModel,
    inputs: PublicInputsModel,
    vk: VerificationKeyModel,
    program_vkey: Seq<u8>,
) -> bool {
    takes_two_signals(vk) && bn254::pairings_cancel(
        seq![
            bn254::g1_negated(proof.a),
            vk.alpha,
            combination(vk.ic, public_signals(inputs, program_vkey), 2),
            proof.c,
        ],
        seq![proof.b, vk.beta, vk.gamma, vk.delta],
    )
}

/// Who may pass: the first reason to refuse, in this order: the nullifier was used, the proof is
/// too old, or no key was set.
pub open spec fn admission(state: GateState, inputs: PublicInputsModel) -> Result<(), ZkGateError> {
    if state.entries.contains_key(inputs.nullifier) {
        Err(ZkGateError::NullifierAlreadyUsed)
    } else if state.now - inputs.timestamp > PROOF_LIFETIME {
        Err(ZkGateError::ProofTimestampExpired)
    } else if state.verification_key is None || state.program_vkey_hash is None {
        Err(ZkGateError::ContractNotInitialized)
    } else {
        Ok(())
    }
}

/// The extension of its life that every entry gets.
pub open spec fn standard_extension() -> Option<TtlExtension> {
    Some(TtlExtension { threshold: TTL_THRESHOLD, extend_to: TTL_EXTEND_TO })
}

/// The credential of an investor who is admitted at the time `now`.
pub open spec fn new_credential(now: u64, inputs: PublicInputsModel) -> CredentialModel {
    CredentialModel {
        verified_at: now,
        expires_at: (now + CREDENTIAL_LIFETIME) as u64,
        nullifier: inputs.nullifier,
    }
}

/// The state after an investor has passed: the nullifier is marked as used and the credential is
/// stored under the wallet, and nothing else changes.
pub open spec fn admitted(state: GateState, inputs: PublicInputsModel) -> GateState {
    GateState {
        entries: state.entries.insert(
            inputs.nullifier,
            EntryModel { value: ValueModel::Used, extension: standard_extension() },
        ).insert(
            inputs.investor_wallet,
            EntryModel {
                value: ValueModel::Credential(new_credential(state.now, inputs)),
                extension: standard_extension(),
            },
        ),
        ..state
    }
}

/// What comes of a request, given whether it is valid: the new state, or the reason to refuse.
pub open spec fn outcome(state: GateState, inputs: PublicInputsModel, valid: bool) -> Result<
    GateState,
    ZkGateError,
> {
    match admission(state, inputs) {
        Err(error) => Err(error),
        Ok(()) => if valid {
            Ok(admitted(state, inputs))
        } else {
            Err(ZkGateError::InvalidZKProof)
        },
    }
}

/// The account to be authorized is that of the wallet that the proof is about: it has a key, and
/// the key is the wallet.
pub open spec fn is_own_wallet(inputs: PublicInputsModel, investor_key: Option<[u8; 32]>) -> bool {
    match investor_key {
        Some(key) => key@ == inputs.investor_wallet,
        None => false,
    }
}

/// The request is made for the wallet that the proof is about, and the proof is valid under the
/// keys that are set.
pub open spec fn request_valid(
    state: GateState,
    proof: Groth16ProofModel,
    inputs: PublicInputsModel,
    investor_key: Option<[u8; 32]>,
) -> bool {
    &&& is_own_wallet(inputs, investor_key)
    &&& match (state.verification_key, state.program_vkey_hash) {
        (Some(vk), Some(program_vkey)) => proof_valid(proof, inputs, vk, program_vkey),
        _ => false,
    }
}

/// Unless the request fails before its proof is looked at, the points of the proof and of the key
/// lie on their curves.
pub open spec fn points_are_ready(
    state: GateState,
    proof: Groth16ProofModel,
    inputs: PublicInputsModel,
    investor_key: Option<[u8; 32]>,
) -> bool {
    admission(state, inputs) is Ok && is_own_wallet(inputs, investor_key) && takes_two_signals(
        state.verification_key->0,
    ) ==> points_valid(proof, state.verification_key->0)
}

/// A request that can be judged: unless its nullifier was used, it is not about the future; and
/// where it is admitted with a valid proof, the time at which the credential ends can be written
/// down.
pub open spec fn is_judgeable(state: GateState, inputs: PublicInputsModel, valid: bool) -> bool {
    &&& !state.entries.contains_key(inputs.nullifier) ==> inputs.timestamp <= state.now
    &&& outcome(state, inputs, valid) is Ok ==> state.now + CREDENTIAL_LIFETIME <= u64::MAX
}

/// The credential of a wallet is valid at the time of the ledger.
pub open spec fn authorized(state: GateState, wallet: Seq<u8>) -> bool {
    &&& state.entries.contains_key(wallet)
    &&& state.entries[wallet].value matches ValueModel::Credential(credential)
    &&& credential.expires_at > state.now
}

/// The investor gate.
pub struct ZkInvestorGate;

impl ZkInvestorGate {
    /// Sets the key that proofs are verified with and the hash of the program that they are about,
    /// whether or not they were set before.
    pub fn initialize(ledger: &mut GateLedger, vk: VerificationKey, program_vkey_hash: [u8; 32])
        requires
            old(ledger).wf(),
        ensures
            final(ledger).wf(),
            final(ledger)@ == (GateState {
                verification_key: Some(vk@),
                program_vkey_hash: Some(program_vkey_hash@),
                ..old(ledger)@
            }),
    {
        ledger.set_verification_key(vk);
        ledger.set_program_vkey_hash(program_vkey_hash);
    }

    /// The key that a nullifier is stored under: the nullifier itself.
    pub fn nullifier_key(nullifier: &[u8; 32]) -> (key: [u8; 32])
        ensures
            key@ == nullifier@,
    {
        *nullifier
    }

    /// The key that a credential is stored under: the wallet itself.
    pub fn credential_key(wallet: &[u8; 32]) -> (key: [u8; 32])
        ensures
            key@ == wallet@,
    {
        *wallet
    }

    /// The two public signals of a proof: the program's hash without its first byte, and the
    /// digest of the committed values with the three top bits cleared.
    pub fn build_sp1_public_inputs(
        env: &soroban_sdk::Env,
        inputs: &PublicInputs,
        program_vkey: &[u8; 32],
    ) -> (signals: Vec<[u8; 32]>)
        ensures
            signal_models(signals@) == public_signals(inputs@, program_vkey@),
            signals@.len() == 2,
            signals@[0]@[0] == 0,
            forall|i: int| 1 <= i < 32 ==> #[trigger] signals@[0]@[i] == program_vkey@[i],
            ({
                let digest = bn254::host_sha256(
                    inputs.investor_wallet@ + inputs.nullifier@ + be_bytes(inputs.timestamp),
                );
                &&& signals@[1]@[0] == digest[0] % 32
                &&& forall|i: int| 1 <= i < 32 ==> #[trigger] signals@[1]@[i] == digest[i]
            }),
    {
        let committed: Vec<u8> = commit(inputs);
        let digest: [u8; 32] = bn254::sha256(env, &committed);
        let mut signals: Vec<[u8; 32]> = Vec::new();
        signals.push(signal_of_vkey(program_vkey));
        signals.push(signal_of_digest(digest));
        assert(signal_models(signals@) =~= public_signals(inputs@, program_vkey@));
        signals
    }

    /// Verifies a Groth16 proof over BN254. A key that is not made for two signals fails it.
    pub fn verify_sp1_groth16(
        env: &soroban_sdk::Env,
        proof: &Groth16Proof,
        inputs: &PublicInputs,
        vk: &VerificationKey,
        program_vkey: &[u8; 32],
    ) -> (valid: bool)
        requires
            takes_two_signals(vk@) ==> points_valid(proof@, vk@),
        ensures
            valid == proof_valid(proof@, inputs@, vk@, program_vkey@),
            vk.ic@.len() != 3 ==> !valid,
    {
        let signals: Vec<[u8; 32]> = Self::build_sp1_public_inputs(env, inputs, program_vkey);
        let ghost models = public_signals(inputs@, program_vkey@);
        assert(signals@.len() == models.len());
        if signals.len() + 1 != vk.ic.len() {
            return false;
        }
        let ghost ic = vk@.ic;
        assert(ic[0] == vk.ic@[0]@);
        let mut vk_x: [u8; 64] = vk.ic[0];
        let mut i: usize = 0;
        while i < signals.len()
            invariant
                i <= signals@.len(),
                signals@.len() == 2,
                vk.ic@.len() == 3,
                ic == bn254::g1_points(vk.ic@),
                models == signal_models(signals@),
                forall|j: int| 0 <= j < ic.len() ==> bn254::is_g1_point(#[trigger] ic[j]),
                bn254::is_g1_point(vk_x@),
                vk_x@ == combination(ic, models, i as int),
            decreases signals@.len() - i,
        {
            assert(ic[i + 1] == vk.ic@[i + 1]@);
            assert(models[i as int] == signals@[i as int]@);
            let product: [u8; 64] = bn254::g1_mul(env, &vk.ic[i + 1], &signals[i]);
            let sum: [u8; 64] = bn254::g1_add(env, &vk_x, &product);
            proof {
                bn254::lemma_g1_bytes(product@);
                bn254::lemma_g1_bytes(sum@);
            }
            vk_x = sum;
            i = i + 1;
        }
        let negated: [u8; 64] = bn254::g1_neg(env, &proof.a);
        proof {
            bn254::lemma_negation(negated@, proof.a@);
            bn254::lemma_negation_unique(negated@, proof.a@);
        }
        let g1: [[u8; 64]; 4] = [negated, vk.alpha, vk_x, proof.c];
        let g2: [[u8; 128]; 4] = [proof.b, vk.beta, vk.gamma, vk.delta];
        proof {
            assert(g1@ =~= seq![negated, vk.alpha, vk_x, proof.c]);
            assert(g2@ =~= seq![proof.b, vk.beta, vk.gamma, vk.delta]);
            assert(bn254::g1_points(g1@) =~= seq![negated@, vk.alpha@, vk_x@, proof.c@]);
            assert(bn254::g2_points(g2@) =~= seq![proof.b@, vk.beta@, vk.gamma@, vk.delta@]);
        }
        bn254::pairing_check(env, g1.as_slice(), g2.as_slice())
    }

    /// Tells whether a request may pass as far as its proof is not concerned.
    pub fn screen(ledger: &GateLedger, public_inputs: &PublicInputs) -> (screened: Result<(), ZkGateError>)
        requires
            ledger.wf(),
            !ledger@.entries.contains_key(public_inputs.nullifier@) ==> public_inputs.timestamp
                <= ledger@.now,
        ensures
            screened == admission(ledger@, public_inputs@),
    {
        if ledger.has(&Self::nullifier_key(&public_inputs.nullifier)) {
            return Err(ZkGateError::NullifierAlreadyUsed);
        }
        if ledger.timestamp() - public_inputs.timestamp > PROOF_LIFETIME {
            return Err(ZkGateError::ProofTimestampExpired);
        }
        if ledger.verification_key().is_none() || ledger.program_vkey_hash().is_none() {
            return Err(ZkGateError::ContractNotInitialized);
        }
        Ok(())
    }

    /// Carries out a request, given whether it is made for the wallet that its proof is about and
    /// the proof is valid.
    pub fn settle(ledger: &mut GateLedger, public_inputs: &PublicInputs, valid: bool) -> (settled: Result<
        (),
        ZkGateError,
    >)
        requires
            old(ledger).wf(),
            is_judgeable(old(ledger)@, public_inputs@, valid),
        ensures
            final(ledger).wf(),
            match settled {
                Ok(()) => outcome(old(ledger)@, public_inputs@, valid) == Ok::<GateState, ZkGateError>(
                    final(ledger)@,
                ),
                Err(error) => outcome(old(ledger)@, public_inputs@, valid) == Err::<
                    GateState,
                    ZkGateError,
                >(error) && final(ledger)@ == old(ledger)@,
            },
    {
        let screened = Self::screen(ledger, public_inputs);
        if screened.is_err() {
            return screened;
        }
        if !valid {
            return Err(ZkGateError::InvalidZKProof);
        }
        let now: u64 = ledger.timestamp();
        let extension: Option<TtlExtension> = Some(
            TtlExtension { threshold: TTL_THRESHOLD, extend_to: TTL_EXTEND_TO },
        );
        ledger.put(
            Self::nullifier_key(&public_inputs.nullifier),
            Entry { value: Value::Used, extension },
        );
        let credential = Credential {
            verified_at: now,
            expires_at: now + CREDENTIAL_LIFETIME,
            nullifier: public_inputs.nullifier,
        };
        ledger.put(
            Self::credential_key(&public_inputs.investor_wallet),
            Entry { value: Value::Credential(credential), extension },
        );
        Ok(())
    }

    /// Tells whether a request is made for the wallet that its proof is about, and the proof is
    /// valid under the keys that are set.
    fn verdict(
        env: &soroban_sdk::Env,
        ledger: &GateLedger,
        proof: &Groth16Proof,
        public_inputs: &PublicInputs,
        investor_key: Option<[u8; 32]>,
    ) -> (valid: bool)
        requires
            admission(ledger@, public_inputs@) is Ok,
            points_are_ready(ledger@, proof@, public_inputs@, investor_key),
        ensures
            valid == request_valid(ledger@, proof@, public_inputs@, investor_key),
    {
        let own: bool = match investor_key {
            Some(key) => scan::same_bytes(key.as_slice(), public_inputs.investor_wallet.as_slice()),
            None => false,
        };
        if !own {
            return false;
        }
        match (ledger.verification_key(), ledger.program_vkey_hash()) {
            (Some(vk), Some(program_vkey)) => Self::verify_sp1_groth16(
                env,
                proof,
                public_inputs,
                vk,
                &program_vkey,
            ),
            _ => false,
        }
    }

    /// Verifies a proof, checks that it is fresh, that its nullifier was not used and that it is
    /// about the account to be authorized, whose key is given where it has one, and stores the
    /// nullifier and the credential. Where it succeeds, the account is to be authorized by the
    /// contract of the asset.
    pub fn verify_and_authorize(
        env: &soroban_sdk::Env,
        ledger: &mut GateLedger,
        proof: &Groth16Proof,
        public_inputs: &PublicInputs,
        investor_key: Option<[u8; 32]>,
    ) -> (result: Result<(), ZkGateError>)
        requires
            old(ledger).wf(),
            is_judgeable(
                old(ledger)@,
                public_inputs@,
                request_valid(old(ledger)@, proof@, public_inputs@, investor_key),
            ),
            points_are_ready(old(ledger)@, proof@, public_inputs@, investor_key),
        ensures
            final(ledger).wf(),
            match result {
                Ok(()) => outcome(
                    old(ledger)@,
                    public_inputs@,
                    request_valid(old(ledger)@, proof@, public_inputs@, investor_key),
                ) == Ok::<GateState, ZkGateError>(final(ledger)@),
                Err(error) => outcome(
                    old(ledger)@,
                    public_inputs@,
                    request_valid(old(ledger)@, proof@, public_inputs@, investor_key),
                ) == Err::<GateState, ZkGateError>(error) && final(ledger)@ == old(ledger)@,
            },
            !is_own_wallet(public_inputs@, investor_key) ==> result is Err && final(ledger)@
                == old(ledger)@,
            investor_key != Some(public_inputs.investor_wallet) ==> result is Err && final(ledger)@
                == old(ledger)@,
            result is Ok <==> {
                &&& !old(ledger)@.entries.contains_key(public_inputs.nullifier@)
                &&& old(ledger)@.now - public_inputs.timestamp <= 90 * 24 * 60 * 60
                &&& old(ledger)@.verification_key is Some
                &&& old(ledger)@.program_vkey_hash is Some
                &&& investor_key == Some(public_inputs.investor_wallet)
                &&& proof_valid(
                    proof@,
                    public_inputs@,
                    old(ledger)@.verification_key->0,
                    old(ledger)@.program_vkey_hash->0,
                )
            },
            result == Err::<(), ZkGateError>(ZkGateError::NullifierAlreadyUsed) <==> old(ledger)@.entries.contains_key(public_inputs.nullifier@),
            result == Err::<(), ZkGateError>(ZkGateError::ProofTimestampExpired) <==> {
                &&& !old(ledger)@.entries.contains_key(public_inputs.nullifier@)
                &&& old(ledger)@.now - public_inputs.timestamp > 90 * 24 * 60 * 60
            },
            result == Err::<(), ZkGateError>(ZkGateError::ContractNotInitialized) <==> {
                &&& !old(ledger)@.entries.contains_key(public_inputs.nullifier@)
                &&& old(ledger)@.now - public_inputs.timestamp <= 90 * 24 * 60 * 60
                &&& old(ledger)@.verification_key is None || old(ledger)@.program_vkey_hash is None
            },
            result == Err::<(), ZkGateError>(ZkGateError::InvalidZKProof) <==> {
                &&& !old(ledger)@.entries.contains_key(public_inputs.nullifier@)
                &&& old(ledger)@.now - public_inputs.timestamp <= 90 * 24 * 60 * 60
                &&& old(ledger)@.verification_key is Some
                &&& old(ledger)@.program_vkey_hash is Some
                &&& investor_key != Some(public_inputs.investor_wallet) || !proof_valid(
                    proof@,
                    public_inputs@,
                    old(ledger)@.verification_key->0,
                    old(ledger)@.program_vkey_hash->0,
                )
            },
            result is Err ==> final(ledger)@ == old(ledger)@,
            result is Ok ==> {
                &&& final(ledger)@.entries[public_inputs.nullifier@].extension == Some(
                    TtlExtension { threshold: 100_000, extend_to: 1_000_000 },
                )
                &&& final(ledger)@.entries[public_inputs.investor_wallet@].extension == Some(
                    TtlExtension { threshold: 100_000, extend_to: 1_000_000 },
                )
                &&& final(ledger)@.now == old(ledger)@.now
                &&& final(ledger)@.verification_key == old(ledger)@.verification_key
                &&& final(ledger)@.program_vkey_hash == old(ledger)@.program_vkey_hash
                &&& final(ledger)@.entries.contains_key(public_inputs.nullifier@)
                &&& public_inputs.nullifier@ != public_inputs.investor_wallet@ ==> final(ledger)@.entries[public_inputs.nullifier@].value is Used
                &&& final(ledger)@.entries.contains_key(public_inputs.investor_wallet@)
                &&& final(ledger)@.entries[public_inputs.investor_wallet@].value
                    == ValueModel::Credential(
                    CredentialModel {
                        verified_at: old(ledger)@.now,
                        expires_at: (old(ledger)@.now + 5 * 365 * 24 * 60 * 60) as u64,
                        nullifier: public_inputs.nullifier@,
                    },
                )
                &&& forall|key: Seq<u8>|
                    key != public_inputs.nullifier@ && key != public_inputs.investor_wallet@ ==> (
                    #[trigger] final(ledger)@.entries.contains_key(key) <==> old(ledger)@.entries.contains_key(key)) && final(ledger)@.entries[key] == old(ledger)@.entries[key]
            },
    {
        proof {
            if let Some(key) = investor_key {
                if key@ == public_inputs.investor_wallet@ {
                    assert(key =~= public_inputs.investor_wallet);
                }
            }
        }
        let screened = Self::screen(ledger, public_inputs);
        if screened.is_err() {
            return screened;
        }
        let valid: bool = Self::verdict(env, ledger, proof, public_inputs, investor_key);
        Self::settle(ledger, public_inputs, valid)
    }

    /// Carries out a request as [`ZkInvestorGate::verify_and_authorize`] does, unless it would
    /// succeed and the time at which the credential ends cannot be written down: then nothing
    /// comes of it, and nothing changes.
    pub fn try_verify_and_authorize(
        env: &soroban_sdk::Env,
        ledger: &mut GateLedger,
        proof: &Groth16Proof,
        public_inputs: &PublicInputs,
        investor_key: Option<[u8; 32]>,
    ) -> (result: Option<Result<(), ZkGateError>>)
        requires
            old(ledger).wf(),
            !old(ledger)@.entries.contains_key(public_inputs.nullifier@) ==> public_inputs.timestamp
                <= old(ledger)@.now,
            points_are_ready(old(ledger)@, proof@, public_inputs@, investor_key),
        ensures
            final(ledger).wf(),
            match result {
                Some(Ok(())) => outcome(
                    old(ledger)@,
                    public_inputs@,
                    request_valid(old(ledger)@, proof@, public_inputs@, investor_key),
                ) == Ok::<GateState, ZkGateError>(final(ledger)@),
                Some(Err(error)) => outcome(
                    old(ledger)@,
                    public_inputs@,
                    request_valid(old(ledger)@, proof@, public_inputs@, investor_key),
                ) == Err::<GateState, ZkGateError>(error) && final(ledger)@ == old(ledger)@,
                None => final(ledger)@ == old(ledger)@,
            },
            result is Some <==> is_judgeable(
                old(ledger)@,
                public_inputs@,
                request_valid(old(ledger)@, proof@, public_inputs@, investor_key),
            ),
            !is_own_wallet(public_inputs@, investor_key) ==> result is Some && result->0 is Err
                && final(ledger)@ == old(ledger)@,
    {
        if ledger.timestamp() > u64::MAX - CREDENTIAL_LIFETIME && Self::screen(
            ledger,
            public_inputs,
        ).is_ok() && Self::verdict(env, ledger, proof, public_inputs, investor_key) {
            return None;
        }
        Some(Self::verify_and_authorize(env, ledger, proof, public_inputs, investor_key))
    }

    /// Whether a wallet has a credential that has not expired. Under the wallet's key there may be
    /// no nullifier.
    pub fn is_authorized(ledger: &GateLedger, wallet: &[u8; 32]) -> (yes: bool)
        requires
            ledger.wf(),
            ledger@.entries.contains_key(wallet@) ==> ledger@.entries[wallet@].value
                is Credential,
        ensures
            yes == authorized(ledger@, wallet@),
            yes <==> ledger@.entries.contains_key(wallet@)
                && ledger@.entries[wallet@].value->Credential_0.expires_at > ledger@.now,
    {
        match ledger.get(&Self::credential_key(wallet)) {
            Some(entry) => match entry.value {
                Value::Credential(credential) => credential.expires_at > ledger.timestamp(),
                Value::Used => false,
            },
            None => false,
        }
    }
}

} // verus!
