//! What holds of the investor gate over any number of calls.
use vstd::prelude::*;

use crate::bn254;
use crate::gate;
use crate::gate::ZkGateError;
use crate::ledger::{
    Credential, CredentialModel, Entry, EntryModel, GateState, Groth16Proof, Groth16ProofModel,
    PublicInputs, PublicInputsModel, TtlExtension, Value, ValueModel, VerificationKey,
    VerificationKeyModel,
};

verus! {

/// What can happen to the investor gate.
pub enum GateCall {
    /// The keys are set.
    Initialize { vk: VerificationKeyModel, program_vkey_hash: Seq<u8> },
    /// A request is made, for the wallet that its proof is about and with a valid proof, or not.
    Request { inputs: PublicInputsModel, valid: bool },
    /// Time goes on.
    Tick { now: u64 },
}

/// The state after a call. A request that is refused leaves it as it was.
pub open spec fn after_call(state: GateState, call: GateCall) -> GateState {
    match call {
        GateCall::Initialize { vk, program_vkey_hash } => GateState {
            verification_key: Some(vk),
            program_vkey_hash: Some(program_vkey_hash),
            ..state
        },
        GateCall::Request { inputs, valid } => match gate::outcome(state, inputs, valid) {
            Ok(next) => next,
            Err(_) => state,
        },
        GateCall::Tick { now } => GateState { now, ..state },
    }
}

/// The state after some calls.
pub open spec fn after_calls(state: GateState, calls: Seq<GateCall>) -> GateState
    decreases calls.len(),
{
    if calls.len() == 0 {
        state
    } else {
        after_call(after_calls(state, calls.drop_last()), calls.last())
    }
}

/// The request at place `i` of some calls succeeds.
pub open spec fn succeeds(state: GateState, calls: Seq<GateCall>, i: int) -> bool {
    &&& 0 <= i < calls.len()
    &&& calls[i] matches GateCall::Request { inputs, valid }
    &&& gate::outcome(after_calls(state, calls.take(i)), inputs, valid) is Ok
}

proof fn lemma_take_last(state: GateState, calls: Seq<GateCall>, i: int)
    requires
        0 <= i < calls.len(),
    ensures
        after_calls(state, calls.take(i + 1)) == after_call(
            after_calls(state, calls.take(i)),
            calls[i],
        ),
{
    assert(calls.take(i + 1).drop_last() =~= calls.take(i));
}

/// Nothing is ever removed from storage.
pub proof fn law_entries_stay(state: GateState, calls: Seq<GateCall>, key: Seq<u8>)
    requires
        state.entries.contains_key(key),
    ensures
        after_calls(state, calls).entries.contains_key(key),
    decreases calls.len(),
{
    if calls.len() > 0 {
        law_entries_stay(state, calls.drop_last(), key);
    }
}

/// A nullifier that was used is refused ever after, whatever happens in between and whatever the
/// later request brings.
pub proof fn law_replay_is_refused(
    state: GateState,
    inputs: PublicInputsModel,
    calls: Seq<GateCall>,
    replay: PublicInputsModel,
    valid: bool,
)
    requires
        gate::outcome(state, inputs, true) is Ok,
        replay.nullifier == inputs.nullifier,
    ensures
        gate::outcome(
            after_calls(after_call(state, GateCall::Request { inputs, valid: true }), calls),
            replay,
            valid,
        ) == Err::<GateState, ZkGateError>(ZkGateError::NullifierAlreadyUsed),
{
    let passed = after_call(state, GateCall::Request { inputs, valid: true });
    assert(passed.entries.contains_key(inputs.nullifier));
    law_entries_stay(passed, calls, inputs.nullifier);
}

/// No two requests that succeed bring the same nullifier.
pub proof fn law_nullifier_serves_once(state: GateState, calls: Seq<GateCall>, i: int, j: int)
    requires
        succeeds(state, calls, i),
        succeeds(state, calls, j),
        i < j,
    ensures
        calls[i]->inputs.nullifier != calls[j]->inputs.nullifier,
    decreases calls.len(),
{
    let inputs = calls[i]->inputs;
    lemma_take_last(state, calls, i);
    let passed = after_calls(state, calls.take(i + 1));
    assert(passed.entries.contains_key(inputs.nullifier));
    lemma_split(state, calls.take(j), i + 1);
    assert(calls.take(j).take(i + 1) =~= calls.take(i + 1));
    law_entries_stay(passed, calls.take(j).skip(i + 1), inputs.nullifier);
}

proof fn lemma_split(state: GateState, calls: Seq<GateCall>, n: int)
    requires
        0 <= n <= calls.len(),
    ensures
        after_calls(state, calls) == after_calls(after_calls(state, calls.take(n)), calls.skip(n)),
    decreases calls.len(),
{
    if n == calls.len() {
        assert(calls.take(n) =~= calls);
        assert(calls.skip(n).len() == 0);
    } else {
        lemma_split(state, calls.drop_last(), n);
        assert(calls.drop_last().take(n) =~= calls.take(n));
        assert(calls.drop_last().skip(n) =~= calls.skip(n).drop_last());
    }
}

/// A request that is refused changes nothing.
pub proof fn law_refusal_changes_nothing(state: GateState, inputs: PublicInputsModel, valid: bool)
    requires
        gate::outcome(state, inputs, valid) is Err,
    ensures
        after_call(state, GateCall::Request { inputs, valid }) == state,
{
}

/// Without a valid proof nobody passes.
pub proof fn law_invalid_proof_is_refused(state: GateState, inputs: PublicInputsModel)
    ensures
        gate::outcome(state, inputs, false) is Err,
        gate::admission(state, inputs) is Ok ==> gate::outcome(state, inputs, false) == Err::<
            GateState,
            ZkGateError,
        >(ZkGateError::InvalidZKProof),
{
}

/// A proof for one wallet gets no other account authorized: a request for an account that has
/// another key than the wallet, or none, is refused, whatever its proof, and changes nothing.
pub proof fn law_other_account_is_refused(
    state: GateState,
    proof: Groth16ProofModel,
    inputs: PublicInputsModel,
    investor_key: Option<[u8; 32]>,
)
    requires
        !gate::is_own_wallet(inputs, investor_key),
    ensures
        ({
            let valid = gate::request_valid(state, proof, inputs, investor_key);
            &&& gate::outcome(state, inputs, valid) is Err
            &&& after_call(state, GateCall::Request { inputs, valid }) == state
        }),
{
}

/// A proof is taken up to and including ninety days after the time that it is about, and not
/// later: with the nullifier unused, the keys set and the proof valid, the age alone decides.
pub proof fn law_ninety_days(state: GateState, inputs: PublicInputsModel)
    requires
        !state.entries.contains_key(inputs.nullifier),
        state.verification_key is Some,
        state.program_vkey_hash is Some,
    ensures
        gate::outcome(state, inputs, true) is Ok <==> state.now - inputs.timestamp <= 90 * 24 * 60 * 60,
        state.now - inputs.timestamp > 90 * 24 * 60 * 60 ==> gate::outcome(state, inputs, true)
            == Err::<GateState, ZkGateError>(ZkGateError::ProofTimestampExpired),
{
}

/// No request for the wallet succeeds among the calls.
pub open spec fn leaves_alone(state: GateState, calls: Seq<GateCall>, wallet: Seq<u8>) -> bool {
    forall|i: int| #[trigger]
        succeeds(state, calls, i) ==> calls[i]->inputs.investor_wallet != wallet
}

/// What is stored for a wallet stays as long as no other request for the wallet succeeds.
pub proof fn law_wallet_left_alone(state: GateState, calls: Seq<GateCall>, wallet: Seq<u8>)
    requires
        state.entries.contains_key(wallet),
        leaves_alone(state, calls, wallet),
    ensures
        after_calls(state, calls).entries.contains_key(wallet),
        after_calls(state, calls).entries[wallet] == state.entries[wallet],
    decreases calls.len(),
{
    if calls.len() > 0 {
        let before = calls.drop_last();
        let last = calls.len() - 1;
        assert(leaves_alone(state, before, wallet)) by {
            assert forall|i: int| #[trigger] succeeds(state, before, i) implies before[i]->inputs.investor_wallet
                != wallet by {
                assert(before.take(i) =~= calls.take(i));
                assert(succeeds(state, calls, i));
            }
        }
        law_wallet_left_alone(state, before, wallet);
        assert(before =~= calls.take(last));
        if succeeds(state, calls, last) {
            assert(calls[last]->inputs.investor_wallet != wallet);
            assert(calls[last]->inputs.nullifier != wallet);
        }
    }
}

/// Whoever passes is authorized for five years to the second, whatever happens in between, as long
/// as no other request for the wallet succeeds.
pub proof fn law_five_years(state: GateState, inputs: PublicInputsModel, calls: Seq<GateCall>)
    requires
        gate::outcome(state, inputs, true) is Ok,
        state.now + gate::CREDENTIAL_LIFETIME <= u64::MAX,
        leaves_alone(
            after_call(state, GateCall::Request { inputs, valid: true }),
            calls,
            inputs.investor_wallet,
        ),
    ensures
        ({
            let after = after_calls(
                after_call(state, GateCall::Request { inputs, valid: true }),
                calls,
            );
            gate::authorized(after, inputs.investor_wallet) <==> after.now < state.now + 5 * 365
                * 24 * 60 * 60
        }),
{
    let passed = after_call(state, GateCall::Request { inputs, valid: true });
    law_wallet_left_alone(passed, calls, inputs.investor_wallet);
}

/// A request touches no key but its nullifier and its wallet.
pub proof fn law_other_keys_stay(state: GateState, inputs: PublicInputsModel, valid: bool, key: Seq<u8>)
    requires
        key != inputs.nullifier,
        key != inputs.investor_wallet,
    ensures
        ({
            let after = after_call(state, GateCall::Request { inputs, valid });
            &&& after.entries.contains_key(key) == state.entries.contains_key(key)
            &&& after.entries[key] == state.entries[key]
            &&& gate::authorized(after, key) == gate::authorized(state, key)
        }),
{
}

/// Setting the keys again replaces them and leaves the storage alone.
pub proof fn law_last_keys_count(
    state: GateState,
    first: VerificationKeyModel,
    first_hash: Seq<u8>,
    second: VerificationKeyModel,
    second_hash: Seq<u8>,
)
    ensures
        ({
            let once = after_call(
                state,
                GateCall::Initialize { vk: first, program_vkey_hash: first_hash },
            );
            let twice = after_call(
                once,
                GateCall::Initialize { vk: second, program_vkey_hash: second_hash },
            );
            &&& twice == after_call(
                state,
                GateCall::Initialize { vk: second, program_vkey_hash: second_hash },
            )
            &&& twice.entries == state.entries
        }),
{
}

/// Nothing is stored at all.
pub open spec fn is_fresh(state: GateState) -> bool {
    state.entries == Map::<Seq<u8>, EntryModel>::empty()
}

/// The credential that some calls have left under a wallet was made by one of the requests that
/// succeeded: it bears that request's nullifier and the time at which it was made.
pub proof fn law_credential_has_a_request(state: GateState, calls: Seq<GateCall>, wallet: Seq<u8>) -> (i: int)
    requires
        is_fresh(state),
        after_calls(state, calls).entries.contains_key(wallet),
        after_calls(state, calls).entries[wallet].value is Credential,
    ensures
        succeeds(state, calls, i),
        calls[i]->inputs.investor_wallet == wallet,
        after_calls(state, calls).entries[wallet].value->Credential_0 == gate::new_credential(
            after_calls(state, calls.take(i)).now,
            calls[i]->inputs,
        ),
    decreases calls.len(),
{
    assert(calls.len() > 0);
    let n = calls.len() - 1;
    let before = after_calls(state, calls.drop_last());
    assert(calls.drop_last() =~= calls.take(n));
    if succeeds(state, calls, n) && calls[n]->inputs.investor_wallet == wallet {
        n
    } else {
        assert(before.entries.contains_key(wallet) && before.entries[wallet]
            == after_calls(state, calls).entries[wallet]) by {
            if succeeds(state, calls, n) && calls[n]->inputs.nullifier == wallet {
                assert(after_calls(state, calls).entries[wallet].value is Used);
            }
        }
        let i = law_credential_has_a_request(state, calls.drop_last(), wallet);
        assert(calls.drop_last().take(i) =~= calls.take(i));
        i
    }
}

/// Whoever is authorized was admitted: one of the requests that succeeded, made less than
/// five years ago, brought the wallet.
pub proof fn law_authorized_only_by_proof(state: GateState, calls: Seq<GateCall>, wallet: Seq<u8>) -> (i: int)
    requires
        is_fresh(state),
        gate::authorized(after_calls(state, calls), wallet),
        forall|k: int|
            0 <= k <= calls.len() ==> (#[trigger] after_calls(state, calls.take(k))).now
                + gate::CREDENTIAL_LIFETIME <= u64::MAX,
    ensures
        succeeds(state, calls, i),
        calls[i]->inputs.investor_wallet == wallet,
        calls[i]->valid,
        after_calls(state, calls).now < after_calls(state, calls.take(i)).now + 5 * 365 * 24 * 60
            * 60,
{
    let i = law_credential_has_a_request(state, calls, wallet);
    assert(after_calls(state, calls.take(i)).now + gate::CREDENTIAL_LIFETIME <= u64::MAX);
    i
}

/// Both entries that a request leaves behind are given the extension of their life.
pub proof fn law_entries_are_extended(state: GateState, inputs: PublicInputsModel)
    requires
        gate::outcome(state, inputs, true) is Ok,
    ensures
        ({
            let after = after_call(state, GateCall::Request { inputs, valid: true });
            &&& after.entries[inputs.nullifier].extension == gate::standard_extension()
            &&& after.entries[inputs.investor_wallet].extension == gate::standard_extension()
        }),
{
}

/// What is committed to tells the wallet, the nullifier and the time.
pub proof fn law_commitment_is_injective(a: PublicInputsModel, b: PublicInputsModel)
    requires
        a.investor_wallet.len() == 32,
        a.nullifier.len() == 32,
        b.investor_wallet.len() == 32,
        b.nullifier.len() == 32,
        gate::committed_bytes(a) == gate::committed_bytes(b),
    ensures
        a.investor_wallet == b.investor_wallet,
        a.nullifier == b.nullifier,
        a.timestamp == b.timestamp,
{
    let bytes = gate::committed_bytes(a);
    assert(a.investor_wallet =~= bytes.subrange(0, 32));
    assert(b.investor_wallet =~= bytes.subrange(0, 32));
    assert(a.nullifier =~= bytes.subrange(32, 64));
    assert(b.nullifier =~= bytes.subrange(32, 64));
    assert(gate::be_bytes(a.timestamp) =~= bytes.subrange(64, 72));
    assert(gate::be_bytes(b.timestamp) =~= bytes.subrange(64, 72));
    lemma_be_bytes(a.timestamp);
    lemma_be_bytes(b.timestamp);
}

proof fn lemma_be_bytes(n: u64)
    ensures
        n == ((((((gate::be_bytes(n)[0] * 256 + gate::be_bytes(n)[1]) * 256 + gate::be_bytes(n)[2])
            * 256 + gate::be_bytes(n)[3]) * 256 + gate::be_bytes(n)[4]) * 256 + gate::be_bytes(
            n,
        )[5]) * 256 + gate::be_bytes(n)[6]) * 256 + gate::be_bytes(n)[7],
{
    assert(n / 0x1_0000_0000_0000 == n / 0x100_0000_0000_0000 * 256 + n / 0x1_0000_0000_0000 % 256);
    assert(n / 0x100_0000_0000 == n / 0x1_0000_0000_0000 * 256 + n / 0x100_0000_0000 % 256);
    assert(n / 0x1_0000_0000 == n / 0x100_0000_0000 * 256 + n / 0x1_0000_0000 % 256);
    assert(n / 0x100_0000 == n / 0x1_0000_0000 * 256 + n / 0x100_0000 % 256);
    assert(n / 0x1_0000 == n / 0x100_0000 * 256 + n / 0x1_0000 % 256);
    assert(n / 0x100 == n / 0x1_0000 * 256 + n / 0x100 % 256);
}

spec fn power_of_256(n: nat) -> nat
    decreases n,
{
    if n == 0 {
        1
    } else {
        256 * power_of_256((n - 1) as nat)
    }
}

proof fn lemma_value_below(bytes: Seq<u8>)
    requires
        bytes.len() > 0,
    ensures
        bn254::be_value(bytes) < (bytes[0] + 1) * power_of_256((bytes.len() - 1) as nat),
    decreases bytes.len(),
{
    let first = bytes[0] + 1;
    if bytes.len() == 1 {
        assert(bn254::be_value(bytes.drop_last()) == 0);
        assert(power_of_256(0) == 1);
        assert(first * power_of_256(0) == first) by (nonlinear_arith)
            requires
                power_of_256(0) == 1,
        ;
    } else {
        lemma_value_below(bytes.drop_last());
        assert(bytes.drop_last()[0] == bytes[0]);
        let power = power_of_256((bytes.len() - 2) as nat);
        assert(power_of_256((bytes.len() - 1) as nat) == 256 * power);
        assert(first * (256 * power) == 256 * (first * power)) by (nonlinear_arith);
    }
}

/// The public signals of a proof are below the order of the group, so that the curve takes them as
/// they are.
pub proof fn law_signals_are_canonical(program_vkey: Seq<u8>, digest: Seq<u8>)
    requires
        program_vkey.len() == 32,
        digest.len() == 32,
    ensures
        bn254::be_value(gate::vkey_signal(program_vkey)) < bn254::group_order(),
        bn254::be_value(gate::digest_signal(digest)) < bn254::group_order(),
{
    lemma_value_below(gate::vkey_signal(program_vkey));
    lemma_value_below(gate::digest_signal(digest));
    reveal_with_fuel(power_of_256, 32);
    let power = power_of_256(31);
    let first = gate::digest_signal(digest)[0];
    assert(gate::vkey_signal(program_vkey)[0] == 0);
    assert((0 + 1) * power == power);
    assert((first + 1) * power <= 32 * power) by (nonlinear_arith)
        requires
            first < 32,
            power >= 0,
    ;
    assert(32 * power < bn254::group_order());
}

/// The verdict on a Groth16 proof is that of the equation between the exponents. Where `log1` and
/// `log2` give the discrete logarithms of the points of the two groups, so that sums, products and
/// negations of points are those of their logarithms, and the product of four pairings is one just
/// where the products of the logarithms add up to zero, a proof is valid just where
/// `a * b == alpha * beta + (ic0 + ic1 * s0 + ic2 * s1) * gamma + c * delta` in the exponents, with
/// `s0` and `s1` the two signals.
pub proof fn law_groth16_equation(
    log1: spec_fn(Seq<u8>) -> int,
    log2: spec_fn(Seq<u8>) -> int,
    proof: Groth16ProofModel,
    inputs: PublicInputsModel,
    vk: VerificationKeyModel,
    program_vkey: Seq<u8>,
)
    requires
        forall|p: Seq<u8>, q: Seq<u8>|
            bn254::is_g1_point(p) && bn254::is_g1_point(q) ==> bn254::is_g1_point(
                #[trigger] bn254::g1_sum(p, q),
            ) && (log1(bn254::g1_sum(p, q)) - log1(p) - log1(q)) % (bn254::group_order() as int)
                == 0,
        forall|p: Seq<u8>, s: Seq<u8>|
            bn254::is_g1_point(p) && s.len() == 32 ==> bn254::is_g1_point(
                #[trigger] bn254::g1_product(p, s),
            ) && (log1(bn254::g1_product(p, s)) - bn254::be_value(s) * log1(p)) % (
            bn254::group_order() as int) == 0,
        forall|p: Seq<u8>|
            bn254::is_g1_point(p) ==> bn254::is_g1_point(#[trigger] bn254::g1_negated(p)) && (log1(
                bn254::g1_negated(p),
            ) + log1(p)) % (bn254::group_order() as int) == 0,
        forall|g1: Seq<Seq<u8>>, g2: Seq<Seq<u8>>|
            g1.len() == 4 && g2.len() == 4 && bn254::is_g1_point(g1[0]) && bn254::is_g1_point(g1[1])
                && bn254::is_g1_point(g1[2]) && bn254::is_g1_point(g1[3]) && bn254::is_g2_point(
                g2[0],
            ) && bn254::is_g2_point(g2[1]) && bn254::is_g2_point(g2[2]) && bn254::is_g2_point(g2[3])
                ==> (#[trigger] bn254::pairings_cancel(g1, g2) <==> (log1(g1[0]) * log2(g2[0])
                + log1(g1[1]) * log2(g2[1]) + log1(g1[2]) * log2(g2[2]) + log1(g1[3]) * log2(g2[3]))
                % (bn254::group_order() as int) == 0),
        bn254::is_g1_point(proof.a),
        bn254::is_g2_point(proof.b),
        bn254::is_g1_point(proof.c),
        bn254::is_g1_point(vk.alpha),
        bn254::is_g2_point(vk.beta),
        bn254::is_g2_point(vk.gamma),
        bn254::is_g2_point(vk.delta),
        forall|i: int| 0 <= i < vk.ic.len() ==> bn254::is_g1_point(#[trigger] vk.ic[i]),
        program_vkey.len() == 32,
        bn254::host_sha256(
            inputs.investor_wallet + inputs.nullifier + gate::be_bytes(inputs.timestamp),
        ).len() == 32,
    ensures
        vk.ic.len() != 3 ==> !gate::proof_valid(proof, inputs, vk, program_vkey),
        vk.ic.len() == 3 ==> ({
            let digest = bn254::host_sha256(
                inputs.investor_wallet + inputs.nullifier + gate::be_bytes(inputs.timestamp),
            );
            let s0 = bn254::be_value(seq![0u8] + program_vkey.skip(1)) as int;
            let s1 = bn254::be_value(seq![(digest[0] % 32) as u8] + digest.skip(1)) as int;
            gate::proof_valid(proof, inputs, vk, program_vkey) <==> (log1(proof.a) * log2(proof.b)
                - log1(vk.alpha) * log2(vk.beta) - (log1(vk.ic[0]) + log1(vk.ic[1]) * s0 + log1(
                vk.ic[2],
            ) * s1) * log2(vk.gamma) - log1(proof.c) * log2(vk.delta)) % (
            bn254::group_order() as int) == 0
        }),
{
    if vk.ic.len() == 3 {
        let r = bn254::group_order() as int;
        let digest = bn254::host_sha256(
            inputs.investor_wallet + inputs.nullifier + gate::be_bytes(inputs.timestamp),
        );
        let signals = gate::public_signals(inputs, program_vkey);
        assert(signals[0] =~= seq![0u8] + program_vkey.skip(1));
        assert(signals[1] =~= seq![(digest[0] % 32) as u8] + digest.skip(1));
        let s0 = bn254::be_value(signals[0]) as int;
        let s1 = bn254::be_value(signals[1]) as int;
        let first = bn254::g1_product(vk.ic[1], signals[0]);
        let partial = bn254::g1_sum(vk.ic[0], first);
        let second = bn254::g1_product(vk.ic[2], signals[1]);
        let x = bn254::g1_sum(partial, second);
        reveal_with_fuel(gate::combination, 3);
        assert(gate::combination(vk.ic, signals, 2) == x);
        let negated = bn254::g1_negated(proof.a);
        assert(bn254::pairings_cancel(
            seq![negated, vk.alpha, x, proof.c],
            seq![proof.b, vk.beta, vk.gamma, vk.delta],
        ) == gate::proof_valid(proof, inputs, vk, program_vkey));
        let target = log1(vk.ic[0]) + log1(vk.ic[1]) * s0 + log1(vk.ic[2]) * s1;
        let k1 = (log1(first) - s0 * log1(vk.ic[1])) / r;
        let k2 = (log1(partial) - log1(vk.ic[0]) - log1(first)) / r;
        let k3 = (log1(second) - s1 * log1(vk.ic[2])) / r;
        let k4 = (log1(x) - log1(partial) - log1(second)) / r;
        let k5 = (log1(negated) + log1(proof.a)) / r;
        vstd::arithmetic::div_mod::lemma_fundamental_div_mod(log1(first) - s0 * log1(vk.ic[1]), r);
        vstd::arithmetic::div_mod::lemma_fundamental_div_mod(
            log1(partial) - log1(vk.ic[0]) - log1(first),
            r,
        );
        vstd::arithmetic::div_mod::lemma_fundamental_div_mod(log1(second) - s1 * log1(vk.ic[2]), r);
        vstd::arithmetic::div_mod::lemma_fundamental_div_mod(
            log1(x) - log1(partial) - log1(second),
            r,
        );
        vstd::arithmetic::div_mod::lemma_fundamental_div_mod(log1(negated) + log1(proof.a), r);
        let k = k1 + k2 + k3 + k4;
        assert(log1(x) == target + r * k) by (nonlinear_arith)
            requires
                target == log1(vk.ic[0]) + log1(vk.ic[1]) * s0 + log1(vk.ic[2]) * s1,
                log1(first) - s0 * log1(vk.ic[1]) == r * k1,
                log1(partial) - log1(vk.ic[0]) - log1(first) == r * k2,
                log1(second) - s1 * log1(vk.ic[2]) == r * k3,
                log1(x) - log1(partial) - log1(second) == r * k4,
                k == k1 + k2 + k3 + k4,
        ;
        lemma_equation(
            r,
            log1(proof.a),
            log2(proof.b),
            log1(negated),
            k5,
            log1(vk.alpha) * log2(vk.beta),
            target,
            log1(x),
            k,
            log2(vk.gamma),
            log1(proof.c) * log2(vk.delta),
        );
    }
}

proof fn lemma_equation(
    r: int,
    a: int,
    b: int,
    negated: int,
    k5: int,
    alpha_beta: int,
    target: int,
    x: int,
    k: int,
    gamma: int,
    c_delta: int,
)
    requires
        r > 0,
        negated + a == r * k5,
        x == target + r * k,
    ensures
        (negated * b + alpha_beta + x * gamma + c_delta) % r == 0 <==> (a * b - alpha_beta - target
            * gamma - c_delta) % r == 0,
{
    let left = negated * b + alpha_beta + x * gamma + c_delta;
    let right = a * b - alpha_beta - target * gamma - c_delta;
    let m = k5 * b + k * gamma;
    assert(left + right == r * m) by (nonlinear_arith)
        requires
            left == negated * b + alpha_beta + x * gamma + c_delta,
            right == a * b - alpha_beta - target * gamma - c_delta,
            negated == r * k5 - a,
            x == target + r * k,
            m == k5 * b + k * gamma,
    ;
    if left % r == 0 {
        vstd::arithmetic::div_mod::lemma_fundamental_div_mod(left, r);
        let n = m - left / r;
        assert(right == r * n) by (nonlinear_arith)
            requires
                left + right == r * m,
                left == r * (left / r),
                n == m - left / r,
        ;
        vstd::arithmetic::div_mod::lemma_mod_multiples_basic(n, r);
        assert(r * n == n * r) by (nonlinear_arith);
    }
    if right % r == 0 {
        vstd::arithmetic::div_mod::lemma_fundamental_div_mod(right, r);
        let n = m - right / r;
        assert(left == r * n) by (nonlinear_arith)
            requires
                left + right == r * m,
                right == r * (right / r),
                n == m - right / r,
        ;
        vstd::arithmetic::div_mod::lemma_mod_multiples_basic(n, r);
        assert(r * n == n * r) by (nonlinear_arith);
    }
}

/// Bytes are read as a number with the most significant first: one byte stands for itself, and what
/// stands before some bytes counts 256 times for each of them.
pub proof fn law_bytes_are_big_endian(high: Seq<u8>, low: Seq<u8>, byte: u8)
    ensures
        bn254::be_value(seq![byte]) == byte,
        bn254::be_value(high + low) == bn254::be_value(high) * vstd::arithmetic::power::pow(
            256,
            low.len(),
        ) + bn254::be_value(low),
    decreases low.len(),
{
    assert(seq![byte].drop_last() =~= seq![]);
    reveal_with_fuel(bn254::be_value, 2);
    let power = vstd::arithmetic::power::pow(256, low.len());
    reveal(vstd::arithmetic::power::pow);
    if low.len() == 0 {
        assert(high + low =~= high);
    } else {
        let rest = low.drop_last();
        law_bytes_are_big_endian(high, rest, byte);
        assert((high + low).drop_last() =~= high + rest);
        let smaller = vstd::arithmetic::power::pow(256, rest.len());
        assert(power == 256 * smaller);
        let h = bn254::be_value(high) as int;
        assert((h * smaller) * 256 == h * (256 * smaller)) by (nonlinear_arith);
    }
}

/// The eight bytes of a number stand for it.
pub proof fn law_number_is_read_back(n: u64)
    ensures
        gate::be_bytes(n).len() == 8,
        bn254::be_value(gate::be_bytes(n)) == n,
{
    lemma_be_bytes(n);
    let s = gate::be_bytes(n);
    reveal_with_fuel(bn254::be_value, 9);
    assert(s.drop_last().drop_last().drop_last().drop_last().drop_last().drop_last().drop_last().drop_last().len()
        == 0);
}

/// A value in the contract's state holds the fields of what is stored, each under its own name.
pub proof fn law_models_hold_the_fields(
    proof: Groth16Proof,
    inputs: PublicInputs,
    vk: VerificationKey,
    credential: Credential,
    entry: Entry,
)
    ensures
        proof@.a == proof.a@,
        proof@.b == proof.b@,
        proof@.c == proof.c@,
        inputs@.investor_wallet == inputs.investor_wallet@,
        inputs@.nullifier == inputs.nullifier@,
        inputs@.timestamp == inputs.timestamp,
        vk@.alpha == vk.alpha@,
        vk@.beta == vk.beta@,
        vk@.gamma == vk.gamma@,
        vk@.delta == vk.delta@,
        vk@.ic.len() == vk.ic@.len(),
        forall|i: int| 0 <= i < vk.ic@.len() ==> #[trigger] vk@.ic[i] == vk.ic@[i]@,
        credential@.verified_at == credential.verified_at,
        credential@.expires_at == credential.expires_at,
        credential@.nullifier == credential.nullifier@,
        entry@.extension == entry.extension,
        entry.value is Used <==> entry@.value is Used,
        entry.value matches Value::Credential(c) ==> entry@.value == ValueModel::Credential(c@),
{
}

/// A request can be judged where its nullifier was used, or where it is not about the future and,
/// in case it succeeds, five years from now can be written down; and the points matter only where
/// the proof is looked at.
pub proof fn law_ordinary_requests_can_be_judged(
    state: GateState,
    proof: Groth16ProofModel,
    inputs: PublicInputsModel,
    investor_key: Option<[u8; 32]>,
    valid: bool,
)
    ensures
        state.entries.contains_key(inputs.nullifier) ==> gate::is_judgeable(state, inputs, valid),
        inputs.timestamp <= state.now && state.now + 5 * 365 * 24 * 60 * 60 <= u64::MAX
            ==> gate::is_judgeable(state, inputs, valid),
        inputs.timestamp <= state.now && !valid ==> gate::is_judgeable(state, inputs, valid),
        state.entries.contains_key(inputs.nullifier) ==> gate::points_are_ready(
            state,
            proof,
            inputs,
            investor_key,
        ),
        investor_key is None ==> gate::points_are_ready(state, proof, inputs, investor_key),
        state.verification_key is None ==> gate::points_are_ready(
            state,
            proof,
            inputs,
            investor_key,
        ),
        ({
            let vk = state.verification_key->0;
            &&& bn254::is_g1_point(proof.a)
            &&& bn254::is_g2_point(proof.b)
            &&& bn254::is_g1_point(proof.c)
            &&& bn254::is_g1_point(vk.alpha)
            &&& bn254::is_g2_point(vk.beta)
            &&& bn254::is_g2_point(vk.gamma)
            &&& bn254::is_g2_point(vk.delta)
            &&& forall|i: int| 0 <= i < vk.ic.len() ==> bn254::is_g1_point(#[trigger] vk.ic[i])
        }) ==> gate::points_are_ready(state, proof, inputs, investor_key),
{
}

/// A request is refused for the first of these reasons: its nullifier was used, it is more than
/// ninety days old, a key is missing, or it is not valid; with none of them it succeeds.
pub proof fn law_reasons_come_in_order(state: GateState, inputs: PublicInputsModel, valid: bool)
    ensures
        ({
            let used = state.entries.contains_key(inputs.nullifier);
            let old = state.now - inputs.timestamp > 90 * 24 * 60 * 60;
            let unset = state.verification_key is None || state.program_vkey_hash is None;
            let outcome = gate::outcome(state, inputs, valid);
            &&& outcome == Err::<GateState, ZkGateError>(ZkGateError::NullifierAlreadyUsed) <==> used
            &&& outcome == Err::<GateState, ZkGateError>(ZkGateError::ProofTimestampExpired)
                <==> !used && old
            &&& outcome == Err::<GateState, ZkGateError>(ZkGateError::ContractNotInitialized)
                <==> !used && !old && unset
            &&& outcome == Err::<GateState, ZkGateError>(ZkGateError::InvalidZKProof) <==> !used
                && !old && !unset && !valid
            &&& outcome is Ok <==> !used && !old && !unset && valid
            &&& gate::admission(state, inputs) is Ok <==> !used && !old && !unset
        }),
{
}

/// The account that a request is for is that of the wallet just where it has a key and every byte of
/// the key is that of the wallet.
pub proof fn law_own_wallet_is_the_key(inputs: PublicInputs, investor_key: Option<[u8; 32]>)
    ensures
        gate::is_own_wallet(inputs@, investor_key) <==> investor_key == Some(inputs.investor_wallet),
        gate::is_own_wallet(inputs@, investor_key) <==> investor_key is Some && forall|i: int|
            0 <= i < 32 ==> #[trigger] investor_key->0@[i] == inputs.investor_wallet@[i],
{
    if let Some(key) = investor_key {
        if forall|i: int| 0 <= i < 32 ==> #[trigger] key@[i] == inputs.investor_wallet@[i] {
            assert(key@ =~= inputs.investor_wallet@);
        }
        if key@ == inputs.investor_wallet@ {
            assert(key =~= inputs.investor_wallet);
        }
    }
}

/// A request for the wallet's own account with a proof that is valid, a nullifier that was not used,
/// a time not more than ninety days back and the keys set succeeds: the nullifier is used from then
/// on, and the wallet is authorized for five years.
pub proof fn law_own_valid_request_succeeds(
    state: GateState,
    proof: Groth16Proof,
    inputs: PublicInputs,
)
    requires
        !state.entries.contains_key(inputs.nullifier@),
        state.now - inputs.timestamp <= 90 * 24 * 60 * 60,
        state.now + 5 * 365 * 24 * 60 * 60 <= u64::MAX,
        state.verification_key is Some,
        state.program_vkey_hash is Some,
        gate::proof_valid(
            proof@,
            inputs@,
            state.verification_key->0,
            state.program_vkey_hash->0,
        ),
    ensures
        ({
            let valid = gate::request_valid(
                state,
                proof@,
                inputs@,
                Some(inputs.investor_wallet),
            );
            let after = after_call(state, GateCall::Request { inputs: inputs@, valid });
            &&& valid
            &&& gate::outcome(state, inputs@, valid) == Ok::<GateState, ZkGateError>(after)
            &&& after.entries.contains_key(inputs.nullifier@)
            &&& after.now == state.now
            &&& inputs.nullifier@ != inputs.investor_wallet@
                ==> after.entries[inputs.nullifier@].value is Used
            &&& after.entries[inputs.investor_wallet@].value == ValueModel::Credential(
                CredentialModel {
                    verified_at: state.now,
                    expires_at: (state.now + 5 * 365 * 24 * 60 * 60) as u64,
                    nullifier: inputs.nullifier@,
                },
            )
            &&& after.entries[inputs.nullifier@].extension == Some(
                TtlExtension { threshold: 100_000, extend_to: 1_000_000 },
            )
            &&& after.entries[inputs.investor_wallet@].extension == Some(
                TtlExtension { threshold: 100_000, extend_to: 1_000_000 },
            )
            &&& gate::authorized(after, inputs.investor_wallet@)
        }),
{
}

/// A wallet is authorized just where a credential is stored under it that ends after now.
pub proof fn law_authorization_ends_with_the_credential(state: GateState, wallet: Seq<u8>)
    ensures
        gate::authorized(state, wallet) <==> {
            &&& state.entries.contains_key(wallet)
            &&& state.entries[wallet].value is Credential
            &&& state.now < state.entries[wallet].value->Credential_0.expires_at
        },
{
}

/// The signals are the program's hash with its first byte cleared, and the digest of the wallet, the
/// nullifier and the time with the three top bits of its first byte cleared.
pub proof fn law_signals_name_the_program_and_the_values(
    inputs: PublicInputsModel,
    program_vkey: Seq<u8>,
)
    requires
        program_vkey.len() == 32,
        bn254::host_sha256(
            inputs.investor_wallet + inputs.nullifier + gate::be_bytes(inputs.timestamp),
        ).len() == 32,
    ensures
        ({
            let digest = bn254::host_sha256(
                inputs.investor_wallet + inputs.nullifier + gate::be_bytes(inputs.timestamp),
            );
            let signals = gate::public_signals(inputs, program_vkey);
            &&& signals.len() == 2
            &&& signals[0].len() == 32
            &&& signals[0][0] == 0
            &&& forall|i: int| 1 <= i < 32 ==> #[trigger] signals[0][i] == program_vkey[i]
            &&& signals[1].len() == 32
            &&& signals[1][0] == digest[0] % 32
            &&& forall|i: int| 1 <= i < 32 ==> #[trigger] signals[1][i] == digest[i]
        }),
{
}

} // verus!
