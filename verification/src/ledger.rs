//! The state of the contract: the time of the ledger, the keys that proofs are verified with, and the
//! entries in persistent storage.
use vstd::prelude::*;

use crate::bn254;
use crate::scan;

verus! {

/// A Groth16 proof: points of the curve BN254 in uncompressed form.
#[derive(Clone, Copy, Debug)]
pub struct Groth16Proof {
    pub a: [u8; 64],
    pub b: [u8; 128],
    pub c: [u8; 64],
}

/// A Groth16 proof as a mathematical value.
pub struct Groth16ProofModel {
    pub a: Seq<u8>,
    pub b: Seq<u8>,
    pub c: Seq<u8>,
}

impl View for Groth16Proof {
    type V = Groth16ProofModel;

    open spec fn view(&self) -> Groth16ProofModel {
        Groth16ProofModel { a: self.a@, b: self.b@, c: self.c@ }
    }
}

/// What the program commits to and the proof reveals.
#[derive(Clone, Copy, Debug, PartialEq, Eq)]
pub struct PublicInputs {
    pub investor_wallet: [u8; 32],
    pub nullifier: [u8; 32],
    pub timestamp: u64,
}

/// What the program commits to, as a mathematical value.
pub struct PublicInputsModel {
    pub investor_wallet: Seq<u8>,
    pub nullifier: Seq<u8>,
    pub timestamp: u64,
}

impl View for PublicInputs {
    type V = PublicInputsModel;

    open spec fn view(&self) -> PublicInputsModel {
        PublicInputsModel {
            investor_wallet: self.investor_wallet@,
            nullifier: self.nullifier@,
            timestamp: self.timestamp,
        }
    }
}

/// The key that Groth16 proofs are verified with; `ic` holds one point more than there are public
/// signals.
#[derive(Clone, Debug)]
pub struct VerificationKey {
    pub alpha: [u8; 64],
    pub beta: [u8; 128],
    pub gamma: [u8; 128],
    pub delta: [u8; 128],
    pub ic: Vec<[u8; 64]>,
}

/// The key that Groth16 proofs are verified with, as a mathematical value.
pub struct VerificationKeyModel {
    pub alpha: Seq<u8>,
    pub beta: Seq<u8>,
    pub gamma: Seq<u8>,
    pub delta: Seq<u8>,
    pub ic: Seq<Seq<u8>>,
}

impl View for VerificationKey {
    type V = VerificationKeyModel;

    open spec fn view(&self) -> VerificationKeyModel {
        VerificationKeyModel {
            alpha: self.alpha@,
            beta: self.beta@,
            gamma: self.gamma@,
            delta: self.delta@,
            ic: bn254::g1_points(self.ic@),
        }
    }
}

/// What is stored for an investor who was admitted.
#[derive(Clone, Copy, Debug, PartialEq, Eq)]
pub struct Credential {
    pub verified_at: u64,
    pub expires_at: u64,
    pub nullifier: [u8; 32],
}

/// What is stored for an investor, as a mathematical value.
pub struct CredentialModel {
    pub verified_at: u64,
    pub expires_at: u64,
    pub nullifier: Seq<u8>,
}

impl View for Credential {
    type V = CredentialModel;

    open spec fn view(&self) -> CredentialModel {
        CredentialModel {
            verified_at: self.verified_at,
            expires_at: self.expires_at,
            nullifier: self.nullifier@,
        }
    }
}

/// What an entry in persistent storage holds.
#[derive(Clone, Copy, Debug, PartialEq, Eq)]
pub enum Value {
    /// The key is a nullifier that was used.
    Used,
    /// The key is a wallet.
    Credential(Credential),
}

/// What an entry in persistent storage holds, as a mathematical value.
pub enum ValueModel {
    Used,
    Credential(CredentialModel),
}

impl View for Value {
    type V = ValueModel;

    open spec fn view(&self) -> ValueModel {
        match *self {
            Value::Used => ValueModel::Used,
            Value::Credential(credential) => ValueModel::Credential(credential@),
        }
    }
}

/// For how long an entry is to be kept: where less than `threshold` ledgers are left, its life is
/// extended to `extend_to` ledgers.
#[derive(Clone, Copy, Debug, PartialEq, Eq, Structural)]
pub struct TtlExtension {
    pub threshold: u32,
    pub extend_to: u32,
}

/// An entry in persistent storage, with the extension of its life that was asked for last.
#[derive(Clone, Copy, Debug, PartialEq, Eq)]
pub struct Entry {
    pub value: Value,
    pub extension: Option<TtlExtension>,
}

/// An entry in persistent storage, as a mathematical value.
pub struct EntryModel {
    pub value: ValueModel,
    pub extension: Option<TtlExtension>,
}

impl View for Entry {
    type V = EntryModel;

    open spec fn view(&self) -> EntryModel {
        EntryModel { value: self.value@, extension: self.extension }
    }
}

/// The state of the contract as a mathematical value. Nullifiers and wallets share one key space.
#[verifier::ext_equal]
pub struct GateState {
    pub now: u64,
    pub verification_key: Option<VerificationKeyModel>,
    pub program_vkey_hash: Option<Seq<u8>>,
    pub entries: Map<Seq<u8>, EntryModel>,
}

/// The state of the contract.
pub struct GateLedger {
    now: u64,
    verification_key: Option<VerificationKey>,
    program_vkey_hash: Option<[u8; 32]>,
    entries: Vec<([u8; 32], Entry)>,
}

/// The entries of a list by their keys.
pub open spec fn entry_map(entries: Seq<([u8; 32], Entry)>) -> Map<Seq<u8>, EntryModel>
    decreases entries.len(),
{
    if entries.len() == 0 {
        Map::empty()
    } else {
        entry_map(entries.drop_last()).insert(entries.last().0@, entries.last().1@)
    }
}

/// No key occurs twice.
pub open spec fn distinct_keys(entries: Seq<([u8; 32], Entry)>) -> bool {
    forall|i: int, j: int|
        0 <= i < j < entries.len() ==> (#[trigger] entries[i]).0@ != (#[trigger] entries[j]).0@
}

proof fn lemma_entry_map(entries: Seq<([u8; 32], Entry)>, i: int)
    requires
        distinct_keys(entries),
        0 <= i < entries.len(),
    ensures
        entry_map(entries).contains_key(entries[i].0@),
        entry_map(entries)[entries[i].0@] == entries[i].1@,
    decreases entries.len(),
{
    if i < entries.len() - 1 {
        assert(entries.drop_last()[i] == entries[i]);
        lemma_entry_map(entries.drop_last(), i);
        assert(entries[i].0@ != entries[entries.len() - 1].0@);
    }
}

proof fn lemma_entry_map_lacks(entries: Seq<([u8; 32], Entry)>, key: Seq<u8>)
    requires
        forall|i: int| 0 <= i < entries.len() ==> (#[trigger] entries[i]).0@ != key,
    ensures
        !entry_map(entries).contains_key(key),
    decreases entries.len(),
{
    if entries.len() > 0 {
        assert(entries[entries.len() - 1].0@ != key);
        assert forall|i: int| 0 <= i < entries.drop_last().len() implies (
        #[trigger] entries.drop_last()[i]).0@ != key by {
            assert(entries[i].0@ != key);
        }
        lemma_entry_map_lacks(entries.drop_last(), key);
    }
}

proof fn lemma_entry_map_update(entries: Seq<([u8; 32], Entry)>, i: int, entry: ([u8; 32], Entry))
    requires
        distinct_keys(entries),
        0 <= i < entries.len(),
        entry.0@ == entries[i].0@,
    ensures
        distinct_keys(entries.update(i, entry)),
        entry_map(entries.update(i, entry)) == entry_map(entries).insert(entry.0@, entry.1@),
    decreases entries.len(),
{
    let after = entries.update(i, entry);
    assert(distinct_keys(after)) by {
        assert forall|a: int, b: int| 0 <= a < b < after.len() implies (#[trigger] after[a]).0@ != (
        #[trigger] after[b]).0@ by {
            assert(entries[a].0@ != entries[b].0@);
        }
    }
    if i == entries.len() - 1 {
        assert(after.drop_last() =~= entries.drop_last());
        assert(entry_map(after) =~= entry_map(entries).insert(entry.0@, entry.1@));
    } else {
        let last = entries.last();
        assert(entries[i].0@ != entries[entries.len() - 1].0@);
        assert(entries.drop_last()[i] == entries[i]);
        lemma_entry_map_update(entries.drop_last(), i, entry);
        assert(after.drop_last() =~= entries.drop_last().update(i, entry));
        assert(entry_map(after) =~= entry_map(entries).insert(entry.0@, entry.1@));
    }
}

impl View for GateLedger {
    type V = GateState;

    closed spec fn view(&self) -> GateState {
        GateState {
            now: self.now,
            verification_key: match self.verification_key {
                Some(vk) => Some(vk@),
                None => None,
            },
            program_vkey_hash: match self.program_vkey_hash {
                Some(hash) => Some(hash@),
                None => None,
            },
            entries: entry_map(self.entries@),
        }
    }
}

impl GateLedger {
    /// No key of the storage occurs twice.
    pub closed spec fn wf(&self) -> bool {
        distinct_keys(self.entries@)
    }

    /// A gate at the time `now` with nothing in storage.
    pub fn new(now: u64) -> (ledger: GateLedger)
        ensures
            ledger.wf(),
            ledger@ == (GateState {
                now,
                verification_key: None,
                program_vkey_hash: None,
                entries: Map::empty(),
            }),
    {
        GateLedger {
            now,
            verification_key: None,
            program_vkey_hash: None,
            entries: Vec::new(),
        }
    }

    /// The time of the ledger.
    pub fn timestamp(&self) -> (now: u64)
        ensures
            now == self@.now,
    {
        self.now
    }

    /// Sets the time of the ledger.
    pub fn set_timestamp(&mut self, now: u64)
        requires
            old(self).wf(),
        ensures
            final(self).wf(),
            final(self)@ == (GateState { now, ..old(self)@ }),
    {
        self.now = now;
    }

    /// The key that proofs are verified with.
    pub fn verification_key(&self) -> (vk: Option<&VerificationKey>)
        ensures
            vk is Some <==> self@.verification_key is Some,
            vk matches Some(k) ==> self@.verification_key == Some(k@),
    {
        self.verification_key.as_ref()
    }

    /// Sets the key that proofs are verified with.
    pub fn set_verification_key(&mut self, vk: VerificationKey)
        requires
            old(self).wf(),
        ensures
            final(self).wf(),
            final(self)@ == (GateState { verification_key: Some(vk@), ..old(self)@ }),
    {
        self.verification_key = Some(vk);
    }

    /// The hash of the program that proofs are about.
    pub fn program_vkey_hash(&self) -> (hash: Option<[u8; 32]>)
        ensures
            hash is Some <==> self@.program_vkey_hash is Some,
            hash matches Some(h) ==> self@.program_vkey_hash == Some(h@),
    {
        self.program_vkey_hash
    }

    /// Sets the hash of the program that proofs are about.
    pub fn set_program_vkey_hash(&mut self, hash: [u8; 32])
        requires
            old(self).wf(),
        ensures
            final(self).wf(),
            final(self)@ == (GateState { program_vkey_hash: Some(hash@), ..old(self)@ }),
    {
        self.program_vkey_hash = Some(hash);
    }

    fn place(&self, key: &[u8; 32]) -> (place: Option<usize>)
        ensures
            match place {
                Some(i) => i < self.entries@.len() && self.entries@[i as int].0@ == key@,
                None => forall|i: int|
                    0 <= i < self.entries@.len() ==> (#[trigger] self.entries@[i]).0@ != key@,
            },
    {
        let mut i: usize = 0;
        while i < self.entries.len()
            invariant
                i <= self.entries@.len(),
                forall|j: int| 0 <= j < i ==> (#[trigger] self.entries@[j]).0@ != key@,
            decreases self.entries@.len() - i,
        {
            if scan::same_bytes(self.entries[i].0.as_slice(), key.as_slice()) {
                return Some(i);
            }
            i = i + 1;
        }
        None
    }

    /// The entry under a key.
    pub fn get(&self, key: &[u8; 32]) -> (entry: Option<Entry>)
        requires
            self.wf(),
        ensures
            entry is Some <==> self@.entries.contains_key(key@),
            entry matches Some(e) ==> self@.entries[key@] == e@,
    {
        match self.place(key) {
            Some(i) => {
                proof {
                    lemma_entry_map(self.entries@, i as int);
                }
                Some(self.entries[i].1)
            },
            None => {
                proof {
                    lemma_entry_map_lacks(self.entries@, key@);
                }
                None
            },
        }
    }

    /// Whether there is an entry under a key.
    pub fn has(&self, key: &[u8; 32]) -> (yes: bool)
        requires
            self.wf(),
        ensures
            yes == self@.entries.contains_key(key@),
    {
        self.get(key).is_some()
    }

    /// Puts an entry under a key.
    pub fn put(&mut self, key: [u8; 32], entry: Entry)
        requires
            old(self).wf(),
        ensures
            final(self).wf(),
            final(self)@ == (GateState {
                entries: old(self)@.entries.insert(key@, entry@),
                ..old(self)@
            }),
    {
        match self.place(&key) {
            Some(i) => {
                proof {
                    lemma_entry_map_update(self.entries@, i as int, (key, entry));
                }
                self.entries.set(i, (key, entry));
            },
            None => {
                self.entries.push((key, entry));
                proof {
                    assert(self.entries@.drop_last() =~= old(self).entries@);
                }
            },
        }
    }
}

} // verus!
