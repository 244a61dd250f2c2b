//! RSA signatures by certificates, and chains of certificates up to a trusted root.
use vstd::prelude::*;

use crate::certificates;
use crate::certificates::{CertificateFields, CertificateModel};
use crate::hashes;
use crate::rsa_keys;
use crate::rsa_keys::RsaKeyModel;
use crate::scan;
use crate::text;

verus! {

/// A chain has at most this many certificates below the root.
pub const MAX_CHAIN_LEN: usize = 10;

/// The hash function that a signature is made over.
#[derive(Clone, Copy, Debug, PartialEq, Eq, Structural)]
pub enum DigestAlg {
    Sha256,
    Sha384,
}

impl DigestAlg {
    /// The other hash function.
    pub open spec fn other_spec(self) -> DigestAlg {
        match self {
            DigestAlg::Sha256 => DigestAlg::Sha384,
            DigestAlg::Sha384 => DigestAlg::Sha256,
        }
    }

    /// The other hash function.
    pub fn other(self) -> (alg: DigestAlg)
        ensures
            alg == self.other_spec(),
            alg != self,
    {
        match self {
            DigestAlg::Sha256 => DigestAlg::Sha384,
            DigestAlg::Sha384 => DigestAlg::Sha256,
        }
    }
}

/// The hash function that an object identifier names, by itself or as part of an RSA signature
/// algorithm: SHA-384 for 2.16.840.1.101.3.4.2.2 and for 1.2.840.113549.1.1.12, else SHA-256.
pub open spec fn digest_alg_of(oid: Seq<char>) -> DigestAlg {
    if oid == "2.16.840.1.101.3.4.2.2"@ || oid == "1.2.840.113549.1.1.12"@ {
        DigestAlg::Sha384
    } else {
        DigestAlg::Sha256
    }
}

/// Tells the hash function from an object identifier.
pub fn detect_digest_alg(alg_oid: &str) -> (alg: DigestAlg)
    ensures
        alg == digest_alg_of(alg_oid@),
        alg == DigestAlg::Sha384 <==> alg_oid@ == "2.16.840.1.101.3.4.2.2"@ || alg_oid@
            == "1.2.840.113549.1.1.12"@,
{
    if text::same_text(alg_oid, "2.16.840.1.101.3.4.2.2") || text::same_text(
        alg_oid,
        "1.2.840.113549.1.1.12",
    ) {
        DigestAlg::Sha384
    } else {
        DigestAlg::Sha256
    }
}

/// The RSA key of a certificate's subject, where it has one.
pub open spec fn subject_key(certificate: CertificateModel) -> Option<RsaKeyModel> {
    match certificate.spki {
        Some(spki) => rsa_keys::decoded_rsa_key(spki),
        None => None,
    }
}

/// Reads the RSA key of a certificate's subject.
pub fn rsa_pub_key_from_cert(cert: &CertificateFields) -> (key: Option<rsa::RsaPublicKey>)
    ensures
        key is Some <==> subject_key(cert@) is Some,
        key matches Some(k) ==> subject_key(cert@) == Some(rsa_keys::key_parts(k)),
{
    match &cert.spki {
        Some(spki) => rsa_keys::decode_rsa_key(spki),
        None => None,
    }
}

/// `signature` is the signature of the key's owner over `data`, hashed by `alg`.
pub open spec fn key_signed(key: RsaKeyModel, data: Seq<u8>, signature: Seq<u8>, alg: DigestAlg) -> bool {
    match alg {
        DigestAlg::Sha256 => rsa_keys::pkcs1v15_sha256(key, hashes::sha256_digest(data), signature),
        DigestAlg::Sha384 => rsa_keys::pkcs1v15_sha384(key, hashes::sha384_digest(data), signature),
    }
}

/// Whether `signature` is the signature of the key's owner over `data`, hashed by `alg`.
pub fn verify_with_key(key: &rsa::RsaPublicKey, data: &[u8], signature: &[u8], alg: DigestAlg) -> (valid: bool)
    ensures
        valid == key_signed(rsa_keys::key_parts(*key), data@, signature@, alg),
{
    match alg {
        DigestAlg::Sha256 => {
            let digest: [u8; 32] = hashes::sha256(data);
            rsa_keys::verify_sha256(key, digest.as_slice(), signature)
        },
        DigestAlg::Sha384 => {
            let digest: [u8; 48] = hashes::sha384(data);
            rsa_keys::verify_sha384(key, digest.as_slice(), signature)
        },
    }
}

/// `signature` is the signature of the certificate's subject over `data`, hashed by `alg`.
pub open spec fn subject_signed(
    certificate: CertificateModel,
    data: Seq<u8>,
    signature: Seq<u8>,
    alg: DigestAlg,
) -> bool {
    match subject_key(certificate) {
        Some(key) => key_signed(key, data, signature, alg),
        None => false,
    }
}

/// Whether `sig_bytes` is the signature of the subject of `issuer_cert` over `tbs_der`, hashed by
/// `alg`.
pub fn verify_rsa_over_tbs(
    tbs_der: &[u8],
    sig_bytes: &[u8],
    issuer_cert: &CertificateFields,
    alg: DigestAlg,
) -> (valid: bool)
    ensures
        valid == subject_signed(issuer_cert@, tbs_der@, sig_bytes@, alg),
{
    match rsa_pub_key_from_cert(issuer_cert) {
        Some(key) => verify_with_key(&key, tbs_der, sig_bytes, alg),
        None => false,
    }
}

/// `certificate` holds what was signed and a signature of the subject of `issuer` over it, hashed
/// by the algorithm that it names or by the other one.
pub open spec fn signed_by(certificate: CertificateModel, issuer: CertificateModel) -> bool {
    match (certificate.tbs, certificate.signature) {
        (Some(tbs), Some(signature)) => {
            let alg = digest_alg_of(certificate.signature_oid);
            subject_signed(issuer, tbs, signature, alg) || subject_signed(
                issuer,
                tbs,
                signature,
                alg.other_spec(),
            )
        },
        _ => false,
    }
}

/// Whether `cert` is signed by the subject of `issuer`.
pub fn is_signed_by(cert: &CertificateFields, issuer: &CertificateFields) -> (signed: bool)
    ensures
        signed == signed_by(cert@, issuer@),
{
    match (&cert.tbs, &cert.signature) {
        (Some(tbs), Some(signature)) => {
            let alg = detect_digest_alg(cert.signature_oid.as_str());
            verify_rsa_over_tbs(tbs, signature, issuer, alg) || verify_rsa_over_tbs(
                tbs,
                signature,
                issuer,
                alg.other(),
            )
        },
        _ => false,
    }
}

/// The certificates among `bundle` as mathematical values; nothing stands for what could not be
/// read.
pub open spec fn models(bundle: Seq<Option<CertificateFields>>) -> Seq<Option<CertificateModel>> {
    bundle.map_values(|c: Option<CertificateFields>| certificates::optional_certificate(c))
}

/// `bundle` holds at `at` a certificate for `subject`.
pub open spec fn certifies(bundle: Seq<Option<CertificateModel>>, at: int, subject: Seq<u8>) -> bool {
    0 <= at < bundle.len() && bundle[at] is Some && bundle[at]->0.subject == subject
}

/// The first place in `bundle`, from `from` on, of a certificate for `subject`.
pub open spec fn place_of(bundle: Seq<Option<CertificateModel>>, subject: Seq<u8>, from: int) -> Option<int>
    decreases bundle.len() - from,
{
    if from >= bundle.len() {
        None
    } else if certifies(bundle, from, subject) {
        Some(from)
    } else {
        place_of(bundle, subject, from + 1)
    }
}

/// What [`place_of`] gives is a place of a certificate for `subject`.
pub proof fn lemma_place_of(bundle: Seq<Option<CertificateModel>>, subject: Seq<u8>, from: int)
    requires
        0 <= from,
    ensures
        place_of(bundle, subject, from) matches Some(at) ==> certifies(bundle, at, subject),
    decreases bundle.len() - from,
{
    if from < bundle.len() && !certifies(bundle, from, subject) {
        lemma_place_of(bundle, subject, from + 1);
    }
}

/// Where the issuer's certificate is to be found.
#[derive(Clone, Copy, Debug, PartialEq, Eq, Structural)]
pub enum Hop {
    /// It is the trusted root.
    Root,
    /// It stands in the bundle at this place.
    Bundle(usize),
    /// It is not at hand.
    Missing,
}

/// Finds the issuer of `current`: the root where the names agree, else the first certificate of
/// the bundle that bears its name.
pub fn next_hop(
    current: &CertificateFields,
    bundle: &[Option<CertificateFields>],
    root: &CertificateFields,
) -> (hop: Hop)
    ensures
        hop == Hop::Root <==> current@.issuer == root@.subject,
        match hop {
            Hop::Root => current.issuer@ == root.subject@,
            Hop::Bundle(i) => {
                &&& current.issuer@ != root.subject@
                &&& i < bundle@.len()
                &&& bundle@[i as int] is Some
                &&& bundle@[i as int]->0.subject@ == current.issuer@
                &&& forall|j: int|
                    0 <= j < i && (#[trigger] bundle@[j]) is Some ==> bundle@[j]->0.subject@
                        != current.issuer@
            },
            Hop::Missing => {
                &&& current.issuer@ != root.subject@
                &&& forall|j: int|
                    0 <= j < bundle@.len() && (#[trigger] bundle@[j]) is Some
                        ==> bundle@[j]->0.subject@ != current.issuer@
            },
        },
        match hop {
            Hop::Root => true,
            Hop::Bundle(i) => i < bundle@.len() && place_of(models(bundle@), current@.issuer, 0)
                == Some(i as int),
            Hop::Missing => place_of(models(bundle@), current@.issuer, 0) is None,
        },
{
    if scan::same_bytes(&current.issuer, &root.subject) {
        return Hop::Root;
    }
    let mut i: usize = 0;
    while i < bundle.len()
        invariant
            i <= bundle@.len(),
            current.issuer@ != root.subject@,
            place_of(models(bundle@), current@.issuer, 0) == place_of(
                models(bundle@),
                current@.issuer,
                i as int,
            ),
            forall|j: int|
                0 <= j < i && (#[trigger] bundle@[j]) is Some ==> bundle@[j]->0.subject@
                    != current.issuer@,
        decreases bundle@.len() - i,
    {
        assert(models(bundle@)[i as int] == certificates::optional_certificate(bundle@[i as int]));
        if let Some(candidate) = &bundle[i] {
            if scan::same_bytes(&candidate.subject, &current.issuer) {
                return Hop::Bundle(i);
            }
        }
        i = i + 1;
    }
    Hop::Missing
}

/// From `current` the root is reached over at most `hops` certificates, each of them signed by
/// the next: the issuer of each is the root where the names agree, else the first certificate
/// of the bundle that bears its name.
pub open spec fn reaches_root(
    current: CertificateModel,
    bundle: Seq<Option<CertificateModel>>,
    root: CertificateModel,
    hops: nat,
) -> bool
    decreases hops,
{
    if hops == 0 {
        false
    } else if current.issuer == root.subject {
        signed_by(current, root)
    } else {
        match place_of(bundle, current.issuer, 0) {
            Some(at) => signed_by(current, bundle[at]->0) && reaches_root(
                bundle[at]->0,
                bundle,
                root,
                (hops - 1) as nat,
            ),
            None => false,
        }
    }
}

/// Whether a chain of certificates leads from `leaf` to the root.
pub fn chain_is_valid(
    leaf: &CertificateFields,
    bundle: &[Option<CertificateFields>],
    root: &CertificateFields,
) -> (valid: bool)
    ensures
        valid == reaches_root(leaf@, models(bundle@), root@, MAX_CHAIN_LEN as nat),
{
    let mut current: &CertificateFields = leaf;
    let mut hops: usize = MAX_CHAIN_LEN;
    while hops > 0
        invariant
            hops <= MAX_CHAIN_LEN,
            reaches_root(leaf@, models(bundle@), root@, MAX_CHAIN_LEN as nat) == reaches_root(
                current@,
                models(bundle@),
                root@,
                hops as nat,
            ),
        decreases hops,
    {
        match next_hop(current, bundle, root) {
            Hop::Root => {
                return is_signed_by(current, root);
            },
            Hop::Bundle(i) => {
                proof {
                    lemma_place_of(models(bundle@), current@.issuer, 0);
                }
                match &bundle[i] {
                    Some(issuer) => {
                        if !is_signed_by(current, issuer) {
                            return false;
                        }
                        current = issuer;
                    },
                    None => {
                        return false;
                    },
                }
            },
            Hop::Missing => {
                return false;
            },
        }
        hops = hops - 1;
    }
    false
}

/// The certificates that the encodings in `bundle` give.
pub open spec fn decoded(bundle: Seq<Seq<u8>>) -> Seq<Option<CertificateModel>> {
    bundle.map_values(|der: Seq<u8>| certificates::decoded_certificate(der))
}

/// The encodings in a bundle as mathematical values.
pub open spec fn encodings(bundle: Seq<Vec<u8>>) -> Seq<Seq<u8>> {
    bundle.map_values(|der: Vec<u8>| der@)
}

/// Decodes every certificate of a bundle.
pub fn decode_bundle(bundle: &[Vec<u8>]) -> (certs: Vec<Option<CertificateFields>>)
    ensures
        models(certs@) == decoded(encodings(bundle@)),
{
    let mut certs: Vec<Option<CertificateFields>> = Vec::new();
    let mut i: usize = 0;
    while i < bundle.len()
        invariant
            i <= bundle@.len(),
            certs@.len() == i,
            forall|j: int|
                0 <= j < i ==> certificates::optional_certificate(#[trigger] certs@[j])
                    == certificates::decoded_certificate(bundle@[j]@),
        decreases bundle@.len() - i,
    {
        certs.push(certificates::decode_certificate(&bundle[i]));
        i = i + 1;
    }
    assert(models(certs@) =~= decoded(encodings(bundle@)));
    certs
}

/// The encoded leaf certificate is linked to the encoded root over the encoded bundle. Nothing is
/// linked to an empty root.
pub open spec fn anchored(leaf: Seq<u8>, bundle: Seq<Seq<u8>>, root: Seq<u8>) -> bool {
    root.len() > 0 && match (
        certificates::decoded_certificate(leaf),
        certificates::decoded_certificate(root),
    ) {
        (Some(leaf), Some(root)) => reaches_root(leaf, decoded(bundle), root, MAX_CHAIN_LEN as nat),
        _ => false,
    }
}

/// Walks the chain from the leaf over the certificates of `bundle` to the trusted root.
pub fn verify_cert_chain(leaf_der: &[u8], bundle: &[Vec<u8>], trusted_root_der: &[u8]) -> (valid: bool)
    ensures
        valid == anchored(leaf_der@, encodings(bundle@), trusted_root_der@),
{
    if trusted_root_der.len() == 0 {
        return false;
    }
    match (
        certificates::decode_certificate(leaf_der),
        certificates::decode_certificate(trusted_root_der),
    ) {
        (Some(leaf), Some(root)) => {
            let certs = decode_bundle(bundle);
            chain_is_valid(&leaf, &certs, &root)
        },
        _ => false,
    }
}

/// `path` goes from its first certificate to the root: each of the others stands in the bundle,
/// bears the name that the one before it gives as its issuer and has signed it, and so has the
/// root for the last.
pub open spec fn is_chain(
    path: Seq<CertificateModel>,
    bundle: Seq<Option<CertificateModel>>,
    root: CertificateModel,
) -> bool {
    &&& path.len() > 0
    &&& forall|i: int|
        0 < i < path.len() ==> {
            &&& bundle.contains(Some(#[trigger] path[i]))
            &&& path[i - 1].issuer == path[i].subject
            &&& signed_by(path[i - 1], path[i])
        }
    &&& path.last().issuer == root.subject
    &&& signed_by(path.last(), root)
}

/// Whoever is found to reach the root is linked to it by signatures, over at most so many
/// certificates as hops were allowed.
pub proof fn law_accepted_chain_is_signed(
    leaf: CertificateModel,
    bundle: Seq<Option<CertificateModel>>,
    root: CertificateModel,
    hops: nat,
) -> (path: Seq<CertificateModel>)
    requires
        reaches_root(leaf, bundle, root, hops),
    ensures
        is_chain(path, bundle, root),
        path[0] == leaf,
        path.len() <= hops,
    decreases hops,
{
    if leaf.issuer == root.subject {
        seq![leaf]
    } else {
        lemma_place_of(bundle, leaf.issuer, 0);
        let issuer = bundle[place_of(bundle, leaf.issuer, 0)->0]->0;
        assert(bundle.contains(Some(issuer)));
        let rest = law_accepted_chain_is_signed(issuer, bundle, root, (hops - 1) as nat);
        let path = seq![leaf] + rest;
        assert forall|i: int| 0 < i < path.len() implies {
            &&& bundle.contains(Some(#[trigger] path[i]))
            &&& path[i - 1].issuer == path[i].subject
            &&& signed_by(path[i - 1], path[i])
        } by {
            assert(path[i] == rest[i - 1]);
            if i > 1 {
                assert(path[i - 1] == rest[i - 2]);
            }
        }
        assert(path.last() == rest.last());
        path
    }
}

/// A chain that is accepted over some hops is accepted over any greater number of them.
pub proof fn law_more_hops_reach_too(
    leaf: CertificateModel,
    bundle: Seq<Option<CertificateModel>>,
    root: CertificateModel,
    hops: nat,
    more: nat,
)
    requires
        reaches_root(leaf, bundle, root, hops),
        hops <= more,
    ensures
        reaches_root(leaf, bundle, root, more),
    decreases hops,
{
    if leaf.issuer != root.subject {
        let issuer = bundle[place_of(bundle, leaf.issuer, 0)->0]->0;
        law_more_hops_reach_too(issuer, bundle, root, (hops - 1) as nat, (more - 1) as nat);
    }
}

} // verus!
