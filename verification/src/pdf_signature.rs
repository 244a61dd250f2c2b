//! Verification of the CMS signature that a PDF carries.
use vstd::prelude::*;

use crate::byte_range;
use crate::certificates;
use crate::certificates::{CertificateFields, CertificateModel};
use crate::chain;
use crate::chain::DigestAlg;
use crate::hashes;
use crate::pdf_utils;
use crate::scan;
use crate::cms_data;
use crate::cms_data::{
    AttributeFields, AttributeModel, SignedAttributes, SignedAttributesModel, SignedDataModel,
    SignerFields, SignerId, SignerIdModel, SignerModel,
};
use crate::text;

verus! {

/// The encodings that are there, in order.
pub open spec fn present(encodings: Seq<Option<Seq<u8>>>) -> Seq<Seq<u8>>
    decreases encodings.len(),
{
    if encodings.len() == 0 {
        seq![]
    } else {
        match encodings.last() {
            Some(der) => present(encodings.drop_last()).push(der),
            None => present(encodings.drop_last()),
        }
    }
}

/// Some optional byte strings as mathematical values.
pub open spec fn optional_strings(strings: Seq<Option<Vec<u8>>>) -> Seq<Option<Seq<u8>>> {
    strings.map_values(|c: Option<Vec<u8>>| scan::optional_bytes(c))
}

/// Keeps the encodings that are there.
pub fn keep_present(encodings: Vec<Option<Vec<u8>>>) -> (kept: Vec<Vec<u8>>)
    ensures
        chain::encodings(kept@) == present(optional_strings(encodings@)),
{
    let ghost all = optional_strings(encodings@);
    let mut kept: Vec<Vec<u8>> = Vec::new();
    let mut i: usize = 0;
    assert(chain::encodings(kept@) =~= seq![]);
    assert(all.take(0).len() == 0);
    while i < encodings.len()
        invariant
            i <= encodings@.len(),
            all == optional_strings(encodings@),
            chain::encodings(kept@) == present(all.take(i as int)),
        decreases encodings@.len() - i,
    {
        let ghost before = kept@;
        proof {
            assert(all.take(i + 1).drop_last() =~= all.take(i as int));
            assert(all[i as int] == scan::optional_bytes(encodings@[i as int]));
        }
        if let Some(der) = &encodings[i] {
            let copy: Vec<u8> = der.clone();
            kept.push(copy);
            assert(copy@ =~= der@);
            assert(chain::encodings(kept@) =~= chain::encodings(before).push(der@));
        }
        i = i + 1;
    }
    assert(all.take(i as int) =~= all);
    kept
}

/// The certificate is the one that the signer names by issuer and serial number.
pub open spec fn is_named(certificate: Option<CertificateModel>, issuer: Option<Seq<u8>>, serial: Seq<u8>) -> bool {
    match certificate {
        Some(c) => issuer == Some(c.issuer) && serial == c.serial,
        None => false,
    }
}

/// The first place from `from` on of the certificate that the signer names by issuer and serial
/// number.
pub open spec fn named_place(
    certs: Seq<Option<CertificateModel>>,
    issuer: Option<Seq<u8>>,
    serial: Seq<u8>,
    from: int,
) -> Option<int>
    decreases certs.len() - from,
{
    if from >= certs.len() {
        None
    } else if is_named(certs[from], issuer, serial) {
        Some(from)
    } else {
        named_place(certs, issuer, serial, from + 1)
    }
}

/// The place of the signer's certificate: of the first one that it names by issuer and serial
/// number; for a signer that gives a key identifier, of the first certificate.
pub open spec fn leaf_place(certs: Seq<Option<CertificateModel>>, sid: SignerIdModel) -> Option<int> {
    match sid {
        SignerIdModel::IssuerAndSerial { issuer, serial } => named_place(certs, issuer, serial, 0),
        SignerIdModel::KeyIdentifier => if certs.len() > 0 {
            Some(0)
        } else {
            None
        },
    }
}

/// Finds the signer's certificate.
pub fn find_leaf(certs: &[Option<CertificateFields>], sid: &SignerId) -> (place: Option<usize>)
    ensures
        place is Some <==> leaf_place(chain::models(certs@), sid@) is Some,
        place matches Some(i) ==> i < certs@.len() && leaf_place(chain::models(certs@), sid@) == Some(
            i as int,
        ),
        *sid is KeyIdentifier ==> place == (if certs@.len() > 0 {
            Some(0usize)
        } else {
            None
        }),
        *sid matches SignerId::IssuerAndSerial { issuer, serial } ==> match place {
            Some(i) => {
                &&& i < certs@.len()
                &&& issuer is Some
                &&& certs@[i as int] is Some
                &&& certs@[i as int]->0.issuer@ == issuer->0@
                &&& certs@[i as int]->0.serial@ == serial@
                &&& forall|j: int|
                    0 <= j < i && (#[trigger] certs@[j]) is Some ==> certs@[j]->0.issuer@
                        != issuer->0@ || certs@[j]->0.serial@ != serial@
            },
            None => issuer is Some ==> forall|j: int|
                0 <= j < certs@.len() && (#[trigger] certs@[j]) is Some ==> certs@[j]->0.issuer@
                    != issuer->0@ || certs@[j]->0.serial@ != serial@,
        },
{
    match sid {
        SignerId::IssuerAndSerial { issuer, serial } => {
            let ghost models = chain::models(certs@);
            let ghost name = scan::optional_bytes(*issuer);
            let mut i: usize = 0;
            while i < certs.len()
                invariant
                    i <= certs@.len(),
                    models == chain::models(certs@),
                    name == scan::optional_bytes(*issuer),
                    sid@ == (SignerIdModel::IssuerAndSerial { issuer: name, serial: serial@ }),
                    named_place(models, name, serial@, 0) == named_place(
                        models,
                        name,
                        serial@,
                        i as int,
                    ),
                    *issuer is Some ==> forall|j: int|
                        0 <= j < i && (#[trigger] certs@[j]) is Some ==> certs@[j]->0.issuer@
                            != issuer->0@ || certs@[j]->0.serial@ != serial@,
                decreases certs@.len() - i,
            {
                assert(models[i as int] == certificates::optional_certificate(certs@[i as int]));
                if let (Some(cert), Some(issuer)) = (&certs[i], issuer) {
                    if scan::same_bytes(issuer, &cert.issuer) && scan::same_bytes(
                        serial,
                        &cert.serial,
                    ) {
                        return Some(i);
                    }
                }
                i = i + 1;
            }
            None
        },
        SignerId::KeyIdentifier => if certs.len() > 0 {
            Some(0)
        } else {
            None
        },
    }
}

/// The tag of a DER-encoded set.
pub const SET_TAG: u8 = 0x31;

/// What a signer's signature is over: its signed attributes, encoded as a set, or where it has
/// none the bytes that the signature covers.
pub open spec fn signed_payload(attributes: Option<SignedAttributesModel>, covered: Seq<u8>) -> Option<Seq<u8>> {
    match attributes {
        Some(all) => match all.der {
            Some(der) => Some(
                if der.len() > 0 {
                    der.update(0, SET_TAG)
                } else {
                    der
                },
            ),
            None => None,
        },
        None => Some(covered),
    }
}

/// Puts together what a signer's signature is over.
pub fn payload_of(attributes: &Option<SignedAttributes>, covered: &[u8]) -> (payload: Option<Vec<u8>>)
    ensures
        payload is Some <==> signed_payload(cms_data::attributes_view(*attributes), covered@) is Some,
        payload matches Some(v) ==> signed_payload(
            cms_data::attributes_view(*attributes),
            covered@,
        ) == Some(v@),
        *attributes is None ==> payload is Some && payload->0@ == covered@,
        *attributes is Some ==> (payload is Some <==> attributes->0.der is Some),
        *attributes is Some && payload is Some ==> {
            &&& payload->0@.len() == attributes->0.der->0@.len()
            &&& payload->0@.len() > 0 ==> payload->0@[0] == 0x31
            &&& forall|i: int|
                1 <= i < payload->0@.len() ==> #[trigger] payload->0@[i] == attributes->0.der->0@[i]
        },
{
    match attributes {
        Some(all) => match &all.der {
            Some(der) => {
                let mut payload: Vec<u8> = Vec::new();
                payload.extend_from_slice(der);
                assert(payload@ =~= der@);
                if payload.len() > 0 {
                    payload.set(0, SET_TAG);
                }
                Some(payload)
            },
            None => None,
        },
        None => {
            let mut payload: Vec<u8> = Vec::new();
            payload.extend_from_slice(covered);
            assert(payload@ =~= covered@);
            Some(payload)
        },
    }
}

/// The certificate's subject has signed the payload, hashed by SHA-256 or by SHA-384.
pub open spec fn leaf_signed(leaf: CertificateModel, payload: Seq<u8>, signature: Seq<u8>) -> bool {
    chain::subject_signed(leaf, payload, signature, DigestAlg::Sha256) || chain::subject_signed(
        leaf,
        payload,
        signature,
        DigestAlg::Sha384,
    )
}

/// The message digest among some signed attributes, from `from` on: the value of the first one
/// with its object identifier.
pub open spec fn message_digest(attributes: Seq<AttributeModel>, from: int) -> Option<Seq<u8>>
    decreases attributes.len() - from,
{
    if from >= attributes.len() {
        None
    } else if attributes[from].oid == "1.2.840.113549.1.9.4"@ {
        attributes[from].value
    } else {
        message_digest(attributes, from + 1)
    }
}

/// Some signed attributes as mathematical values.
pub open spec fn attribute_models(attributes: Seq<AttributeFields>) -> Seq<AttributeModel> {
    attributes.map_values(|a: AttributeFields| a@)
}

/// Finds the message digest among some signed attributes.
pub fn find_message_digest(attributes: &[AttributeFields]) -> (digest: Option<&Vec<u8>>)
    ensures
        digest is Some <==> message_digest(attribute_models(attributes@), 0) is Some,
        digest matches Some(v) ==> message_digest(attribute_models(attributes@), 0) == Some(v@),
        forall|i: int|
            0 <= i < attributes@.len() && (#[trigger] attributes@[i]).oid@ == "1.2.840.113549.1.9.4"@
                && (forall|j: int|
                0 <= j < i ==> (#[trigger] attributes@[j]).oid@ != "1.2.840.113549.1.9.4"@) ==> (
            digest is Some <==> attributes@[i].value is Some) && (digest is Some ==> digest->0@
                == attributes@[i].value->0@),
        (forall|i: int|
            0 <= i < attributes@.len() ==> (#[trigger] attributes@[i]).oid@
                != "1.2.840.113549.1.9.4"@) ==> digest is None,
{
    let ghost models = attribute_models(attributes@);
    let mut i: usize = 0;
    while i < attributes.len()
        invariant
            i <= attributes@.len(),
            models == attribute_models(attributes@),
            message_digest(models, 0) == message_digest(models, i as int),
            forall|j: int|
                0 <= j < i ==> (#[trigger] attributes@[j]).oid@ != "1.2.840.113549.1.9.4"@,
        decreases attributes@.len() - i,
    {
        assert(models[i as int] == attributes@[i as int]@);
        if text::same_text(attributes[i].oid.as_str(), "1.2.840.113549.1.9.4") {
            return attributes[i].value.as_ref();
        }
        i = i + 1;
    }
    None
}

/// The message digest among the signed attributes is that of the covered bytes, by SHA-256 or by
/// SHA-384.
pub open spec fn digest_matches(attributes: Seq<AttributeModel>, covered: Seq<u8>) -> bool {
    match message_digest(attributes, 0) {
        Some(digest) => digest == hashes::sha256_digest(covered) || digest == hashes::sha384_digest(
            covered,
        ),
        None => false,
    }
}

/// Whether the message digest among the signed attributes is that of the covered bytes.
pub fn message_digest_matches(attributes: &[AttributeFields], covered: &[u8]) -> (yes: bool)
    ensures
        yes == digest_matches(attribute_models(attributes@), covered@),
{
    match find_message_digest(attributes) {
        Some(digest) => {
            let short: [u8; 32] = hashes::sha256(covered);
            let long: [u8; 48] = hashes::sha384(covered);
            scan::same_bytes(digest, short.as_slice()) || scan::same_bytes(digest, long.as_slice())
        },
        None => false,
    }
}

/// Where there are signed attributes, their message digest is that of the covered bytes.
pub open spec fn attributes_match(attributes: Option<SignedAttributesModel>, covered: Seq<u8>) -> bool {
    match attributes {
        Some(all) => digest_matches(all.attributes, covered),
        None => true,
    }
}

/// The signer's certificate stands among the encodings, its subject has signed the payload, the
/// signed attributes agree with the covered bytes, and the certificate is linked to the trusted
/// root.
pub open spec fn signer_valid(
    ders: Seq<Seq<u8>>,
    signer: SignerModel,
    attributes: Option<SignedAttributesModel>,
    covered: Seq<u8>,
    root: Seq<u8>,
) -> bool {
    match (leaf_place(chain::decoded(ders), signer.sid), signed_payload(attributes, covered)) {
        (Some(at), Some(payload)) => match certificates::decoded_certificate(ders[at]) {
            Some(leaf) => attributes_match(attributes, covered) && leaf_signed(
                leaf,
                payload,
                signer.signature,
            ) && chain::anchored(ders[at], ders, root),
            None => false,
        },
        _ => false,
    }
}

/// The signed data holds certificates and signers, and its first signer's signature over the
/// covered bytes is valid.
pub open spec fn signed_data_valid(data: SignedDataModel, covered: Seq<u8>, root: Seq<u8>) -> bool {
    match data.certificates {
        Some(encodings) => data.signers.len() > 0 && signer_valid(
            present(encodings),
            data.signers[0],
            data.attributes[0],
            covered,
            root,
        ),
        None => false,
    }
}

/// The signature that the PDF carries is a CMS signature over the bytes that its byte range covers,
/// and it is valid.
pub open spec fn signature_valid(pdf: Seq<u8>, signature: Option<Seq<u8>>, root: Seq<u8>) -> bool {
    match byte_range::byte_range(pdf) {
        Some(ranges) => match (byte_range::covered_bytes(pdf, ranges), signature) {
            (Some(covered), Some(der)) => match cms_data::decoded_signed_data(der) {
                Some(data) => signed_data_valid(data, covered, root),
                None => false,
            },
            _ => false,
        },
        None => false,
    }
}

/// The PDF carries a CMS signature over the bytes that its byte range covers, and the signature
/// is valid.
pub open spec fn pdf_signature_valid(pdf: Seq<u8>, root: Seq<u8>) -> bool {
    signature_valid(pdf, pdf_utils::pdf_signature(pdf), root)
}

/// The signature, where it is valid for the PDF.
pub open spec fn valid_signature(
    pdf: Seq<u8>,
    signature: Option<Seq<u8>>,
    root: Seq<u8>,
) -> Option<Seq<u8>> {
    if signature_valid(pdf, signature, root) {
        signature
    } else {
        None
    }
}

/// Whether the subject of the signer's certificate has signed the payload.
pub fn verify_leaf(leaf: &CertificateFields, payload: &[u8], signature: &[u8]) -> (valid: bool)
    ensures
        valid == leaf_signed(leaf@, payload@, signature@),
{
    match chain::rsa_pub_key_from_cert(leaf) {
        Some(key) => chain::verify_with_key(&key, payload, signature, DigestAlg::Sha256)
            || chain::verify_with_key(&key, payload, signature, DigestAlg::Sha384),
        None => false,
    }
}

/// Whether a signer's signature is valid.
pub fn verify_signer(
    ders: &[Vec<u8>],
    signer: &SignerFields,
    attributes: &Option<SignedAttributes>,
    covered: &[u8],
    trusted_root_der: &[u8],
) -> (valid: bool)
    ensures
        valid == signer_valid(
            chain::encodings(ders@),
            signer@,
            cms_data::attributes_view(*attributes),
            covered@,
            trusted_root_der@,
        ),
{
    let certs: Vec<Option<CertificateFields>> = chain::decode_bundle(ders);
    let at: usize = match find_leaf(&certs, &signer.sid) {
        Some(at) => at,
        None => {
            return false;
        },
    };
    proof {
        assert(chain::models(certs@).len() == chain::decoded(chain::encodings(ders@)).len());
        assert(chain::models(certs@)[at as int] == certificates::optional_certificate(certs@[at as int]));
        assert(chain::encodings(ders@)[at as int] == ders@[at as int]@);
    }
    let leaf: &CertificateFields = match &certs[at] {
        Some(leaf) => leaf,
        None => {
            return false;
        },
    };
    let payload: Vec<u8> = match payload_of(attributes, covered) {
        Some(payload) => payload,
        None => {
            return false;
        },
    };
    let digest_ok: bool = match attributes {
        Some(all) => message_digest_matches(&all.attributes, covered),
        None => true,
    };
    digest_ok && verify_leaf(leaf, &payload, &signer.signature) && chain::verify_cert_chain(
        &ders[at],
        ders,
        trusted_root_der,
    )
}

fn verify_signed_data(der: &[u8], covered: &[u8], trusted_root_der: &[u8]) -> (valid: bool)
    ensures
        valid == (match cms_data::decoded_signed_data(der@) {
            Some(data) => signed_data_valid(data, covered@, trusted_root_der@),
            None => false,
        }),
{
    let data = match cms_data::decode_signed_data(der) {
        Some(data) => data,
        None => {
            return false;
        },
    };
    let ders: Vec<Vec<u8>> = match cms_data::embedded_certificates(&data) {
        Some(encodings) => keep_present(encodings),
        None => {
            return false;
        },
    };
    let signers: Vec<SignerFields> = cms_data::signers(&data);
    if signers.len() == 0 {
        return false;
    }
    proof {
        assert(cms_data::contents(data).signers[0] == signers@[0]@);
    }
    let attributes: Option<SignedAttributes> = cms_data::signed_attributes(&data, 0);
    verify_signer(&ders, &signers[0], &attributes, covered, trusted_root_der)
}

/// The ends of the stretches can be added up, and where the stretches lie inside the file, it can
/// be searched for its signature.
pub open spec fn is_verifiable(pdf: Seq<u8>) -> bool {
    match byte_range::byte_range(pdf) {
        Some(ranges) => byte_range::ends_fit(pdf, ranges) && (byte_range::covered_bytes(pdf, ranges)
            is Some ==> pdf_utils::can_be_searched(pdf)),
        None => true,
    }
}

/// Extracts the CMS signature of a PDF where it is valid.
pub fn extract_valid_signature(pdf_bytes: &[u8], trusted_root_der: &[u8]) -> (found: Option<Vec<u8>>)
    requires
        is_verifiable(pdf_bytes@),
    ensures
        exists|signature: Option<Seq<u8>>| #[trigger]
            pdf_utils::may_carry(pdf_bytes@, signature) && scan::optional_bytes(found)
                == valid_signature(pdf_bytes@, signature, trusted_root_der@),
        pdf_utils::signature_is_certain(pdf_bytes@) ==> scan::optional_bytes(found)
            == valid_signature(
            pdf_bytes@,
            pdf_utils::pdf_signature(pdf_bytes@),
            trusted_root_der@,
        ),
{
    proof {
        pdf_utils::lemma_may_carry(pdf_bytes@);
    }
    let ranges: [usize; 4] = match byte_range::extract_byte_range(pdf_bytes) {
        Some(ranges) => ranges,
        None => {
            return None;
        },
    };
    let covered: Vec<u8> = match byte_range::collect_covered(pdf_bytes, &ranges) {
        Some(covered) => covered,
        None => {
            return None;
        },
    };
    let signature: Option<Vec<u8>> = pdf_utils::extract_signature_bytes(pdf_bytes);
    assert(pdf_utils::may_carry(pdf_bytes@, scan::optional_bytes(signature)));
    match signature {
        Some(der) => if verify_signed_data(&der, &covered, trusted_root_der) {
            Some(der)
        } else {
            None
        },
        None => None,
    }
}

/// Verifies the CMS signature of a PDF:
///
/// 1. the bytes that it covers are put together by `/ByteRange`;
/// 2. the signed data is read from the blob under `/Contents`;
/// 3. the signer's certificate is found among those that the blob holds;
/// 4. the RSA signature is verified over the covered bytes; where there are signed attributes, it
///    is verified over these, and their message digest has to be that of the covered bytes;
/// 5. the certificate is followed up to the trusted root.
///
/// All steps have to pass.
pub fn verify_pkcs7_signature_local(pdf_bytes: &[u8], trusted_root_der: &[u8]) -> (valid: bool)
    requires
        is_verifiable(pdf_bytes@),
    ensures
        exists|signature: Option<Seq<u8>>| #[trigger]
            pdf_utils::may_carry(pdf_bytes@, signature) && valid == signature_valid(
                pdf_bytes@,
                signature,
                trusted_root_der@,
            ),
        pdf_utils::signature_is_certain(pdf_bytes@) ==> valid == pdf_signature_valid(
            pdf_bytes@,
            trusted_root_der@,
        ),
{
    extract_valid_signature(pdf_bytes, trusted_root_der).is_some()
}

/// Whether the signature of a PDF can be verified.
pub fn verifiable(pdf_bytes: &[u8]) -> (yes: bool)
    ensures
        yes == is_verifiable(pdf_bytes@),
{
    match byte_range::extract_byte_range(pdf_bytes) {
        Some(ranges) => byte_range::ends_can_be_added(pdf_bytes, &ranges) && (
        byte_range::collect_covered(pdf_bytes, &ranges).is_none() || pdf_utils::searchable(
            pdf_bytes,
        )),
        None => true,
    }
}

/// A PDF is accepted only where it has a byte range inside the file and carries a signature that is
/// signed data.
pub proof fn law_accepted_pdf_is_signed(pdf: Seq<u8>, signature: Option<Seq<u8>>, root: Seq<u8>)
    requires
        signature_valid(pdf, signature, root),
    ensures
        byte_range::byte_range(pdf) is Some,
        byte_range::covered_bytes(pdf, byte_range::byte_range(pdf)->0) is Some,
        signature is Some,
        cms_data::decoded_signed_data(signature->0) is Some,
{
}

/// Nothing is accepted where the trusted root is empty or cannot be read.
pub proof fn law_no_root_no_acceptance(pdf: Seq<u8>, signature: Option<Seq<u8>>, root: Seq<u8>)
    requires
        root.len() == 0 || certificates::decoded_certificate(root) is None,
    ensures
        !signature_valid(pdf, signature, root),
{
}

/// A PDF whose signer states another message digest than that of the covered bytes, or none, is
/// not accepted, whatever the trusted root.
pub proof fn law_altered_pdf_is_refused(pdf: Seq<u8>, signature: Option<Seq<u8>>, root: Seq<u8>)
    requires
        ({
            let covered = byte_range::covered_bytes(pdf, byte_range::byte_range(pdf)->0)->0;
            let data = cms_data::decoded_signed_data(signature->0)->0;
            &&& data.attributes[0] is Some
            &&& !digest_matches(data.attributes[0]->0.attributes, covered)
        }),
    ensures
        !signature_valid(pdf, signature, root),
{
}

/// A PDF that is accepted has a signer whose certificate, found in the signature, made the
/// signature over the signer's payload and is linked to the root by a chain of signed
/// certificates; and where there are signed attributes, they agree with the covered bytes.
pub proof fn law_accepted_pdf_is_anchored(
    pdf: Seq<u8>,
    signature: Option<Seq<u8>>,
    root: Seq<u8>,
) -> (path: Seq<CertificateModel>)
    requires
        signature_valid(pdf, signature, root),
    ensures
        ({
            let covered = byte_range::covered_bytes(pdf, byte_range::byte_range(pdf)->0)->0;
            let data = cms_data::decoded_signed_data(signature->0)->0;
            let ders = present(data.certificates->0);
            let trusted = certificates::decoded_certificate(root);
            &&& trusted is Some
            &&& path.len() <= chain::MAX_CHAIN_LEN
            &&& chain::is_chain(path, chain::decoded(ders), trusted->0)
            &&& attributes_match(data.attributes[0], covered)
            &&& signed_payload(data.attributes[0], covered) is Some
            &&& leaf_signed(
                path[0],
                signed_payload(data.attributes[0], covered)->0,
                data.signers[0].signature,
            )
        }),
{
    let data = cms_data::decoded_signed_data(signature->0)->0;
    let ders = present(data.certificates->0);
    let at = leaf_place(chain::decoded(ders), data.signers[0].sid)->0;
    let leaf = certificates::decoded_certificate(ders[at])->0;
    let trusted = certificates::decoded_certificate(root)->0;
    chain::law_accepted_chain_is_signed(
        leaf,
        chain::decoded(ders),
        trusted,
        chain::MAX_CHAIN_LEN as nat,
    )
}

} // verus!
