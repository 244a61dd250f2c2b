use cms::cert::{CertificateChoices, IssuerAndSerialNumber};
use cms::content_info::{CmsVersion, ContentInfo};
use cms::signed_data::{
    CertificateSet, EncapsulatedContentInfo, SignedData, SignerIdentifier, SignerInfo,
    SignerInfos,
};
use lopdf::{Dictionary, Document, Object, StringFormat};
use proofpass::cms_data::{AttributeFields, SignedAttributes, SignerId};
use proofpass::certificates::CertificateFields;
use proofpass::chain::{detect_digest_alg, next_hop, verify_cert_chain, DigestAlg, Hop};
use proofpass::pdf_signature::{
    find_leaf, find_message_digest, message_digest_matches, payload_of,
    verifiable, verify_pkcs7_signature_local,
};
use rsa::pkcs8::EncodePublicKey;
use rsa::{BigUint, Pkcs1v15Sign, RsaPrivateKey};
use sha2::{Digest, Sha256, Sha384};
use std::str::FromStr;
use x509_cert::attr::Attribute;
use x509_cert::certificate::{Certificate, TbsCertificate, Version};
use x509_cert::der::asn1::{Any, BitString, OctetString, SetOfVec};
use x509_cert::der::oid::ObjectIdentifier;
use x509_cert::der::{Decode, Encode};
use x509_cert::ext::pkix::SubjectKeyIdentifier;
use x509_cert::name::Name;
use x509_cert::serial_number::SerialNumber;
use x509_cert::spki::{AlgorithmIdentifierOwned, SubjectPublicKeyInfoOwned};
use x509_cert::time::Validity;

const SHA256_RSA: &str = "1.2.840.113549.1.1.11";
const SHA384_RSA: &str = "1.2.840.113549.1.1.12";
const SHA256_OID: &str = "2.16.840.1.101.3.4.2.1";
const DATA_OID: &str = "1.2.840.113549.1.7.1";
const SIGNED_DATA_OID: &str = "1.2.840.113549.1.7.2";
const MESSAGE_DIGEST_OID: &str = "1.2.840.113549.1.9.4";

fn key(p: &str, q: &str) -> RsaPrivateKey {
    let number = |digits: &str| BigUint::from_bytes_be(&hex::decode(digits).unwrap());
    RsaPrivateKey::from_p_q(number(p), number(q), BigUint::from(65537u32)).unwrap()
}

fn root_key() -> RsaPrivateKey {
    key(
        "fda2e7286e040dd4c02bc607abc004fc2592316b9be452843d4ba18afd4a7a32343541616b556485a88875fc95e49a72f48ed5a270b8ec9acdfe526e1afa41f1",
        "d31d9e0b71eb1933974a50d4aaffe891bc74d0c5e84d87e1a4520236f1db356abad51480b604340c910cd3abc69a13243a6902a594a36c4c1bcc34b43ed69b1d",
    )
}

fn issuer_key() -> RsaPrivateKey {
    key(
        "e336d62865e9ef09286b9851b26b6bc99bc30a44f8bd17585eddfcc635434a02392f0d3be04089d8a6785d563b35c9263615420f1872985ad7cdb6af5081ac2b",
        "f6e700c8176280b3ab4c57c9dedbc984c27ae3ae587cbd61900ccdd6122e10197f4e34ae6949b29bf6c5b6ebe1a6545bca3e5da99b1c6293cc04f7e89f3c637b",
    )
}

fn leaf_key() -> RsaPrivateKey {
    key(
        "fa27198c98032f67e3d9ea1c62951835b1597c90e22a746c6f9c73237daf38c331e80dec98aec88d4222a43f4b4519ce4ffdcc2eed1f027c38aa267e1dcdaaaf",
        "e191d20b110ff80b13a3a8703505bf27637390498486ae7cab5101de6be3cba00504c7c41a78b6cec295d45a0a0536c189cda7e8f99aa03ce1a6300eeb245f31",
    )
}

fn oid(text: &str) -> ObjectIdentifier {
    ObjectIdentifier::from_str(text).unwrap()
}

fn algorithm(text: &str) -> AlgorithmIdentifierOwned {
    AlgorithmIdentifierOwned { oid: oid(text), parameters: None }
}

fn sign(key: &RsaPrivateKey, data: &[u8], alg: DigestAlg) -> Vec<u8> {
    match alg {
        DigestAlg::Sha256 => {
            key.sign(Pkcs1v15Sign::new::<Sha256>(), &Sha256::digest(data)).unwrap()
        }
        DigestAlg::Sha384 => {
            key.sign(Pkcs1v15Sign::new::<Sha384>(), &Sha384::digest(data)).unwrap()
        }
    }
}

struct Issue<'a> {
    subject: &'a str,
    issuer: &'a str,
    serial: u8,
    subject_key: &'a RsaPrivateKey,
    issuer_key: &'a RsaPrivateKey,
    stated: &'a str,
    used: DigestAlg,
}

fn issue(order: Issue) -> Certificate {
    let spki = order.subject_key.to_public_key().to_public_key_der().unwrap();
    let tbs = TbsCertificate {
        version: Version::V3,
        serial_number: SerialNumber::new(&[order.serial]).unwrap(),
        signature: algorithm(order.stated),
        issuer: Name::from_str(order.issuer).unwrap(),
        validity: Validity::from_now(std::time::Duration::from_secs(3600)).unwrap(),
        subject: Name::from_str(order.subject).unwrap(),
        subject_public_key_info: SubjectPublicKeyInfoOwned::from_der(spki.as_bytes()).unwrap(),
        issuer_unique_id: None,
        subject_unique_id: None,
        extensions: None,
    };
    let signature = sign(order.issuer_key, &tbs.to_der().unwrap(), order.used);
    Certificate {
        tbs_certificate: tbs,
        signature_algorithm: algorithm(order.stated),
        signature: BitString::from_bytes(&signature).unwrap(),
    }
}

fn root() -> Certificate {
    issue(Issue {
        subject: "CN=Root",
        issuer: "CN=Root",
        serial: 1,
        subject_key: &root_key(),
        issuer_key: &root_key(),
        stated: SHA256_RSA,
        used: DigestAlg::Sha256,
    })
}

/// Signed by the root with SHA-384.
fn intermediate() -> Certificate {
    issue(Issue {
        subject: "CN=Issuer",
        issuer: "CN=Root",
        serial: 2,
        subject_key: &issuer_key(),
        issuer_key: &root_key(),
        stated: SHA384_RSA,
        used: DigestAlg::Sha384,
    })
}

fn leaf() -> Certificate {
    issue(Issue {
        subject: "CN=Signer",
        issuer: "CN=Issuer",
        serial: 3,
        subject_key: &leaf_key(),
        issuer_key: &issuer_key(),
        stated: SHA256_RSA,
        used: DigestAlg::Sha256,
    })
}

fn der(certificate: &Certificate) -> Vec<u8> {
    certificate.to_der().unwrap()
}

#[test]
fn digest_algorithms_are_told_by_their_identifiers() {
    assert_eq!(detect_digest_alg("2.16.840.1.101.3.4.2.2"), DigestAlg::Sha384);
    assert_eq!(detect_digest_alg("2.16.840.1.101.3.4.2.1"), DigestAlg::Sha256);
    assert_eq!(detect_digest_alg("1.2.840.113549.1.1.12"), DigestAlg::Sha384);
    assert_eq!(detect_digest_alg("1.2.840.113549.1.1.11"), DigestAlg::Sha256);
    assert_eq!(detect_digest_alg("1.2.2.7"), DigestAlg::Sha256);
    assert_eq!(detect_digest_alg(""), DigestAlg::Sha256);
    assert_eq!(DigestAlg::Sha256.other(), DigestAlg::Sha384);
    assert_eq!(DigestAlg::Sha384.other(), DigestAlg::Sha256);
}

#[test]
fn a_chain_leads_to_the_root() {
    let bundle = vec![der(&leaf()), der(&intermediate())];
    assert!(verify_cert_chain(&der(&leaf()), &bundle, &der(&root())));
    assert!(verify_cert_chain(&der(&intermediate()), &[], &der(&root())));
}

#[test]
fn a_chain_may_pass_over_what_is_no_certificate() {
    let bundle = vec![b"junk".to_vec(), der(&intermediate())];
    assert!(verify_cert_chain(&der(&leaf()), &bundle, &der(&root())));
}

#[test]
fn chains_that_lead_nowhere() {
    let bundle = vec![der(&leaf()), der(&intermediate())];
    assert!(!verify_cert_chain(&der(&leaf()), &[], &der(&root())));
    assert!(!verify_cert_chain(b"junk", &bundle, &der(&root())));
    assert!(!verify_cert_chain(&der(&leaf()), &bundle, b"junk"));
    assert!(!verify_cert_chain(&der(&leaf()), &bundle, &[]));

    let other_root = issue(Issue {
        subject: "CN=Root",
        issuer: "CN=Root",
        serial: 1,
        subject_key: &leaf_key(),
        issuer_key: &leaf_key(),
        stated: SHA256_RSA,
        used: DigestAlg::Sha256,
    });
    assert!(!verify_cert_chain(&der(&leaf()), &bundle, &der(&other_root)));

    let forged = issue(Issue {
        subject: "CN=Signer",
        issuer: "CN=Issuer",
        serial: 3,
        subject_key: &leaf_key(),
        issuer_key: &leaf_key(),
        stated: SHA256_RSA,
        used: DigestAlg::Sha256,
    });
    assert!(!verify_cert_chain(&der(&forged), &bundle, &der(&root())));
}

#[test]
fn a_chain_that_turns_in_a_circle_is_refused() {
    let circle = issue(Issue {
        subject: "CN=Circle",
        issuer: "CN=Circle",
        serial: 4,
        subject_key: &leaf_key(),
        issuer_key: &leaf_key(),
        stated: SHA256_RSA,
        used: DigestAlg::Sha256,
    });
    assert!(!verify_cert_chain(&der(&circle), &[der(&circle)], &der(&root())));
}

#[test]
fn ten_certificates_are_the_longest_chain() {
    let shared = leaf_key();
    let link = |subject: &str, issuer: &str| {
        der(&issue(Issue {
            subject,
            issuer,
            serial: 9,
            subject_key: &shared,
            issuer_key: &shared,
            stated: SHA256_RSA,
            used: DigestAlg::Sha256,
        }))
    };
    let anchor = link("CN=L0", "CN=L0");
    let mut bundle = Vec::new();
    for i in 1..=10 {
        bundle.push(link(&format!("CN=L{}", i), &format!("CN=L{}", i - 1)));
    }
    assert!(verify_cert_chain(&bundle[9], &bundle, &anchor));
    let eleventh = link("CN=L11", "CN=L10");
    assert!(!verify_cert_chain(&eleventh, &bundle, &anchor));
}

fn fields(issuer: u8, subject: u8, serial: u8) -> CertificateFields {
    CertificateFields {
        issuer: vec![issuer],
        subject: vec![subject],
        serial: vec![serial],
        signature_oid: SHA256_RSA.to_string(),
        tbs: None,
        signature: None,
        spki: None,
    }
}

#[test]
fn the_issuer_is_looked_for_by_name() {
    let bundle = vec![None, Some(fields(8, 7, 1)), Some(fields(9, 7, 2))];
    assert_eq!(next_hop(&fields(7, 1, 0), &bundle, &fields(7, 7, 0)), Hop::Root);
    assert_eq!(next_hop(&fields(7, 1, 0), &bundle, &fields(6, 6, 0)), Hop::Bundle(1));
    assert_eq!(next_hop(&fields(5, 1, 0), &bundle, &fields(6, 6, 0)), Hop::Missing);
}

#[test]
fn the_signer_is_found_by_issuer_and_serial_number() {
    let certs = vec![None, Some(fields(7, 1, 1)), Some(fields(7, 1, 2)), Some(fields(7, 2, 2))];
    let sid = |issuer: u8, serial: u8| SignerId::IssuerAndSerial {
        issuer: Some(vec![issuer]),
        serial: vec![serial],
    };
    assert_eq!(find_leaf(&certs, &sid(7, 2)), Some(2));
    assert_eq!(find_leaf(&certs, &sid(7, 3)), None);
    assert_eq!(find_leaf(&certs, &sid(8, 1)), None);
    let nobody = SignerId::IssuerAndSerial { issuer: None, serial: vec![1] };
    assert_eq!(find_leaf(&certs, &nobody), None);
    assert_eq!(find_leaf(&certs, &SignerId::KeyIdentifier), Some(0));
    assert_eq!(find_leaf(&[], &SignerId::KeyIdentifier), None);
}

#[test]
fn the_payload_is_a_set_of_attributes_or_the_covered_bytes() {
    let with = |bytes: Option<Vec<u8>>| Some(SignedAttributes { attributes: vec![], der: bytes });
    assert_eq!(payload_of(&None, b"doc"), Some(b"doc".to_vec()));
    assert_eq!(payload_of(&with(Some(vec![0xA0, 1, 2])), b"doc"), Some(vec![0x31, 1, 2]));
    assert_eq!(payload_of(&with(Some(vec![])), b"doc"), Some(vec![]));
    assert_eq!(payload_of(&with(None), b"doc"), None);
}

#[test]
fn the_first_message_digest_counts() {
    let attribute = |oid: &str, value: Option<Vec<u8>>| AttributeFields {
        oid: oid.to_string(),
        value,
    };
    let short = Sha256::digest(b"doc").to_vec();
    let long = Sha384::digest(b"doc").to_vec();
    let other = attribute("1.2.3", Some(short.clone()));
    assert!(!message_digest_matches(&[other], b"doc"));
    for digest in [short.clone(), long] {
        let attributes =
            vec![attribute("1.2.3", None), attribute(MESSAGE_DIGEST_OID, Some(digest.clone()))];
        assert_eq!(find_message_digest(&attributes), Some(&digest));
        assert!(message_digest_matches(&attributes, b"doc"));
        assert!(!message_digest_matches(&attributes, b"dog"));
    }
    let attributes =
        vec![attribute(MESSAGE_DIGEST_OID, None), attribute(MESSAGE_DIGEST_OID, Some(short))];
    assert_eq!(find_message_digest(&attributes), None);
    assert!(!message_digest_matches(&attributes, b"doc"));
}

/// What the byte range of [`pdf_with`] covers.
const COVERED: &[u8] = b"%PDF-1.5%PDF-1.5";

fn pdf_with(blob: &[u8]) -> Vec<u8> {
    let mut document = Document::with_version("1.5");
    let mut dict = Dictionary::new();
    dict.set("Type", Object::Name(b"Sig".to_vec()));
    dict.set(
        "ByteRange",
        Object::Array(vec![
            Object::Integer(0),
            Object::Integer(8),
            Object::Integer(0),
            Object::Integer(8),
        ]),
    );
    dict.set("Contents", Object::String(blob.to_vec(), StringFormat::Hexadecimal));
    document.add_object(dict);
    let mut bytes = Vec::new();
    document.save_to(&mut bytes).unwrap();
    bytes
}

fn attributes(digest: &[u8]) -> SetOfVec<Attribute> {
    let value = Any::encode_from(&OctetString::new(digest).unwrap()).unwrap();
    let mut values = SetOfVec::new();
    values.insert(value).unwrap();
    let mut set = SetOfVec::new();
    set.insert(Attribute { oid: oid(MESSAGE_DIGEST_OID), values }).unwrap();
    set
}

struct Blob {
    certificates: Option<Vec<Certificate>>,
    sid: SignerIdentifier,
    signed_attrs: Option<SetOfVec<Attribute>>,
    signature: Vec<u8>,
}

fn leaf_sid() -> SignerIdentifier {
    SignerIdentifier::IssuerAndSerialNumber(IssuerAndSerialNumber {
        issuer: Name::from_str("CN=Issuer").unwrap(),
        serial_number: SerialNumber::new(&[3]).unwrap(),
    })
}

fn encode(blob: Blob) -> Vec<u8> {
    let mut digest_algorithms = SetOfVec::new();
    digest_algorithms.insert(algorithm(SHA256_OID)).unwrap();
    let certificates = blob.certificates.map(|list| {
        let mut set = SetOfVec::new();
        for certificate in list {
            set.insert(CertificateChoices::Certificate(certificate)).unwrap();
        }
        CertificateSet(set)
    });
    let mut signer_infos = SetOfVec::new();
    signer_infos
        .insert(SignerInfo {
            version: CmsVersion::V1,
            sid: blob.sid,
            digest_alg: algorithm(SHA256_OID),
            signed_attrs: blob.signed_attrs,
            signature_algorithm: algorithm(SHA256_RSA),
            signature: OctetString::new(blob.signature).unwrap(),
            unsigned_attrs: None,
        })
        .unwrap();
    let data = SignedData {
        version: CmsVersion::V1,
        digest_algorithms,
        encap_content_info: EncapsulatedContentInfo {
            econtent_type: oid(DATA_OID),
            econtent: None,
        },
        certificates,
        crls: None,
        signer_infos: SignerInfos(signer_infos),
    };
    let content = Any::from_der(&data.to_der().unwrap()).unwrap();
    ContentInfo { content_type: oid(SIGNED_DATA_OID), content }.to_der().unwrap()
}

fn chain() -> Option<Vec<Certificate>> {
    Some(vec![leaf(), intermediate()])
}

#[test]
fn a_signature_over_the_covered_bytes() {
    for alg in [DigestAlg::Sha256, DigestAlg::Sha384] {
        let pdf = pdf_with(&encode(Blob {
            certificates: chain(),
            sid: leaf_sid(),
            signed_attrs: None,
            signature: sign(&leaf_key(), COVERED, alg),
        }));
        assert!(verify_pkcs7_signature_local(&pdf, &der(&root())));
        assert!(!verify_pkcs7_signature_local(&pdf, &der(&leaf())));
        assert!(verifiable(&pdf));
    }
}

#[test]
fn a_signature_over_other_bytes_is_refused() {
    let pdf = pdf_with(&encode(Blob {
        certificates: chain(),
        sid: leaf_sid(),
        signed_attrs: None,
        signature: sign(&leaf_key(), b"something else", DigestAlg::Sha256),
    }));
    assert!(!verify_pkcs7_signature_local(&pdf, &der(&root())));
    let pdf = pdf_with(&encode(Blob {
        certificates: chain(),
        sid: leaf_sid(),
        signed_attrs: None,
        signature: sign(&issuer_key(), COVERED, DigestAlg::Sha256),
    }));
    assert!(!verify_pkcs7_signature_local(&pdf, &der(&root())));
}

#[test]
fn nothing_is_accepted_without_a_root() {
    let pdf = pdf_with(&encode(Blob {
        certificates: chain(),
        sid: leaf_sid(),
        signed_attrs: None,
        signature: sign(&leaf_key(), COVERED, DigestAlg::Sha256),
    }));
    assert!(verify_pkcs7_signature_local(&pdf, &der(&root())));
    assert!(!verify_pkcs7_signature_local(&pdf, &[]));
    assert!(!verify_pkcs7_signature_local(&pdf, b"junk"));
}

#[test]
fn a_signature_over_signed_attributes() {
    let attrs = attributes(&Sha256::digest(COVERED));
    let payload = attrs.to_der().unwrap();
    assert_eq!(payload[0], 0x31);
    let pdf = pdf_with(&encode(Blob {
        certificates: chain(),
        sid: leaf_sid(),
        signed_attrs: Some(attrs.clone()),
        signature: sign(&leaf_key(), &payload, DigestAlg::Sha256),
    }));
    assert!(verify_pkcs7_signature_local(&pdf, &der(&root())));

    let pdf = pdf_with(&encode(Blob {
        certificates: chain(),
        sid: leaf_sid(),
        signed_attrs: Some(attrs),
        signature: sign(&leaf_key(), COVERED, DigestAlg::Sha256),
    }));
    assert!(!verify_pkcs7_signature_local(&pdf, &der(&root())));
}

#[test]
fn a_document_altered_after_signing_is_refused() {
    let attrs = attributes(&Sha256::digest(b"some other document"));
    let payload = attrs.to_der().unwrap();
    let pdf = pdf_with(&encode(Blob {
        certificates: chain(),
        sid: leaf_sid(),
        signed_attrs: Some(attrs),
        signature: sign(&leaf_key(), &payload, DigestAlg::Sha256),
    }));
    assert!(!verify_pkcs7_signature_local(&pdf, &der(&root())));

    let mut values = SetOfVec::new();
    values.insert(Any::encode_from(&oid(DATA_OID)).unwrap()).unwrap();
    let mut attrs = SetOfVec::new();
    attrs.insert(Attribute { oid: oid("1.2.840.113549.1.9.3"), values }).unwrap();
    let payload = attrs.to_der().unwrap();
    let pdf = pdf_with(&encode(Blob {
        certificates: chain(),
        sid: leaf_sid(),
        signed_attrs: Some(attrs),
        signature: sign(&leaf_key(), &payload, DigestAlg::Sha256),
    }));
    assert!(!verify_pkcs7_signature_local(&pdf, &der(&root())));
}

#[test]
fn a_message_digest_by_the_other_hash_is_taken() {
    let attrs = attributes(&Sha384::digest(COVERED));
    let payload = attrs.to_der().unwrap();
    let pdf = pdf_with(&encode(Blob {
        certificates: chain(),
        sid: leaf_sid(),
        signed_attrs: Some(attrs),
        signature: sign(&leaf_key(), &payload, DigestAlg::Sha256),
    }));
    assert!(verify_pkcs7_signature_local(&pdf, &der(&root())));
}

#[test]
fn a_signer_without_a_certificate_is_refused() {
    let signature = sign(&leaf_key(), COVERED, DigestAlg::Sha256);
    let stranger = SignerIdentifier::IssuerAndSerialNumber(IssuerAndSerialNumber {
        issuer: Name::from_str("CN=Issuer").unwrap(),
        serial_number: SerialNumber::new(&[4]).unwrap(),
    });
    let pdf = pdf_with(&encode(Blob {
        certificates: chain(),
        sid: stranger,
        signed_attrs: None,
        signature: signature.clone(),
    }));
    assert!(!verify_pkcs7_signature_local(&pdf, &der(&root())));
    let pdf = pdf_with(&encode(Blob {
        certificates: None,
        sid: leaf_sid(),
        signed_attrs: None,
        signature: signature.clone(),
    }));
    assert!(!verify_pkcs7_signature_local(&pdf, &der(&root())));
}

#[test]
fn a_key_identifier_stands_for_the_first_certificate() {
    let pdf = pdf_with(&encode(Blob {
        certificates: Some(vec![leaf()]),
        sid: SignerIdentifier::SubjectKeyIdentifier(SubjectKeyIdentifier(
            OctetString::new([1u8, 2, 3]).unwrap(),
        )),
        signed_attrs: None,
        signature: sign(&leaf_key(), COVERED, DigestAlg::Sha256),
    }));
    assert!(verify_pkcs7_signature_local(&pdf, &der(&intermediate())));
    assert!(!verify_pkcs7_signature_local(&pdf, &der(&root())));
}

#[test]
fn files_without_a_signature_are_refused() {
    let root = der(&root());
    assert!(!verify_pkcs7_signature_local(b"no byte range", &root));
    assert!(!verify_pkcs7_signature_local(b"/ByteRange [0 5 5 100]", &root));
    assert!(!verify_pkcs7_signature_local(b"/ByteRange [0 5 5 5]", &root));
    assert!(!verify_pkcs7_signature_local(&pdf_with(&[0x30; 300]), &root));
}

#[test]
fn files_whose_signature_cannot_be_verified() {
    assert!(!verifiable(b"/ByteRange [18446744073709551615 1 0 0]"));
    let many = "/Length 5 0 R /W [1 2 1]".repeat(500);
    assert!(!verifiable(format!("/ByteRange [0 5 5 5] {}", many).as_bytes()));
    assert!(verifiable(format!("/ByteRange [0 5 5 99999] {}", many).as_bytes()));
    assert!(verifiable(b"/ByteRange [0 5 5 5] /Encrypt"));
    assert!(verifiable(b"nothing"));
}
