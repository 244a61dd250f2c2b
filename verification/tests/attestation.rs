use cms::cert::{CertificateChoices, IssuerAndSerialNumber};
use cms::content_info::{CmsVersion, ContentInfo};
use cms::signed_data::{
    CertificateSet, EncapsulatedContentInfo, SignedData, SignerIdentifier, SignerInfo,
    SignerInfos,
};
use proofpass::gate::{ZkGateError, ZkInvestorGate};
use proofpass::ledger::{GateLedger, Groth16Proof, PublicInputs, VerificationKey};
use proofpass::pdf_signature::{
    extract_valid_signature, verifiable, verify_pkcs7_signature_local,
};
use proofpass::pdf_utils;
use proofpass::program::{
    attest, derive_nullifier, extract_pdf_date, extract_signature_bytes, judge,
    verify_pkcs7_signature, AttestationError,
};
use rsa::pkcs8::EncodePublicKey;
use rsa::{BigUint, Pkcs1v15Sign, RsaPrivateKey};
use sha2::{Digest, Sha256};
use soroban_sdk::Env;
use std::str::FromStr;
use x509_cert::certificate::{Certificate, TbsCertificate, Version};
use x509_cert::der::asn1::{Any, BitString, OctetString, SetOfVec};
use x509_cert::der::oid::ObjectIdentifier;
use x509_cert::der::{Decode, Encode};
use x509_cert::name::Name;
use x509_cert::serial_number::SerialNumber;
use x509_cert::spki::{AlgorithmIdentifierOwned, SubjectPublicKeyInfoOwned};
use x509_cert::time::Validity;

const ISSUED: u64 = 1_705_314_600;

const DAYS: u64 = 24 * 60 * 60;

const PHRASE: &str =
    "net worth in excess of $1,000,000, excluding the value of their primary residence";

fn key(p: &str, q: &str) -> RsaPrivateKey {
    let number = |digits: &str| BigUint::from_bytes_be(&hex::decode(digits).unwrap());
    RsaPrivateKey::from_p_q(number(p), number(q), BigUint::from(65537u32)).unwrap()
}

fn root_key() -> RsaPrivateKey {
    key(
        "fda2e7286e040dd4c02bc607abc004fc2592316b9be452843d4ba18afd4a7a32343541616b556485a88875fc95e49a72f48ed5a270b8ec9acdfe526e1afa41f1",
        "d31d9e0b71eb1933974a50d4aaffe891bc74d0c5e84d87e1a4520236f1db356abad51480b604340c910cd3abc69a13243a6902a594a36c4c1bcc34b43ed69b1d",
    )
}

fn signer_key() -> RsaPrivateKey {
    key(
        "fa27198c98032f67e3d9ea1c62951835b1597c90e22a746c6f9c73237daf38c331e80dec98aec88d4222a43f4b4519ce4ffdcc2eed1f027c38aa267e1dcdaaaf",
        "e191d20b110ff80b13a3a8703505bf27637390498486ae7cab5101de6be3cba00504c7c41a78b6cec295d45a0a0536c189cda7e8f99aa03ce1a6300eeb245f31",
    )
}

fn algorithm(text: &str) -> AlgorithmIdentifierOwned {
    AlgorithmIdentifierOwned { oid: ObjectIdentifier::from_str(text).unwrap(), parameters: None }
}

fn sign(key: &RsaPrivateKey, data: &[u8]) -> Vec<u8> {
    key.sign(Pkcs1v15Sign::new::<Sha256>(), &Sha256::digest(data)).unwrap()
}

fn issue(subject: &str, serial: u8, subject_key: &RsaPrivateKey) -> Certificate {
    let spki = subject_key.to_public_key().to_public_key_der().unwrap();
    let tbs = TbsCertificate {
        version: Version::V3,
        serial_number: SerialNumber::new(&[serial]).unwrap(),
        signature: algorithm("1.2.840.113549.1.1.11"),
        issuer: Name::from_str("CN=Root").unwrap(),
        validity: Validity::from_now(std::time::Duration::from_secs(3600)).unwrap(),
        subject: Name::from_str(subject).unwrap(),
        subject_public_key_info: SubjectPublicKeyInfoOwned::from_der(spki.as_bytes()).unwrap(),
        issuer_unique_id: None,
        subject_unique_id: None,
        extensions: None,
    };
    let signature = sign(&root_key(), &tbs.to_der().unwrap());
    Certificate {
        tbs_certificate: tbs,
        signature_algorithm: algorithm("1.2.840.113549.1.1.11"),
        signature: BitString::from_bytes(&signature).unwrap(),
    }
}

fn root() -> Vec<u8> {
    issue("CN=Root", 1, &root_key()).to_der().unwrap()
}

fn blob_over(covered: &[u8]) -> Vec<u8> {
    let sha256 = "2.16.840.1.101.3.4.2.1";
    let mut digest_algorithms = SetOfVec::new();
    digest_algorithms.insert(algorithm(sha256)).unwrap();
    let mut certificates = SetOfVec::new();
    let signer = issue("CN=Signer", 2, &signer_key());
    certificates.insert(CertificateChoices::Certificate(signer)).unwrap();
    let mut signer_infos = SetOfVec::new();
    signer_infos
        .insert(SignerInfo {
            version: CmsVersion::V1,
            sid: SignerIdentifier::IssuerAndSerialNumber(IssuerAndSerialNumber {
                issuer: Name::from_str("CN=Root").unwrap(),
                serial_number: SerialNumber::new(&[2]).unwrap(),
            }),
            digest_alg: algorithm(sha256),
            signed_attrs: None,
            signature_algorithm: algorithm("1.2.840.113549.1.1.11"),
            signature: OctetString::new(sign(&signer_key(), covered)).unwrap(),
            unsigned_attrs: None,
        })
        .unwrap();
    let data = SignedData {
        version: CmsVersion::V1,
        digest_algorithms,
        encap_content_info: EncapsulatedContentInfo {
            econtent_type: ObjectIdentifier::from_str("1.2.840.113549.1.7.1").unwrap(),
            econtent: None,
        },
        certificates: Some(CertificateSet(certificates)),
        crls: None,
        signer_infos: SignerInfos(signer_infos),
    };
    ContentInfo {
        content_type: ObjectIdentifier::from_str("1.2.840.113549.1.7.2").unwrap(),
        content: Any::from_der(&data.to_der().unwrap()).unwrap(),
    }
    .to_der()
    .unwrap()
}

/// How many bytes are kept free for the signature.
const ROOM: usize = 2_000;

/// A file whose signature covers everything but itself, and the signature.
fn signed(date: &str, phrase: &str, mark: u32) -> (Vec<u8>, Vec<u8>) {
    let text = format!(
        "%PDF-1.5\n1 0 obj <</Type/Catalog>> endobj\n2 0 obj <</CreationDate ({})>> endobj\n\
         3 0 obj ({}) endobj\n4 0 obj <</Type/Sig/Mark {}/ByteRange [0 1111111111 2222222222 3333333333]\
         /Contents <{}>>> endobj\n",
        date,
        phrase,
        mark,
        "0".repeat(2 * ROOM)
    );
    let mut table = String::from("xref\n1 4\n");
    for number in 1..=4 {
        let head = format!("{} 0 obj", number);
        table.push_str(&format!("{:010} 00000 n \n", text.find(&head).unwrap()));
    }
    let trailer = format!(
        "trailer<</Size 5/Root 1 0 R/Info 2 0 R>>\nstartxref\n{}\n%%EOF\n",
        text.len()
    );
    let open = text.find("/Contents <").unwrap() + 10;
    let close = open + 2 * ROOM + 2;
    let file = format!("{}{}{}", text, table, trailer);
    let file = file
        .replace("1111111111", &format!("{:010}", open))
        .replace("2222222222", &format!("{:010}", close))
        .replace("3333333333", &format!("{:010}", file.len() - close));
    let covered = [&file.as_bytes()[..open], &file.as_bytes()[close..]].concat();
    let blob = blob_over(&covered);
    if blob[blob.len() - 1] == 0 {
        return signed(date, phrase, mark + 1);
    }
    let digits = hex::encode(&blob);
    let mut pdf = file.into_bytes();
    pdf[open + 1..open + 1 + digits.len()].copy_from_slice(digits.as_bytes());
    (pdf, blob)
}

fn letter() -> (Vec<u8>, Vec<u8>) {
    signed("D:20240115103000Z", PHRASE, 0)
}

#[test]
fn a_signed_letter_is_verified_inside_and_outside_of_the_program() {
    let (pdf, blob) = letter();
    assert!(verifiable(&pdf));
    assert!(verify_pkcs7_signature(&pdf, &root()));
    assert!(verify_pkcs7_signature_local(&pdf, &root()));
    assert_eq!(extract_valid_signature(&pdf, &root()), Some(blob.clone()));
    assert_eq!(extract_signature_bytes(&pdf), Some(blob));
    let stranger = issue("CN=Root", 1, &signer_key()).to_der().unwrap();
    assert!(!verify_pkcs7_signature(&pdf, &stranger));
    assert!(!verify_pkcs7_signature(&pdf, &[]));
    assert_eq!(extract_valid_signature(&pdf, &[]), None);
}

#[test]
fn a_letter_in_order_is_committed_to() {
    let (pdf, blob) = letter();
    let nullifier: [u8; 32] = Sha256::digest(&blob).into();
    assert_eq!(
        attest(&pdf, &root(), ISSUED + 5, [9u8; 32]),
        Ok(PublicInputs { investor_wallet: [9u8; 32], nullifier, timestamp: ISSUED })
    );
    assert_eq!(derive_nullifier(&pdf), nullifier);
    assert_eq!(pdf_utils::derive_nullifier(&pdf), nullifier);
}

#[test]
fn a_letter_changed_after_signing_is_refused() {
    let (pdf, _) = letter();
    let place = pdf.windows(4).position(|w| w == b"2024").unwrap();
    let mut changed = pdf.clone();
    changed[place + 3] = b'5';
    assert_eq!(extract_pdf_date(&changed), ISSUED + 366 * DAYS);
    assert!(!verify_pkcs7_signature(&changed, &root()));
    assert_eq!(
        attest(&changed, &root(), ISSUED + 366 * DAYS, [0u8; 32]),
        Err(AttestationError::SignatureInvalid)
    );
}

#[test]
fn a_letter_without_a_valid_signature_is_refused() {
    let inline = |blob: &[u8]| {
        format!(
            "%PDF-1.7\n/Contents<{}>\n/CreationDate (D:20240115103000Z)\n({}) Tj",
            hex::encode(blob),
            PHRASE
        )
        .into_bytes()
    };
    for blob in [vec![1u8; 33], vec![1u8; 32], vec![0u8; 33], vec![0u8; 40]] {
        let pdf = inline(&blob);
        assert!(verifiable(&pdf));
        assert!(!verify_pkcs7_signature(&pdf, &[]));
        assert!(!verify_pkcs7_signature(&pdf, &root()));
        for cert in [vec![], root()] {
            assert_eq!(
                attest(&pdf, &cert, ISSUED, [0u8; 32]),
                Err(AttestationError::SignatureInvalid)
            );
        }
    }
}

#[test]
fn a_letter_lasts_ninety_days() {
    let (pdf, _) = letter();
    let last = ISSUED + 90 * DAYS;
    assert!(attest(&pdf, &root(), ISSUED, [0u8; 32]).is_ok());
    assert!(attest(&pdf, &root(), last, [0u8; 32]).is_ok());
    assert_eq!(attest(&pdf, &root(), last + 1, [0u8; 32]), Err(AttestationError::TooOld));
    assert_eq!(attest(&pdf, &root(), ISSUED - 1, [0u8; 32]), Err(AttestationError::FutureDated));
}

#[test]
fn objections_come_in_order() {
    let (wordless, _) = signed("D:20240115103000Z", "nothing", 0);
    assert_eq!(attest(&wordless, &[], 0, [0u8; 32]), Err(AttestationError::SignatureInvalid));
    assert_eq!(attest(&wordless, &root(), 0, [0u8; 32]), Err(AttestationError::FutureDated));
    assert_eq!(
        attest(&wordless, &root(), ISSUED + 91 * DAYS, [0u8; 32]),
        Err(AttestationError::TooOld)
    );
    assert_eq!(
        attest(&wordless, &root(), ISSUED, [0u8; 32]),
        Err(AttestationError::PhraseMissing)
    );
    let (undated, _) = signed("", PHRASE, 0);
    assert_eq!(attest(&undated, &root(), ISSUED, [0u8; 32]), Err(AttestationError::TooOld));
}

#[test]
fn the_date_and_the_wording_are_judged_under_any_valid_signature() {
    let pdf = format!("/CreationDate (D:20240115103000Z) ({})", PHRASE).into_bytes();
    let signature = Some(vec![7u8; 40]);
    let nullifier: [u8; 32] = Sha256::digest([7u8; 40]).into();
    assert_eq!(
        judge(&pdf, &signature, ISSUED, [3; 32]),
        Ok(PublicInputs { investor_wallet: [3; 32], nullifier, timestamp: ISSUED })
    );
    assert_eq!(judge(&pdf, &None, ISSUED, [3; 32]), Err(AttestationError::SignatureInvalid));
    assert_eq!(
        judge(&pdf, &signature, ISSUED + 90 * DAYS + 1, [3; 32]),
        Err(AttestationError::TooOld)
    );
    assert_eq!(judge(&pdf, &signature, 0, [3; 32]), Err(AttestationError::FutureDated));
    assert_eq!(
        judge(&pdf[..33], &signature, ISSUED, [3; 32]),
        Err(AttestationError::PhraseMissing)
    );
}

fn open_ledger(now: u64) -> GateLedger {
    let mut ledger = GateLedger::new(now);
    let vk = VerificationKey {
        alpha: [0; 64],
        beta: [0; 128],
        gamma: [0; 128],
        delta: [0; 128],
        ic: vec![[0; 64]; 3],
    };
    ZkInvestorGate::initialize(&mut ledger, vk, [0; 32]);
    ledger
}

fn passing_proof() -> Groth16Proof {
    Groth16Proof { a: [0; 64], b: [0; 128], c: [0; 64] }
}

#[test]
fn a_letter_authorizes_its_investor() {
    let inputs = attest(&letter().0, &root(), ISSUED + 1_000, [1; 32]).unwrap();
    assert_eq!(inputs.timestamp, ISSUED);
    let mut ledger = open_ledger(ISSUED + 90 * DAYS);
    assert_eq!(ZkInvestorGate::settle(&mut ledger, &inputs, true), Ok(()));
    assert!(ZkInvestorGate::is_authorized(&ledger, &[1; 32]));
    assert!(!ZkInvestorGate::is_authorized(&ledger, &[2; 32]));
}

#[test]
fn a_letter_authorizes_nobody_else() {
    let env = Env::default();
    let inputs = attest(&letter().0, &root(), ISSUED, [1; 32]).unwrap();
    let mut ledger = open_ledger(ISSUED);
    let proof = passing_proof();
    for other in [Some([2; 32]), None] {
        assert_eq!(
            ZkInvestorGate::verify_and_authorize(&env, &mut ledger, &proof, &inputs, other),
            Err(ZkGateError::InvalidZKProof)
        );
        assert!(!ledger.has(&inputs.nullifier));
        assert!(!ledger.has(&[1; 32]));
    }
    assert_eq!(
        ZkInvestorGate::verify_and_authorize(&env, &mut ledger, &proof, &inputs, Some([1; 32])),
        Ok(())
    );
}

#[test]
fn a_letter_is_too_old_for_the_ledger_after_ninety_days() {
    let inputs = attest(&letter().0, &root(), ISSUED + 1_000, [1; 32]).unwrap();
    let mut ledger = open_ledger(ISSUED + 90 * DAYS + 1);
    assert_eq!(
        ZkInvestorGate::settle(&mut ledger, &inputs, true),
        Err(ZkGateError::ProofTimestampExpired)
    );
}

#[test]
fn a_letter_serves_once() {
    let (pdf, _) = letter();
    let first = attest(&pdf, &root(), ISSUED, [1; 32]).unwrap();
    let second = attest(&pdf, &root(), ISSUED + 60, [2; 32]).unwrap();
    let mut ledger = open_ledger(ISSUED + 120);
    assert_eq!(ZkInvestorGate::settle(&mut ledger, &first, true), Ok(()));
    ledger.set_timestamp(ISSUED + 180);
    assert_eq!(
        ZkInvestorGate::settle(&mut ledger, &second, true),
        Err(ZkGateError::NullifierAlreadyUsed)
    );
    assert!(!ZkInvestorGate::is_authorized(&ledger, &[2; 32]));
}
