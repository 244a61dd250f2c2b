//! X.509 certificates, as far as signatures and chains are concerned.
use vstd::prelude::*;

use crate::scan;
use x509_cert::der::{Decode, Encode};

verus! {

/// What is read of an X.509 certificate.
pub struct CertificateFields {
    /// The issuer's name, in DER.
    pub issuer: Vec<u8>,
    /// The subject's name, in DER.
    pub subject: Vec<u8>,
    /// The serial number, big-endian.
    pub serial: Vec<u8>,
    /// The object identifier of the algorithm that the certificate is signed with.
    pub signature_oid: String,
    /// The part that is signed, in DER.
    pub tbs: Option<Vec<u8>>,
    /// The signature, where it is a whole number of bytes.
    pub signature: Option<Vec<u8>>,
    /// The subject's public key info, in DER.
    pub spki: Option<Vec<u8>>,
}

/// What is read of an X.509 certificate, as a mathematical value.
pub struct CertificateModel {
    pub issuer: Seq<u8>,
    pub subject: Seq<u8>,
    pub serial: Seq<u8>,
    pub signature_oid: Seq<char>,
    pub tbs: Option<Seq<u8>>,
    pub signature: Option<Seq<u8>>,
    pub spki: Option<Seq<u8>>,
}

impl View for CertificateFields {
    type V = CertificateModel;

    open spec fn view(&self) -> CertificateModel {
        CertificateModel {
            issuer: self.issuer@,
            subject: self.subject@,
            serial: self.serial@,
            signature_oid: self.signature_oid@,
            tbs: scan::optional_bytes(self.tbs),
            signature: scan::optional_bytes(self.signature),
            spki: scan::optional_bytes(self.spki),
        }
    }
}

/// An optional certificate as a mathematical value.
pub open spec fn optional_certificate(certificate: Option<CertificateFields>) -> Option<CertificateModel> {
    match certificate {
        Some(c) => Some(c@),
        None => None,
    }
}

/// The certificate that some DER bytes encode.
pub uninterp spec fn decoded_certificate(der: Seq<u8>) -> Option<CertificateModel>;

/// `x509_cert::Certificate::from_der`, with the fields that are needed taken out: names, the
/// signed part and the public key by `to_der`, the others as they are. What comes out depends on
/// the bytes alone.
#[verifier::external_body]
pub(crate) fn decode_certificate(der: &[u8]) -> (certificate: Option<CertificateFields>)
    ensures
        certificate is Some <==> decoded_certificate(der@) is Some,
        certificate matches Some(c) ==> decoded_certificate(der@) == Some(c@),
{
    let c = x509_cert::Certificate::from_der(der).ok()?;
    Some(CertificateFields {
        issuer: c.tbs_certificate.issuer.to_der().ok()?,
        subject: c.tbs_certificate.subject.to_der().ok()?,
        serial: c.tbs_certificate.serial_number.as_bytes().to_vec(),
        signature_oid: c.signature_algorithm.oid.to_string(),
        tbs: c.tbs_certificate.to_der().ok(),
        signature: c.signature.as_bytes().map(|b| b.to_vec()),
        spki: c.tbs_certificate.subject_public_key_info.to_der().ok(),
    })
}

} // verus!
