//! CMS signed data, as far as its signature is concerned.
use cms::cert::CertificateChoices;
use cms::content_info::ContentInfo;
use cms::signed_data::SignerIdentifier;
use vstd::prelude::*;
use x509_cert::der::asn1::OctetString;
use x509_cert::der::{Decode, Encode};

use crate::scan;

verus! {

/// `cms::signed_data::SignedData`: certificates and the signers' statements.
#[verifier::external_type_specification]
#[verifier::external_body]
pub struct ExSignedData(cms::signed_data::SignedData);

/// By what a signer names its certificate.
pub enum SignerId {
    /// The issuer's name in DER and the serial number, big-endian.
    IssuerAndSerial { issuer: Option<Vec<u8>>, serial: Vec<u8> },
    /// A key identifier.
    KeyIdentifier,
}

/// By what a signer names its certificate, as a mathematical value.
pub enum SignerIdModel {
    IssuerAndSerial { issuer: Option<Seq<u8>>, serial: Seq<u8> },
    KeyIdentifier,
}

impl View for SignerId {
    type V = SignerIdModel;

    open spec fn view(&self) -> SignerIdModel {
        match *self {
            SignerId::IssuerAndSerial { issuer, serial } => SignerIdModel::IssuerAndSerial {
                issuer: scan::optional_bytes(issuer),
                serial: serial@,
            },
            SignerId::KeyIdentifier => SignerIdModel::KeyIdentifier,
        }
    }
}

/// One signer's statement, without its signed attributes.
pub struct SignerFields {
    pub sid: SignerId,
    /// The object identifier of the digest algorithm.
    pub digest_oid: String,
    pub signature: Vec<u8>,
}

/// One signer's statement as a mathematical value, without its signed attributes.
pub struct SignerModel {
    pub sid: SignerIdModel,
    pub digest_oid: Seq<char>,
    pub signature: Seq<u8>,
}

impl View for SignerFields {
    type V = SignerModel;

    open spec fn view(&self) -> SignerModel {
        SignerModel {
            sid: self.sid@,
            digest_oid: self.digest_oid@,
            signature: self.signature@,
        }
    }
}

/// A signed attribute: its object identifier, and its first value where that is an octet string.
pub struct AttributeFields {
    pub oid: String,
    pub value: Option<Vec<u8>>,
}

/// A signed attribute as a mathematical value.
pub struct AttributeModel {
    pub oid: Seq<char>,
    pub value: Option<Seq<u8>>,
}

impl View for AttributeFields {
    type V = AttributeModel;

    open spec fn view(&self) -> AttributeModel {
        AttributeModel { oid: self.oid@, value: scan::optional_bytes(self.value) }
    }
}

/// A signer's signed attributes: each of them, and their encoding as a whole.
pub struct SignedAttributes {
    pub attributes: Vec<AttributeFields>,
    pub der: Option<Vec<u8>>,
}

/// A signer's signed attributes as a mathematical value.
pub struct SignedAttributesModel {
    pub attributes: Seq<AttributeModel>,
    pub der: Option<Seq<u8>>,
}

impl View for SignedAttributes {
    type V = SignedAttributesModel;

    open spec fn view(&self) -> SignedAttributesModel {
        SignedAttributesModel {
            attributes: self.attributes@.map_values(|a: AttributeFields| a@),
            der: scan::optional_bytes(self.der),
        }
    }
}

/// What signed data holds: the certificates in DER, nothing standing for one of another kind; the
/// signers; and the signed attributes of each signer.
pub struct SignedDataModel {
    pub certificates: Option<Seq<Option<Seq<u8>>>>,
    pub signers: Seq<SignerModel>,
    pub attributes: Seq<Option<SignedAttributesModel>>,
}

/// What signed data holds.
pub uninterp spec fn contents(data: cms::signed_data::SignedData) -> SignedDataModel;

/// The signed data that a DER-encoded CMS blob holds.
pub uninterp spec fn decoded_signed_data(der: Seq<u8>) -> Option<SignedDataModel>;

/// `cms::content_info::ContentInfo::from_der` and `decode_as` on its content: what comes out
/// depends on the bytes alone.
#[verifier::external_body]
pub(crate) fn decode_signed_data(der: &[u8]) -> (data: Option<cms::signed_data::SignedData>)
    ensures
        data is Some <==> decoded_signed_data(der@) is Some,
        data matches Some(d) ==> decoded_signed_data(der@) == Some(contents(d)),
{
    ContentInfo::from_der(der).ok()?.content.decode_as().ok()
}

/// The field `certificates` of `cms::signed_data::SignedData`, each certificate in DER.
#[verifier::external_body]
pub(crate) fn embedded_certificates(data: &cms::signed_data::SignedData) -> (found: Option<Vec<Option<Vec<u8>>>>)
    ensures
        found is Some <==> contents(*data).certificates is Some,
        found matches Some(v) ==> contents(*data).certificates == Some(v@.map_values(|c: Option<Vec<u8>>| scan::optional_bytes(c))),
{
    data.certificates.as_ref().map(|set| {
        set.0.iter().map(|choice| match choice {
            CertificateChoices::Certificate(c) => c.to_der().ok(),
            CertificateChoices::Other(_) => None,
        }).collect()
    })
}

/// The field `signer_infos` of `cms::signed_data::SignedData`.
#[verifier::external_body]
pub(crate) fn signers(data: &cms::signed_data::SignedData) -> (found: Vec<SignerFields>)
    ensures
        found@.map_values(|s: SignerFields| s@) == contents(*data).signers,
{
    data.signer_infos.0.iter().map(|s| SignerFields {
        sid: match &s.sid {
            SignerIdentifier::IssuerAndSerialNumber(id) => SignerId::IssuerAndSerial {
                issuer: id.issuer.to_der().ok(),
                serial: id.serial_number.as_bytes().to_vec(),
            },
            SignerIdentifier::SubjectKeyIdentifier(_) => SignerId::KeyIdentifier,
        },
        digest_oid: s.digest_alg.oid.to_string(),
        signature: s.signature.as_bytes().to_vec(),
    }).collect()
}

/// The field `signed_attrs` of one of the `signer_infos` of `cms::signed_data::SignedData`.
#[verifier::external_body]
pub(crate) fn signed_attributes(data: &cms::signed_data::SignedData, signer: usize) -> (found: Option<
    SignedAttributes,
>)
    requires
        signer < contents(*data).signers.len(),
    ensures
        attributes_view(found) == contents(*data).attributes[signer as int],
{
    data.signer_infos.0.get(signer)?.signed_attrs.as_ref().map(|all| SignedAttributes {
        attributes: all.iter().map(|a| AttributeFields {
            oid: a.oid.to_string(),
            value: a.values.iter().next()
                .and_then(|v| v.decode_as::<OctetString>().ok())
                .map(|o| o.as_bytes().to_vec()),
        }).collect(),
        der: all.to_der().ok(),
    })
}

/// Optional signed attributes as a mathematical value.
pub open spec fn attributes_view(a: Option<SignedAttributes>) -> Option<SignedAttributesModel> {
    match a {
        Some(a) => Some(a@),
        None => None,
    }
}

} // verus!
