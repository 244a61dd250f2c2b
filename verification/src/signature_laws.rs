//! What holds of signatures: who has signed, what was signed, and when a PDF is accepted.
use vstd::prelude::*;

use crate::byte_range;
use crate::certificates;
use crate::certificates::{CertificateFields, CertificateModel};
use crate::chain;
use crate::chain::DigestAlg;
use crate::cms_data;
use crate::cms_data::{
    AttributeFields, AttributeModel, SignedAttributes, SignedAttributesModel, SignerFields,
    SignerId, SignerIdModel,
};
use crate::hashes;
use crate::pdf_signature;
use crate::rsa_keys;

verus! {

/// A mathematical value holds the fields of what was read, each under its own name.
pub proof fn law_signature_models_hold_the_fields(
    certificate: CertificateFields,
    signer: SignerFields,
    attribute: AttributeFields,
    attributes: SignedAttributes,
    issuer: Option<Vec<u8>>,
    serial: Vec<u8>,
)
    ensures
        certificate@.issuer == certificate.issuer@,
        certificate@.subject == certificate.subject@,
        certificate@.serial == certificate.serial@,
        certificate@.signature_oid == certificate.signature_oid@,
        certificate@.tbs is Some <==> certificate.tbs is Some,
        certificate.tbs is Some ==> certificate@.tbs->0 == certificate.tbs->0@,
        certificate@.signature is Some <==> certificate.signature is Some,
        certificate.signature is Some ==> certificate@.signature->0 == certificate.signature->0@,
        certificate@.spki is Some <==> certificate.spki is Some,
        certificate.spki is Some ==> certificate@.spki->0 == certificate.spki->0@,
        signer@.sid == signer.sid@,
        signer@.digest_oid == signer.digest_oid@,
        signer@.signature == signer.signature@,
        attribute@.oid == attribute.oid@,
        attribute@.value is Some <==> attribute.value is Some,
        attribute.value is Some ==> attribute@.value->0 == attribute.value->0@,
        attributes@.attributes.len() == attributes.attributes@.len(),
        forall|i: int|
            0 <= i < attributes.attributes@.len() ==> #[trigger] attributes@.attributes[i]
                == attributes.attributes@[i]@,
        attributes@.der is Some <==> attributes.der is Some,
        attributes.der is Some ==> attributes@.der->0 == attributes.der->0@,
        (SignerId::IssuerAndSerial { issuer, serial })@ is IssuerAndSerial,
        (SignerId::IssuerAndSerial { issuer, serial })@->serial == serial@,
        (SignerId::IssuerAndSerial { issuer, serial })@->issuer is Some <==> issuer is Some,
        issuer is Some ==> (SignerId::IssuerAndSerial { issuer, serial })@->issuer->0 == issuer->0@,
        (SignerId::KeyIdentifier)@ is KeyIdentifier,
{
}

/// Lists of certificates, of encodings and of attributes keep their length and their order.
pub proof fn law_lists_keep_their_order(
    bundle: Seq<Option<CertificateFields>>,
    ders: Seq<Vec<u8>>,
    attributes: Seq<AttributeFields>,
)
    ensures
        chain::models(bundle).len() == bundle.len(),
        forall|i: int|
            0 <= i < bundle.len() ==> ((#[trigger] chain::models(bundle)[i]) is Some <==> bundle[i] is Some)
                && (bundle[i] is Some ==> chain::models(bundle)[i]->0 == bundle[i]->0@),
        chain::encodings(ders).len() == ders.len(),
        forall|i: int| 0 <= i < ders.len() ==> #[trigger] chain::encodings(ders)[i] == ders[i]@,
        chain::decoded(chain::encodings(ders)).len() == ders.len(),
        forall|i: int|
            0 <= i < ders.len() ==> #[trigger] chain::decoded(chain::encodings(ders))[i]
                == certificates::decoded_certificate(ders[i]@),
        pdf_signature::attribute_models(attributes).len() == attributes.len(),
        forall|i: int|
            0 <= i < attributes.len() ==> #[trigger] pdf_signature::attribute_models(attributes)[i]
                == attributes[i]@,
{
}

/// The encodings that are there are kept in their order, and nothing else is.
pub proof fn law_present_encodings_are_kept(
    first: Seq<Option<Seq<u8>>>,
    second: Seq<Option<Seq<u8>>>,
    der: Seq<u8>,
)
    ensures
        pdf_signature::present(seq![]).len() == 0,
        pdf_signature::present(seq![None::<Seq<u8>>]).len() == 0,
        pdf_signature::present(seq![Some(der)]) == seq![der],
        pdf_signature::present(first + second) == pdf_signature::present(first)
            + pdf_signature::present(second),
    decreases second.len(),
{
    assert(seq![None::<Seq<u8>>].drop_last() =~= seq![]);
    assert(seq![Some(der)].drop_last() =~= seq![]);
    reveal_with_fuel(pdf_signature::present, 2);
    assert(pdf_signature::present(seq![Some(der)]) =~= seq![der]);
    if second.len() == 0 {
        assert(first + second =~= first);
        assert(pdf_signature::present(first) + seq![] =~= pdf_signature::present(first));
    } else {
        law_present_encodings_are_kept(first, second.drop_last(), der);
        assert((first + second).drop_last() =~= first + second.drop_last());
        let all = pdf_signature::present(first) + pdf_signature::present(second.drop_last());
        if let Some(last) = second.last() {
            assert(all.push(last) =~= pdf_signature::present(first) + pdf_signature::present(
                second.drop_last(),
            ).push(last));
        }
    }
}

proof fn lemma_named_place(
    certs: Seq<Option<CertificateModel>>,
    issuer: Option<Seq<u8>>,
    serial: Seq<u8>,
    from: int,
)
    requires
        0 <= from,
    ensures
        match pdf_signature::named_place(certs, issuer, serial, from) {
            Some(at) => {
                &&& from <= at < certs.len()
                &&& certs[at] is Some
                &&& issuer == Some(certs[at]->0.issuer)
                &&& serial == certs[at]->0.serial
                &&& forall|j: int|
                    from <= j < at && (#[trigger] certs[j]) is Some ==> issuer != Some(
                        certs[j]->0.issuer,
                    ) || serial != certs[j]->0.serial
            },
            None => forall|j: int|
                from <= j < certs.len() && (#[trigger] certs[j]) is Some ==> issuer != Some(
                    certs[j]->0.issuer,
                ) || serial != certs[j]->0.serial,
        },
    decreases certs.len() - from,
{
    if from < certs.len() && !pdf_signature::is_named(certs[from], issuer, serial) {
        lemma_named_place(certs, issuer, serial, from + 1);
    }
}

/// The signer's certificate is the first one with the issuer and the serial number that the signer
/// gives, byte for byte; there is none just where no certificate has both. A signer that gives a
/// key identifier has the first certificate.
pub proof fn law_signer_is_found_by_issuer_and_serial(
    certs: Seq<Option<CertificateModel>>,
    issuer: Option<Seq<u8>>,
    serial: Seq<u8>,
)
    ensures
        match pdf_signature::leaf_place(certs, SignerIdModel::IssuerAndSerial { issuer, serial }) {
            Some(at) => {
                &&& 0 <= at < certs.len()
                &&& certs[at] is Some
                &&& issuer == Some(certs[at]->0.issuer)
                &&& serial == certs[at]->0.serial
                &&& forall|j: int|
                    0 <= j < at && (#[trigger] certs[j]) is Some ==> issuer != Some(
                        certs[j]->0.issuer,
                    ) || serial != certs[j]->0.serial
            },
            None => forall|j: int|
                0 <= j < certs.len() && (#[trigger] certs[j]) is Some ==> issuer != Some(
                    certs[j]->0.issuer,
                ) || serial != certs[j]->0.serial,
        },
        certs.len() > 0 ==> pdf_signature::leaf_place(certs, SignerIdModel::KeyIdentifier) == Some(
            0int,
        ),
        certs.len() == 0 ==> pdf_signature::leaf_place(certs, SignerIdModel::KeyIdentifier) is None,
{
    lemma_named_place(certs, issuer, serial, 0);
}

/// A certificate is signed by an issuer just where the issuer's RSA key verifies its signature over
/// the part that is signed, hashed by SHA-256 or by SHA-384, whichever of them it names.
pub proof fn law_certificate_is_signed_by_either_hash(
    certificate: CertificateModel,
    issuer: CertificateModel,
)
    ensures
        chain::signed_by(certificate, issuer) <==> {
            &&& certificate.tbs is Some
            &&& certificate.signature is Some
            &&& issuer.spki is Some
            &&& rsa_keys::decoded_rsa_key(issuer.spki->0) is Some
            &&& {
                let key = rsa_keys::decoded_rsa_key(issuer.spki->0)->0;
                ||| rsa_keys::pkcs1v15_sha256(
                    key,
                    hashes::sha256_digest(certificate.tbs->0),
                    certificate.signature->0,
                )
                ||| rsa_keys::pkcs1v15_sha384(
                    key,
                    hashes::sha384_digest(certificate.tbs->0),
                    certificate.signature->0,
                )
            }
        },
{
}

/// A payload is signed by the subject of a certificate just where its RSA key verifies the
/// signature over the payload, hashed by SHA-256 or by SHA-384.
pub proof fn law_payload_is_signed_by_either_hash(
    leaf: CertificateModel,
    payload: Seq<u8>,
    signature: Seq<u8>,
)
    ensures
        pdf_signature::leaf_signed(leaf, payload, signature) <==> {
            &&& leaf.spki is Some
            &&& rsa_keys::decoded_rsa_key(leaf.spki->0) is Some
            &&& {
                let key = rsa_keys::decoded_rsa_key(leaf.spki->0)->0;
                ||| rsa_keys::pkcs1v15_sha256(key, hashes::sha256_digest(payload), signature)
                ||| rsa_keys::pkcs1v15_sha384(key, hashes::sha384_digest(payload), signature)
            }
        },
        chain::subject_signed(leaf, payload, signature, DigestAlg::Sha256) <==> {
            &&& leaf.spki is Some
            &&& rsa_keys::decoded_rsa_key(leaf.spki->0) is Some
            &&& rsa_keys::pkcs1v15_sha256(
                rsa_keys::decoded_rsa_key(leaf.spki->0)->0,
                hashes::sha256_digest(payload),
                signature,
            )
        },
        chain::subject_signed(leaf, payload, signature, DigestAlg::Sha384) <==> {
            &&& leaf.spki is Some
            &&& rsa_keys::decoded_rsa_key(leaf.spki->0) is Some
            &&& rsa_keys::pkcs1v15_sha384(
                rsa_keys::decoded_rsa_key(leaf.spki->0)->0,
                hashes::sha384_digest(payload),
                signature,
            )
        },
{
}

/// Without signed attributes the covered bytes are what is signed; with them, their encoding is,
/// with the tag of a set in place of its first byte and no other byte changed.
pub proof fn law_payload_is_the_set_of_attributes(
    attributes: Seq<AttributeModel>,
    der: Seq<u8>,
    covered: Seq<u8>,
)
    ensures
        pdf_signature::signed_payload(None, covered) == Some(covered),
        pdf_signature::signed_payload(
            Some(SignedAttributesModel { attributes, der: None }),
            covered,
        ) is None,
        ({
            let payload = pdf_signature::signed_payload(
                Some(SignedAttributesModel { attributes, der: Some(der) }),
                covered,
            );
            &&& payload is Some
            &&& payload->0.len() == der.len()
            &&& der.len() > 0 ==> payload->0[0] == 0x31
            &&& forall|i: int| 1 <= i < der.len() ==> #[trigger] payload->0[i] == der[i]
        }),
{
}

proof fn lemma_message_digest(attributes: Seq<AttributeModel>, from: int, at: int)
    requires
        0 <= from <= at <= attributes.len(),
        forall|j: int|
            from <= j < at ==> (#[trigger] attributes[j]).oid != "1.2.840.113549.1.9.4"@,
        at < attributes.len() ==> attributes[at].oid == "1.2.840.113549.1.9.4"@,
    ensures
        pdf_signature::message_digest(attributes, from) == if at < attributes.len() {
            attributes[at].value
        } else {
            None
        },
    decreases at - from,
{
    if from < at {
        lemma_message_digest(attributes, from + 1, at);
    }
}

/// The first attribute with the object identifier of a message digest gives it, and where that one
/// has no value there is none; nor is there where no attribute has that identifier. It agrees with
/// the covered bytes just where it is their digest by SHA-256 or by SHA-384.
pub proof fn law_first_message_digest_counts(
    attributes: Seq<AttributeModel>,
    at: int,
    covered: Seq<u8>,
)
    requires
        0 <= at <= attributes.len(),
        forall|j: int| 0 <= j < at ==> (#[trigger] attributes[j]).oid != "1.2.840.113549.1.9.4"@,
        at < attributes.len() ==> attributes[at].oid == "1.2.840.113549.1.9.4"@,
    ensures
        at == attributes.len() ==> pdf_signature::message_digest(attributes, 0) is None
            && !pdf_signature::digest_matches(attributes, covered),
        at < attributes.len() ==> pdf_signature::message_digest(attributes, 0)
            == attributes[at].value && (pdf_signature::digest_matches(attributes, covered)
            <==> attributes[at].value == Some(hashes::sha256_digest(covered))
            || attributes[at].value == Some(hashes::sha384_digest(covered))),
{
    lemma_message_digest(attributes, 0, at);
}

proof fn lemma_place_is_first(
    bundle: Seq<Option<CertificateModel>>,
    subject: Seq<u8>,
    from: int,
    at: int,
)
    requires
        0 <= from <= at < bundle.len(),
        bundle[at] is Some,
        bundle[at]->0.subject == subject,
        forall|j: int|
            from <= j < at && (#[trigger] bundle[j]) is Some ==> bundle[j]->0.subject != subject,
    ensures
        chain::place_of(bundle, subject, from) == Some(at),
    decreases at - from,
{
    if from < at {
        assert(!chain::certifies(bundle, from, subject));
        lemma_place_is_first(bundle, subject, from + 1, at);
    }
}

proof fn lemma_place_found(bundle: Seq<Option<CertificateModel>>, subject: Seq<u8>, from: int)
    requires
        0 <= from,
    ensures
        chain::place_of(bundle, subject, from) matches Some(at) ==> {
            &&& from <= at < bundle.len()
            &&& bundle[at] is Some
            &&& bundle[at]->0.subject == subject
            &&& forall|j: int|
                from <= j < at && (#[trigger] bundle[j]) is Some ==> bundle[j]->0.subject != subject
        },
    decreases bundle.len() - from,
{
    if from < bundle.len() && !chain::certifies(bundle, from, subject) {
        lemma_place_found(bundle, subject, from + 1);
    }
}

/// An encoded certificate is linked to an encoded root just where both can be read, the root is not
/// empty, and the root is reached over at most ten certificates.
pub proof fn law_link_is_a_chain_of_ten(leaf: Seq<u8>, bundle: Seq<Seq<u8>>, root: Seq<u8>)
    ensures
        chain::anchored(leaf, bundle, root) <==> {
            &&& root.len() > 0
            &&& certificates::decoded_certificate(leaf) is Some
            &&& certificates::decoded_certificate(root) is Some
            &&& chain::reaches_root(
                certificates::decoded_certificate(leaf)->0,
                chain::decoded(bundle),
                certificates::decoded_certificate(root)->0,
                10,
            )
        },
{
}

/// A chain of at most so many certificates as hops are allowed is accepted, where each certificate
/// is signed by the next and the last by the root, each but the last names as its issuer not the
/// root but the next one, and the next one is the first in the bundle with that name.
pub proof fn law_signed_chain_is_accepted(
    path: Seq<CertificateModel>,
    places: Seq<int>,
    bundle: Seq<Option<CertificateModel>>,
    root: CertificateModel,
    hops: nat,
)
    requires
        0 < path.len() <= hops,
        places.len() == path.len(),
        forall|i: int|
            0 < i < path.len() ==> {
                let at = #[trigger] places[i];
                &&& path[i - 1].issuer != root.subject
                &&& 0 <= at < bundle.len()
                &&& bundle[at] == Some(path[i])
                &&& path[i].subject == path[i - 1].issuer
                &&& forall|j: int|
                    0 <= j < at && (#[trigger] bundle[j]) is Some ==> bundle[j]->0.subject
                        != path[i - 1].issuer
                &&& chain::signed_by(path[i - 1], path[i])
            },
        path.last().issuer == root.subject,
        chain::signed_by(path.last(), root),
    ensures
        chain::reaches_root(path[0], bundle, root, hops),
    decreases path.len(),
{
    if path.len() > 1 {
        let at = places[1];
        lemma_place_is_first(bundle, path[0].issuer, 0, at);
        let rest = path.skip(1);
        let rest_places = places.skip(1);
        assert forall|i: int| 0 < i < rest.len() implies {
            let at = #[trigger] rest_places[i];
            &&& rest[i - 1].issuer != root.subject
            &&& 0 <= at < bundle.len()
            &&& bundle[at] == Some(rest[i])
            &&& rest[i].subject == rest[i - 1].issuer
            &&& forall|j: int|
                0 <= j < at && (#[trigger] bundle[j]) is Some ==> bundle[j]->0.subject
                    != rest[i - 1].issuer
            &&& chain::signed_by(rest[i - 1], rest[i])
        } by {
            assert(rest_places[i] == places[i + 1]);
        }
        law_signed_chain_is_accepted(rest, rest_places, bundle, root, (hops - 1) as nat);
        assert(rest[0] == path[1]);
    }
}

/// Where the root is reached, it is the issuer that the last of at most so many certificates as hops
/// are allowed names, and each of them names and is signed by the next, which is the first with
/// its name.
pub proof fn law_accepted_chain_is_the_first_one(
    leaf: CertificateModel,
    bundle: Seq<Option<CertificateModel>>,
    root: CertificateModel,
    hops: nat,
) -> (path: Seq<CertificateModel>)
    requires
        chain::reaches_root(leaf, bundle, root, hops),
    ensures
        0 < path.len() <= hops,
        path[0] == leaf,
        forall|i: int|
            0 < i < path.len() ==> {
                &&& path[i - 1].issuer != root.subject
                &&& (#[trigger] path[i]).subject == path[i - 1].issuer
                &&& exists|at: int|
                    {
                        &&& 0 <= at < bundle.len()
                        &&& #[trigger] bundle[at] == Some(path[i])
                        &&& forall|j: int|
                            0 <= j < at && (#[trigger] bundle[j]) is Some ==> bundle[j]->0.subject
                                != path[i - 1].issuer
                    }
                &&& chain::signed_by(path[i - 1], path[i])
            },
        path.last().issuer == root.subject,
        chain::signed_by(path.last(), root),
    decreases hops,
{
    if leaf.issuer == root.subject {
        seq![leaf]
    } else {
        lemma_place_found(bundle, leaf.issuer, 0);
        let place = chain::place_of(bundle, leaf.issuer, 0)->0;
        let issuer = bundle[place]->0;
        let rest = law_accepted_chain_is_the_first_one(issuer, bundle, root, (hops - 1) as nat);
        let path = seq![leaf] + rest;
        assert forall|i: int| 0 < i < path.len() implies {
            &&& path[i - 1].issuer != root.subject
            &&& (#[trigger] path[i]).subject == path[i - 1].issuer
            &&& exists|at: int|
                {
                    &&& 0 <= at < bundle.len()
                    &&& #[trigger] bundle[at] == Some(path[i])
                    &&& forall|j: int|
                        0 <= j < at && (#[trigger] bundle[j]) is Some ==> bundle[j]->0.subject
                            != path[i - 1].issuer
                }
            &&& chain::signed_by(path[i - 1], path[i])
        } by {
            assert(path[i] == rest[i - 1]);
            if i > 1 {
                assert(path[i - 1] == rest[i - 2]);
            } else {
                assert(bundle[place] == Some(path[i]));
            }
        }
        assert(path.last() == rest.last());
        path
    }
}

/// A PDF is accepted whose byte range lies inside the file, whose signature is signed data with the
/// signer's certificate in it, where the RSA key of that certificate verifies the signer's
/// signature over the covered bytes, or over the signed attributes whose message digest is that of
/// the covered bytes, and where the certificate leads to the trusted root over at most ten
/// certificates.
pub proof fn law_signed_pdf_is_accepted(
    pdf: Seq<u8>,
    ranges: Seq<usize>,
    der: Seq<u8>,
    encodings: Seq<Option<Seq<u8>>>,
    at: int,
    payload: Seq<u8>,
    root: Seq<u8>,
)
    requires
        byte_range::byte_range(pdf) == Some(ranges),
        ranges[0] + ranges[1] <= pdf.len(),
        ranges[2] + ranges[3] <= pdf.len(),
        cms_data::decoded_signed_data(der) is Some,
        ({
            let covered = pdf.subrange(ranges[0] as int, ranges[0] + ranges[1]) + pdf.subrange(
                ranges[2] as int,
                ranges[2] + ranges[3],
            );
            let data = cms_data::decoded_signed_data(der)->0;
            let ders = pdf_signature::present(encodings);
            let sid = data.signers[0].sid;
            let leaf = certificates::decoded_certificate(ders[at]);
            &&& data.certificates == Some(encodings)
            &&& data.signers.len() > 0
            &&& 0 <= at < ders.len()
            &&& leaf is Some
            &&& sid is KeyIdentifier ==> at == 0
            &&& sid is IssuerAndSerial ==> {
                &&& sid->issuer == Some(leaf->0.issuer)
                &&& sid->serial == leaf->0.serial
                &&& forall|j: int|
                    0 <= j < at && certificates::decoded_certificate(#[trigger] ders[j]) is Some
                        ==> sid->issuer != Some(certificates::decoded_certificate(ders[j])->0.issuer)
                        || sid->serial != certificates::decoded_certificate(ders[j])->0.serial
            }
            &&& data.attributes[0] is None ==> payload == covered
            &&& data.attributes[0] is Some ==> {
                let all = data.attributes[0]->0;
                &&& all.der is Some
                &&& payload.len() == all.der->0.len()
                &&& payload.len() > 0 ==> payload[0] == 0x31
                &&& forall|i: int| 1 <= i < payload.len() ==> #[trigger] payload[i] == all.der->0[i]
                &&& exists|i: int|
                    {
                        &&& 0 <= i < all.attributes.len()
                        &&& (#[trigger] all.attributes[i]).oid == "1.2.840.113549.1.9.4"@
                        &&& forall|j: int|
                            0 <= j < i ==> (#[trigger] all.attributes[j]).oid
                                != "1.2.840.113549.1.9.4"@
                        &&& all.attributes[i].value == Some(hashes::sha256_digest(covered))
                            || all.attributes[i].value == Some(hashes::sha384_digest(covered))
                    }
            }
            &&& leaf->0.spki is Some
            &&& rsa_keys::decoded_rsa_key(leaf->0.spki->0) is Some
            &&& {
                let key = rsa_keys::decoded_rsa_key(leaf->0.spki->0)->0;
                ||| rsa_keys::pkcs1v15_sha256(
                    key,
                    hashes::sha256_digest(payload),
                    data.signers[0].signature,
                )
                ||| rsa_keys::pkcs1v15_sha384(
                    key,
                    hashes::sha384_digest(payload),
                    data.signers[0].signature,
                )
            }
            &&& root.len() > 0
            &&& certificates::decoded_certificate(root) is Some
            &&& chain::reaches_root(
                leaf->0,
                chain::decoded(ders),
                certificates::decoded_certificate(root)->0,
                10,
            )
        }),
    ensures
        pdf_signature::signature_valid(pdf, Some(der), root),
{
    let covered = pdf.subrange(ranges[0] as int, ranges[0] + ranges[1]) + pdf.subrange(
        ranges[2] as int,
        ranges[2] + ranges[3],
    );
    let data = cms_data::decoded_signed_data(der)->0;
    let ders = pdf_signature::present(encodings);
    let sid = data.signers[0].sid;
    let certs = chain::decoded(ders);
    let leaf = certificates::decoded_certificate(ders[at])->0;
    assert(byte_range::covered_bytes(pdf, ranges) == Some(covered));
    assert(certs[at] == Some(leaf));
    if sid is IssuerAndSerial {
        lemma_named_place(certs, sid->issuer, sid->serial, 0);
        let found = pdf_signature::named_place(certs, sid->issuer, sid->serial, 0);
        if let Some(place) = found {
            assert(certs[place] == certificates::decoded_certificate(ders[place]));
            if place < at {
                assert(certificates::decoded_certificate(ders[place]) is Some);
            }
            if at < place {
                assert(certs[at] is Some);
            }
        } else {
            assert(certs[at] is Some);
        }
        assert(found == Some(at));
    }
    assert(pdf_signature::leaf_place(certs, sid) == Some(at));
    assert(pdf_signature::signed_payload(data.attributes[0], covered) == Some(payload)) by {
        if data.attributes[0] is Some {
            let all = data.attributes[0]->0.der->0;
            if all.len() > 0 {
                assert(payload =~= all.update(0, 0x31));
            } else {
                assert(payload =~= all);
            }
        }
    }
    if data.attributes[0] is Some {
        let all = data.attributes[0]->0;
        let i = choose|i: int|
            {
                &&& 0 <= i < all.attributes.len()
                &&& (#[trigger] all.attributes[i]).oid == "1.2.840.113549.1.9.4"@
                &&& forall|j: int|
                    0 <= j < i ==> (#[trigger] all.attributes[j]).oid != "1.2.840.113549.1.9.4"@
                &&& all.attributes[i].value == Some(hashes::sha256_digest(covered))
                    || all.attributes[i].value == Some(hashes::sha384_digest(covered))
            };
        lemma_message_digest(all.attributes, 0, i);
    }
    assert(pdf_signature::leaf_signed(leaf, payload, data.signers[0].signature));
}

/// A PDF that is accepted bears all of that: the byte range lies inside the file, the signer's
/// certificate, found by what the signer gives, holds an RSA key that verifies the signature over
/// the payload, the message digest is that of the covered bytes, and the root is reached over at
/// most ten certificates.
pub proof fn law_accepted_pdf_is_signed_by_the_named_signer(
    pdf: Seq<u8>,
    der: Seq<u8>,
    root: Seq<u8>,
) -> (at: int)
    requires
        pdf_signature::signature_valid(pdf, Some(der), root),
    ensures
        byte_range::byte_range(pdf) is Some,
        cms_data::decoded_signed_data(der) is Some,
        cms_data::decoded_signed_data(der)->0.certificates is Some,
        cms_data::decoded_signed_data(der)->0.signers.len() > 0,
        root.len() > 0,
        certificates::decoded_certificate(root) is Some,
        ({
            let ranges = byte_range::byte_range(pdf)->0;
            let covered = pdf.subrange(ranges[0] as int, ranges[0] + ranges[1]) + pdf.subrange(
                ranges[2] as int,
                ranges[2] + ranges[3],
            );
            let data = cms_data::decoded_signed_data(der)->0;
            let ders = pdf_signature::present(data.certificates->0);
            let sid = data.signers[0].sid;
            let leaf = certificates::decoded_certificate(ders[at]);
            &&& ranges[0] + ranges[1] <= pdf.len()
            &&& ranges[2] + ranges[3] <= pdf.len()
            &&& 0 <= at < ders.len()
            &&& leaf is Some
            &&& sid is KeyIdentifier ==> at == 0
            &&& sid is IssuerAndSerial ==> sid->issuer == Some(leaf->0.issuer) && sid->serial
                == leaf->0.serial
            &&& leaf->0.spki is Some
            &&& rsa_keys::decoded_rsa_key(leaf->0.spki->0) is Some
            &&& data.attributes[0] is None ==> {
                let key = rsa_keys::decoded_rsa_key(leaf->0.spki->0)->0;
                ||| rsa_keys::pkcs1v15_sha256(
                    key,
                    hashes::sha256_digest(covered),
                    data.signers[0].signature,
                )
                ||| rsa_keys::pkcs1v15_sha384(
                    key,
                    hashes::sha384_digest(covered),
                    data.signers[0].signature,
                )
            }
            &&& data.attributes[0] is Some ==> {
                let all = data.attributes[0]->0;
                let key = rsa_keys::decoded_rsa_key(leaf->0.spki->0)->0;
                let payload = all.der->0.update(0, 0x31);
                &&& all.der is Some
                &&& all.der->0.len() > 0 ==> {
                    ||| rsa_keys::pkcs1v15_sha256(
                        key,
                        hashes::sha256_digest(payload),
                        data.signers[0].signature,
                    )
                    ||| rsa_keys::pkcs1v15_sha384(
                        key,
                        hashes::sha384_digest(payload),
                        data.signers[0].signature,
                    )
                }
                &&& exists|i: int|
                    {
                        &&& 0 <= i < all.attributes.len()
                        &&& (#[trigger] all.attributes[i]).oid == "1.2.840.113549.1.9.4"@
                        &&& forall|j: int|
                            0 <= j < i ==> (#[trigger] all.attributes[j]).oid
                                != "1.2.840.113549.1.9.4"@
                        &&& all.attributes[i].value == Some(hashes::sha256_digest(covered))
                            || all.attributes[i].value == Some(hashes::sha384_digest(covered))
                    }
            }
            &&& chain::reaches_root(
                leaf->0,
                chain::decoded(ders),
                certificates::decoded_certificate(root)->0,
                10,
            )
        }),
{
    let ranges = byte_range::byte_range(pdf)->0;
    let covered = byte_range::covered_bytes(pdf, ranges)->0;
    let data = cms_data::decoded_signed_data(der)->0;
    let ders = pdf_signature::present(data.certificates->0);
    let sid = data.signers[0].sid;
    let certs = chain::decoded(ders);
    let at = pdf_signature::leaf_place(certs, sid)->0;
    if sid is IssuerAndSerial {
        lemma_named_place(certs, sid->issuer, sid->serial, 0);
    }
    assert(certs[at] == certificates::decoded_certificate(ders[at]));
    if data.attributes[0] is Some {
        let all = data.attributes[0]->0;
        let i = lemma_first_digest(all.attributes, 0);
        assert(all.attributes[i].oid == "1.2.840.113549.1.9.4"@);
    }
    at
}

proof fn lemma_first_digest(attributes: Seq<AttributeModel>, from: int) -> (i: int)
    requires
        0 <= from,
        pdf_signature::message_digest(attributes, from) is Some,
    ensures
        from <= i < attributes.len(),
        attributes[i].oid == "1.2.840.113549.1.9.4"@,
        attributes[i].value == pdf_signature::message_digest(attributes, from),
        forall|j: int|
            from <= j < i ==> (#[trigger] attributes[j]).oid != "1.2.840.113549.1.9.4"@,
    decreases attributes.len() - from,
{
    if attributes[from].oid == "1.2.840.113549.1.9.4"@ {
        from
    } else {
        lemma_first_digest(attributes, from + 1)
    }
}

} // verus!
