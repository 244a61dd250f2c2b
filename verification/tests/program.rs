use proofpass::pdf_utils;
use proofpass::program::{
    derive_nullifier, extract_pdf_date, extract_pdf_text, extract_signature_bytes,
};
use sha2::Digest;

const ISSUED: u64 = 1_705_314_600;

const PHRASE: &str =
    "net worth in excess of $1,000,000, excluding the value of their primary residence";

fn attestation(blob: &[u8], date: &str, phrase: &str) -> Vec<u8> {
    format!(
        "%PDF-1.7\n/Contents<{}>\n/CreationDate ({})\n({}) Tj",
        hex::encode(blob),
        date,
        phrase
    )
    .into_bytes()
}

fn signature() -> Vec<u8> {
    (1..=40).collect()
}

#[test]
fn the_padding_of_a_signature_does_not_change_the_nullifier() {
    let mut blob = signature();
    blob.extend_from_slice(&[0; 10]);
    let pdf = attestation(&blob, "D:20240115103000Z", PHRASE);
    assert_eq!(extract_signature_bytes(&pdf), Some(signature()));
    assert_eq!(pdf_utils::extract_signature_bytes(&pdf), Some(signature()));
    let expected: [u8; 32] = sha2::Sha256::digest(signature()).into();
    assert_eq!(derive_nullifier(&pdf), expected);
    assert_eq!(pdf_utils::derive_nullifier(&pdf), expected);
}

#[test]
fn nullifiers_agree() {
    let pdf = attestation(&signature(), "D:20240115103000Z", PHRASE);
    assert_eq!(derive_nullifier(&pdf), pdf_utils::derive_nullifier(&pdf));
    assert_eq!(derive_nullifier(b"plain"), pdf_utils::derive_nullifier(b"plain"));
    let padded =
        [b"/Contents<".to_vec(), b"ab".repeat(33), b"00".to_vec(), b">".to_vec()].concat();
    assert_eq!(derive_nullifier(&padded), pdf_utils::derive_nullifier(&padded));
    let zeros = attestation(&[0; 40], "", "");
    assert_eq!(extract_signature_bytes(&zeros), None);
    let whole: [u8; 32] = sha2::Sha256::digest(&zeros).into();
    assert_eq!(derive_nullifier(&zeros), whole);
    assert_eq!(pdf_utils::derive_nullifier(&zeros), whole);
}

#[test]
fn dates_are_found() {
    assert_eq!(extract_pdf_date(b"/CreationDate (D:20240115103000Z)"), ISSUED);
    assert_eq!(extract_pdf_date(b"/CreationDate(D:20240115103000 "), ISSUED);
    assert_eq!(extract_pdf_date(b"text D:20240115103000 text"), ISSUED);
    assert_eq!(extract_pdf_date(b"text D:20240115103000"), ISSUED);
    assert_eq!(extract_pdf_date(b"/ModDate (D:20240115103000Z)"), ISSUED);
    assert_eq!(extract_pdf_date(b"/CreationDate (D:20241399103000Z)"), 0);
    assert_eq!(extract_pdf_date(b"text D:20241"), 0);
    assert_eq!(extract_pdf_date(b""), 0);
}

#[test]
fn the_date_of_creation_goes_first() {
    assert_eq!(
        extract_pdf_date(b"/ModDate (D:20200101000000Z) /CreationDate (D:20240115103000Z)"),
        ISSUED
    );
    assert_eq!(
        extract_pdf_date(b"/CreationDate (none) .............................................. D:20240115103000 "),
        ISSUED
    );
}

#[test]
fn strings_in_brackets_make_the_text() {
    assert_eq!(extract_pdf_text(b"(one) Tj x (two) y"), "one two ");
    assert_eq!(extract_pdf_text(b"(a\\)b) (c)"), "a\\)b c ");
    assert_eq!(extract_pdf_text(b"(open (in) side"), "open (in ");
    assert_eq!(extract_pdf_text(b"(\xff) (ok)"), "ok ");
    assert_eq!(extract_pdf_text(b"(open \\"), "");
    assert_eq!(extract_pdf_text(b"((a) b"), "(a ");
    assert_eq!(extract_pdf_text("(\u{e9})".as_bytes()), "\u{e9} ");
}
