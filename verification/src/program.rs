//! The program that is proved: what it asks of an attestation and what it commits to.
use vstd::prelude::*;

use crate::dates;
use crate::hashes;
use crate::ledger::{PublicInputs, PublicInputsModel};
use crate::pdf_signature;
use crate::pdf_utils;
use crate::scan;
use crate::text;

pub use crate::pdf_utils::{derive_nullifier, extract_signature_bytes};
pub use crate::text::check_accredited_investor_phrase;

verus! {

/// An attestation is taken for this many seconds after its date: ninety days.
pub const ATTESTATION_LIFETIME: u64 = 7_776_000;

/// How many bytes from `/CreationDate` on are searched for the date.
pub const DATE_WINDOW: usize = 64;

/// How many bytes of a date without a key are read.
pub const DATE_LEN: usize = 20;

/// Verifies the CMS signature of an attestation as it is verified outside of the program, with the
/// certificate as the trusted root.
pub fn verify_pkcs7_signature(pdf_bytes: &[u8], cert_der: &[u8]) -> (valid: bool)
    requires
        pdf_signature::is_verifiable(pdf_bytes@),
    ensures
        exists|signature: Option<Seq<u8>>| #[trigger]
            pdf_utils::may_carry(pdf_bytes@, signature) && valid == pdf_signature::signature_valid(
                pdf_bytes@,
                signature,
                cert_der@,
            ),
        pdf_utils::signature_is_certain(pdf_bytes@) ==> valid == pdf_signature::pdf_signature_valid(
            pdf_bytes@,
            cert_der@,
        ),
{
    pdf_signature::verify_pkcs7_signature_local(pdf_bytes, cert_der)
}

/// The byte ends a date.
pub open spec fn ends_date(b: u8) -> bool {
    b == ')' as u8 || b == ' ' as u8 || b == '\n' as u8 || b == '\r' as u8
}

/// The first place from `from` on at which a date ends.
pub open spec fn date_end(s: Seq<u8>, from: int) -> Option<int>
    decreases s.len() - from,
{
    if from >= s.len() {
        None
    } else if ends_date(s[from]) {
        Some(from)
    } else {
        date_end(s, from + 1)
    }
}

/// The part of `s` from `from` on that holds at most `len` bytes.
pub open spec fn window(s: Seq<u8>, from: int, len: int) -> Seq<u8> {
    s.subrange(
        from,
        if from + len < s.len() {
            from + len
        } else {
            s.len() as int
        },
    )
}

/// The date after the first `/CreationDate`: it starts with the first `D:` in the bytes that
/// follow, and ends at a bracket, a space or the end of a line.
pub open spec fn creation_date(pdf: Seq<u8>) -> Option<u64> {
    match scan::first_occurrence(pdf, scan::ascii("/CreationDate"@)) {
        Some(pos) => match scan::first_occurrence(
            window(pdf, pos, DATE_WINDOW as int),
            scan::ascii("D:"@),
        ) {
            Some(mark) => match date_end(pdf, pos + mark) {
                Some(end) => dates::timestamp_of(dates::unmarked(pdf.subrange(pos + mark, end))),
                None => None,
            },
            None => None,
        },
        None => None,
    }
}

/// The date that the first `D:20` starts.
pub open spec fn bare_date(pdf: Seq<u8>) -> Option<u64> {
    match scan::first_occurrence(pdf, scan::ascii("D:20"@)) {
        Some(pos) => dates::timestamp_of(dates::unmarked(window(pdf, pos, DATE_LEN as int))),
        None => None,
    }
}

/// The date of an attestation: that after `/CreationDate`, else the first one that stands
/// anywhere, else zero.
pub open spec fn issue_date(pdf: Seq<u8>) -> u64 {
    match creation_date(pdf) {
        Some(timestamp) => timestamp,
        None => match bare_date(pdf) {
            Some(timestamp) => timestamp,
            None => 0,
        },
    }
}

/// Reads a date, with or without `D:` before it.
pub fn parse_pdf_date(s: &[u8]) -> (timestamp: Option<u64>)
    ensures
        timestamp == dates::timestamp_of(dates::unmarked(s@)),
{
    let total: usize = s.len();
    if total >= 2 && s[0] == 'D' as u8 && s[1] == ':' as u8 {
        assert(s@.subrange(2, total as int) =~= s@.skip(2));
        dates::read_timestamp(&s[2..total])
    } else {
        dates::read_timestamp(s)
    }
}

fn find_date_end(s: &[u8], from: usize) -> (end: Option<usize>)
    requires
        from <= s@.len(),
    ensures
        end is Some <==> date_end(s@, from as int) is Some,
        end matches Some(e) ==> from <= e < s@.len() && date_end(s@, from as int) == Some(e as int),
{
    let mut i: usize = from;
    while i < s.len()
        invariant
            from <= i <= s@.len(),
            date_end(s@, from as int) == date_end(s@, i as int),
        decreases s@.len() - i,
    {
        if s[i] == ')' as u8 || s[i] == ' ' as u8 || s[i] == '\n' as u8 || s[i] == '\r' as u8 {
            return Some(i);
        }
        i = i + 1;
    }
    None
}

fn cut_window(s: &[u8], from: usize, len: usize) -> (part: &[u8])
    requires
        from <= s@.len(),
    ensures
        part@ == window(s@, from as int, len as int),
{
    let total: usize = s.len();
    let to: usize = if len < total - from {
        from + len
    } else {
        total
    };
    &s[from..to]
}

fn read_creation_date(pdf_bytes: &[u8]) -> (timestamp: Option<u64>)
    ensures
        timestamp == creation_date(pdf_bytes@),
{
    proof {
        reveal_strlit("/CreationDate");
        reveal_strlit("D:");
    }
    let total: usize = pdf_bytes.len();
    let pos: usize = match scan::find_subsequence(pdf_bytes, scan::ascii_bytes("/CreationDate")) {
        Some(pos) => pos,
        None => {
            return None;
        },
    };
    let part: &[u8] = cut_window(pdf_bytes, pos, DATE_WINDOW);
    let start: usize = match scan::find_subsequence(part, scan::ascii_bytes("D:")) {
        Some(mark) => {
            assert(pos + mark <= total);
            pos + mark
        },
        None => {
            return None;
        },
    };
    match find_date_end(pdf_bytes, start) {
        Some(end) => parse_pdf_date(&pdf_bytes[start..end]),
        None => None,
    }
}

fn read_bare_date(pdf_bytes: &[u8]) -> (timestamp: Option<u64>)
    ensures
        timestamp == bare_date(pdf_bytes@),
{
    proof {
        reveal_strlit("D:20");
    }
    match scan::find_subsequence(pdf_bytes, scan::ascii_bytes("D:20")) {
        Some(pos) => parse_pdf_date(cut_window(pdf_bytes, pos, DATE_LEN)),
        None => None,
    }
}

/// Extracts the date of an attestation from its metadata or its text.
pub fn extract_pdf_date(pdf_bytes: &[u8]) -> (timestamp: u64)
    ensures
        timestamp == issue_date(pdf_bytes@),
{
    match read_creation_date(pdf_bytes) {
        Some(timestamp) => timestamp,
        None => match read_bare_date(pdf_bytes) {
            Some(timestamp) => timestamp,
            None => 0,
        },
    }
}

/// The place of the bracket that ends a string whose inside starts at `from`; a backslash takes
/// the byte after it along.
pub open spec fn string_end(s: Seq<u8>, from: int) -> Option<int>
    decreases s.len() + 1 - from,
{
    if from >= s.len() {
        None
    } else if s[from] == '\\' as u8 {
        string_end(s, from + 2)
    } else if s[from] == ')' as u8 {
        Some(from)
    } else {
        string_end(s, from + 1)
    }
}

/// What a string adds to the text: its characters and a space, where it is UTF-8.
pub open spec fn string_text(inside: Seq<u8>) -> Seq<char> {
    if vstd::utf8::valid_utf8(inside) {
        vstd::utf8::decode_utf8(inside).push(' ')
    } else {
        seq![]
    }
}

/// What [`string_end`] gives lies inside of `s`.
pub proof fn lemma_string_end(s: Seq<u8>, from: int)
    ensures
        string_end(s, from) matches Some(end) ==> from <= end < s.len(),
    decreases s.len() + 1 - from,
{
    if from < s.len() {
        if s[from] == '\\' as u8 {
            lemma_string_end(s, from + 2);
        } else if s[from] != ')' as u8 {
            lemma_string_end(s, from + 1);
        }
    }
}

/// The text of the strings in brackets from `from` on; a bracket that is not closed opens none.
pub open spec fn bracket_text(s: Seq<u8>, from: int) -> Seq<char>
    decreases s.len() - from,
    when 0 <= from
    via bracket_text_decreases
{
    if from >= s.len() {
        seq![]
    } else if s[from] == '(' as u8 {
        match string_end(s, from + 1) {
            Some(end) => string_text(s.subrange(from + 1, end)) + bracket_text(s, end + 1),
            None => bracket_text(s, from + 1),
        }
    } else {
        bracket_text(s, from + 1)
    }
}

#[via_fn]
proof fn bracket_text_decreases(s: Seq<u8>, from: int) {
    lemma_string_end(s, from + 1);
}

fn find_string_end(s: &[u8], from: usize) -> (end: Option<usize>)
    requires
        from <= s@.len(),
    ensures
        end is Some <==> string_end(s@, from as int) is Some,
        end matches Some(e) ==> from <= e < s@.len() && string_end(s@, from as int) == Some(e as int),
{
    let total: usize = s.len();
    let mut i: usize = from;
    while i < total
        invariant
            total == s@.len(),
            from <= i <= total,
            string_end(s@, from as int) == string_end(s@, i as int),
        decreases total - i,
    {
        if s[i] == '\\' as u8 {
            assert(string_end(s@, i as int) == string_end(s@, i + 2));
            if total - i < 2 {
                return None;
            }
            i = i + 2;
        } else if s[i] == ')' as u8 {
            return Some(i);
        } else {
            i = i + 1;
        }
    }
    None
}

/// Extracts the text of an attestation: the strings in brackets, each followed by a space.
pub fn extract_pdf_text(pdf_bytes: &[u8]) -> (out: String)
    ensures
        out@ == bracket_text(pdf_bytes@, 0),
{
    let total: usize = pdf_bytes.len();
    let mut out: String = String::new();
    let mut i: usize = 0;
    while i < total
        invariant
            total == pdf_bytes@.len(),
            i <= total,
            out@ + bracket_text(pdf_bytes@, i as int) == bracket_text(pdf_bytes@, 0),
        decreases total - i,
    {
        let ghost before = out@;
        let ghost rest = bracket_text(pdf_bytes@, i as int);
        if pdf_bytes[i] == '(' as u8 {
            if let Some(end) = find_string_end(pdf_bytes, i + 1) {
                let inside: &[u8] = &pdf_bytes[i + 1..end];
                if let Some(s) = text::utf8_text(inside) {
                    let chars: Vec<char> = text::chars_of(s);
                    text::push_chars(&mut out, chars.as_slice());
                    out.push(' ');
                    proof {
                        vstd::utf8::encode_utf8_decode_utf8(s@);
                        assert(out@ =~= before + s@.push(' '));
                    }
                }
                proof {
                    assert(out@ =~= before + string_text(inside@));
                    assert(rest == string_text(inside@) + bracket_text(pdf_bytes@, end + 1));
                    assert(out@ + bracket_text(pdf_bytes@, end + 1) =~= before + rest);
                }
                i = end + 1;
                continue;
            }
        }
        assert(rest == bracket_text(pdf_bytes@, i + 1));
        i = i + 1;
    }
    assert(out@ =~= out@ + bracket_text(pdf_bytes@, i as int));
    out
}

/// Why an attestation is refused.
#[derive(Clone, Copy, Debug, PartialEq, Eq, Structural)]
pub enum AttestationError {
    /// It carries no valid signature.
    SignatureInvalid,
    /// Its date lies in the future.
    FutureDated,
    /// It is older than ninety days.
    TooOld,
    /// It does not hold the prescribed wording.
    PhraseMissing,
}

/// The first reason to refuse an attestation at the time `now`, given whether its signature is
/// valid, in this order: the signature is not valid, the date lies in the future, it is too old, or
/// the prescribed wording is missing.
pub open spec fn objection_given(pdf: Seq<u8>, valid: bool, now: u64) -> Option<AttestationError> {
    if !valid {
        Some(AttestationError::SignatureInvalid)
    } else if now < issue_date(pdf) {
        Some(AttestationError::FutureDated)
    } else if now - issue_date(pdf) > ATTESTATION_LIFETIME {
        Some(AttestationError::TooOld)
    } else if !text::is_accredited_text(bracket_text(pdf, 0)) {
        Some(AttestationError::PhraseMissing)
    } else {
        None
    }
}

/// The first reason to refuse an attestation that carries the signature, or none, at the time
/// `now`.
pub open spec fn objection_to(
    pdf: Seq<u8>,
    signature: Option<Seq<u8>>,
    cert: Seq<u8>,
    now: u64,
) -> Option<AttestationError> {
    objection_given(pdf, pdf_signature::signature_valid(pdf, signature, cert), now)
}

/// The first reason to refuse an attestation at the time `now`.
pub open spec fn objection(pdf: Seq<u8>, cert: Seq<u8>, now: u64) -> Option<AttestationError> {
    objection_to(pdf, pdf_utils::pdf_signature(pdf), cert, now)
}

/// What is committed to for an attestation that carries the signature: the wallet, the nullifier
/// and the date of the attestation.
pub open spec fn commitment(
    pdf: Seq<u8>,
    signature: Option<Seq<u8>>,
    wallet: Seq<u8>,
) -> PublicInputsModel {
    PublicInputsModel {
        investor_wallet: wallet,
        nullifier: pdf_utils::nullifier_of(signature, pdf),
        timestamp: issue_date(pdf),
    }
}

/// What is committed to, or the reason to refuse, for an attestation that carries the signature.
pub open spec fn attestation(
    pdf: Seq<u8>,
    signature: Option<Seq<u8>>,
    cert: Seq<u8>,
    now: u64,
    wallet: Seq<u8>,
) -> Result<PublicInputsModel, AttestationError> {
    match objection_to(pdf, signature, cert, now) {
        Some(error) => Err(error),
        None => Ok(commitment(pdf, signature, wallet)),
    }
}

/// What is committed to as a mathematical value.
pub open spec fn committed_view(committed: Result<PublicInputs, AttestationError>) -> Result<
    PublicInputsModel,
    AttestationError,
> {
    match committed {
        Ok(inputs) => Ok(inputs@),
        Err(error) => Err(error),
    }
}

/// Checks the date and the wording of an attestation whose signature has been verified, and is
/// given where it is valid.
pub fn judge(
    pdf_bytes: &[u8],
    valid_signature: &Option<Vec<u8>>,
    current_timestamp: u64,
    investor_wallet: [u8; 32],
) -> (committed: Result<PublicInputs, AttestationError>)
    ensures
        committed_view(committed) == (match objection_given(
            pdf_bytes@,
            *valid_signature is Some,
            current_timestamp,
        ) {
            Some(error) => Err::<PublicInputsModel, AttestationError>(error),
            None => Ok(
                commitment(pdf_bytes@, scan::optional_bytes(*valid_signature), investor_wallet@),
            ),
        }),
{
    let signature: &Vec<u8> = match valid_signature {
        Some(signature) => signature,
        None => {
            return Err(AttestationError::SignatureInvalid);
        },
    };
    let pdf_date: u64 = extract_pdf_date(pdf_bytes);
    if current_timestamp < pdf_date {
        return Err(AttestationError::FutureDated);
    }
    if current_timestamp - pdf_date > ATTESTATION_LIFETIME {
        return Err(AttestationError::TooOld);
    }
    let pdf_text: String = extract_pdf_text(pdf_bytes);
    if !text::check_accredited_investor_phrase(pdf_text.as_str()) {
        return Err(AttestationError::PhraseMissing);
    }
    let nullifier: [u8; 32] = hashes::sha256(signature);
    Ok(PublicInputs { investor_wallet, nullifier, timestamp: pdf_date })
}

/// Checks an attestation at the time `current_timestamp`, and gives what is committed to where
/// there is no objection: the wallet, the nullifier and the date of the attestation.
pub fn attest(
    pdf_bytes: &[u8],
    docusign_cert_der: &[u8],
    current_timestamp: u64,
    investor_wallet: [u8; 32],
) -> (committed: Result<PublicInputs, AttestationError>)
    requires
        pdf_signature::is_verifiable(pdf_bytes@),
    ensures
        exists|signature: Option<Seq<u8>>| #[trigger]
            pdf_utils::may_carry(pdf_bytes@, signature) && committed_view(committed) == attestation(
                pdf_bytes@,
                signature,
                docusign_cert_der@,
                current_timestamp,
                investor_wallet@,
            ),
        pdf_utils::signature_is_certain(pdf_bytes@) ==> committed_view(committed) == attestation(
            pdf_bytes@,
            pdf_utils::pdf_signature(pdf_bytes@),
            docusign_cert_der@,
            current_timestamp,
            investor_wallet@,
        ),
{
    let valid_signature: Option<Vec<u8>> = pdf_signature::extract_valid_signature(
        pdf_bytes,
        docusign_cert_der,
    );
    judge(pdf_bytes, &valid_signature, current_timestamp, investor_wallet)
}

} // verus!
