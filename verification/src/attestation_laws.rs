//! What holds of attestations: of their signatures, nullifiers, dates and wording, and of their
//! way past the investor gate.
use vstd::prelude::*;

use crate::contents;
use crate::dates;
use crate::gate;
use crate::gate::ZkGateError;
use crate::gate_laws;
use crate::gate_laws::GateCall;
use crate::hashes;
use crate::ledger::{GateState, PublicInputsModel};
use crate::pdf_signature;
use crate::pdf_utils;
use crate::program;
use crate::program::AttestationError;
use crate::proof_encoding;
use crate::scan;
use crate::text;

verus! {

/// What the program commits to for an attestation that it takes is the digest of the very signature
/// that it has verified, and that signature is longer than a few bytes and has no padding.
pub proof fn law_commitment_is_of_the_signature(
    pdf: Seq<u8>,
    signature: Option<Seq<u8>>,
    cert: Seq<u8>,
    now: u64,
    wallet: Seq<u8>,
)
    requires
        pdf_utils::may_carry(pdf, signature),
        program::attestation(pdf, signature, cert, now, wallet) is Ok,
    ensures
        signature is Some,
        signature->0.len() > contents::MIN_SIGNATURE_LEN,
        signature->0.last() != 0,
        pdf_signature::signature_valid(pdf, signature, cert),
        program::attestation(pdf, signature, cert, now, wallet)->Ok_0.nullifier
            == hashes::sha256_digest(signature->0),
{
    pdf_utils::law_signature_has_no_padding(pdf, signature->0);
}

/// The nullifier that the program commits to is the one that is derived outside of it, for every
/// file about whose signature there is no doubt.
pub proof fn law_nullifiers_agree(pdf: Seq<u8>, signature: Option<Seq<u8>>, wallet: Seq<u8>)
    requires
        pdf_utils::signature_is_certain(pdf),
        pdf_utils::may_carry(pdf, signature),
    ensures
        program::commitment(pdf, signature, wallet).nullifier == pdf_utils::pdf_nullifier(pdf),
{
    pdf_utils::law_signature_is_certain(pdf, signature);
}

/// An attestation that carries no signature, or one that is not valid under the certificate, is
/// refused, whatever the time; under an empty certificate every attestation is.
pub proof fn law_unsigned_is_refused(
    pdf: Seq<u8>,
    signature: Option<Seq<u8>>,
    cert: Seq<u8>,
    now: u64,
)
    requires
        signature is None || cert.len() == 0 || !pdf_signature::signature_valid(pdf, signature, cert),
    ensures
        program::objection_to(pdf, signature, cert, now) == Some(AttestationError::SignatureInvalid),
{
    if cert.len() == 0 {
        pdf_signature::law_no_root_no_acceptance(pdf, signature, cert);
    }
}

/// Files with the same signature have the same nullifier.
pub proof fn law_nullifier_depends_on_signature(signature: Seq<u8>, a: Seq<u8>, b: Seq<u8>)
    ensures
        pdf_utils::nullifier_of(Some(signature), a) == pdf_utils::nullifier_of(Some(signature), b),
        pdf_utils::pdf_signature(a) is Some && pdf_utils::pdf_signature(a)
            == pdf_utils::pdf_signature(b) ==> pdf_utils::pdf_nullifier(a)
            == pdf_utils::pdf_nullifier(b),
{
}

/// What is written in hexadecimal is read back.
pub proof fn law_hex_is_read_back(bytes: Seq<u8>)
    ensures
        contents::all_hex(scan::ascii(proof_encoding::hex_text(bytes))),
        contents::hex_bytes(scan::ascii(proof_encoding::hex_text(bytes))) == bytes,
{
    let digits = scan::ascii(proof_encoding::hex_text(bytes));
    assert forall|n: int| 0 <= n < 16 implies scan::hex_digit(
        #[trigger] proof_encoding::hex_char(n) as u8,
    ) == Some(n as u8) by {
        reveal_strlit("0123456789abcdef");
    }
    assert forall|i: int| 0 <= i < digits.len() implies scan::hex_digit(#[trigger] digits[i]) == Some(
        (if i % 2 == 0 {
            bytes[i / 2] as int / 16
        } else {
            bytes[i / 2] as int % 16
        }) as u8,
    ) by {
        if i % 2 == 0 {
            assert(digits[i] == proof_encoding::hex_char(bytes[i / 2] as int / 16) as u8);
        } else {
            assert(digits[i] == proof_encoding::hex_char(bytes[i / 2] as int % 16) as u8);
        }
    }
    assert forall|i: int| 0 <= i < bytes.len() implies contents::hex_bytes(digits)[i] == bytes[i] by {
        assert(scan::hex_digit(digits[2 * i]) is Some);
        assert(scan::hex_digit(digits[2 * i + 1]) is Some);
        assert((2 * i) / 2 == i && (2 * i + 1) / 2 == i);
    }
    assert(contents::hex_bytes(digits) =~= bytes);
}

/// A blob that stands in hexadecimal in angle brackets right after the first `/Contents` is read
/// back, where it has more than five bytes and fits into the window that is searched.
pub proof fn law_inline_blob_is_read_back(before: Seq<u8>, blob: Seq<u8>, after: Seq<u8>)
    requires
        blob.len() > 5,
        2 * blob.len() + 11 <= contents::CONTENTS_WINDOW,
        ({
            let pdf = before + scan::ascii("/Contents<"@) + scan::ascii(
                proof_encoding::hex_text(blob),
            ) + scan::ascii(">"@) + after;
            scan::first_occurrence(pdf, scan::ascii("/Contents"@)) == Some(before.len() as int)
        }),
    ensures
        ({
            let pdf = before + scan::ascii("/Contents<"@) + scan::ascii(
                proof_encoding::hex_text(blob),
            ) + scan::ascii(">"@) + after;
            contents::inline_blob(pdf) == Some(blob)
        }),
{
    reveal_strlit("/Contents<");
    reveal_strlit("/Contents");
    reveal_strlit(">");
    let digits = scan::ascii(proof_encoding::hex_text(blob));
    let opening = scan::ascii("/Contents<"@);
    let closing = scan::ascii(">"@);
    let pdf = before + opening + digits + closing + after;
    law_hex_is_read_back(blob);
    scan::lemma_first_occurrence_found(pdf, scan::ascii("/Contents"@));
    let window = contents::contents_window(pdf)->0;
    let n = digits.len() as int;
    assert(window.len() >= n + 11);
    assert forall|i: int| 0 <= i < 10 implies window[i] == opening[i] by {}
    assert forall|i: int| 0 <= i < n implies window[10 + i] == #[trigger] digits[i] by {}
    assert(window[10 + n] == closing[0]);
    window.index_of_first_ensures('<' as u8);
    let start = window.index_of_first('<' as u8)->0;
    assert(window[9] == '<' as u8);
    assert(start == 9) by {
        assert(forall|i: int| 0 <= i < 9 ==> window[i] != '<' as u8);
    }
    let tail = window.subrange(9, window.len() as int);
    tail.index_of_first_ensures('>' as u8);
    assert(tail[n + 1] == '>' as u8);
    assert forall|i: int| 0 <= i < n + 1 implies tail[i] != '>' as u8 by {
        if i > 0 {
            assert(tail[i] == digits[i - 1]);
            assert(scan::hex_digit(digits[i - 1]) is Some);
        }
    }
    assert(tail.index_of_first('>' as u8) == Some(n + 1));
    assert(window.subrange(10, 10 + n) =~= digits);
}

/// A date is read alike in the program and outside of it, unless it is not UTF-8 or `D:` stands
/// twice before it.
pub proof fn law_dates_agree(s: Seq<u8>)
    requires
        vstd::utf8::valid_utf8(s),
        !dates::is_marked(dates::unmarked(s)),
    ensures
        dates::text_timestamp(s) == dates::timestamp_of(dates::unmarked(s)),
{
    reveal_with_fuel(dates::fully_unmarked, 2);
}

/// An attestation in which no date is found is refused, once ninety days have passed since the
/// beginning of time.
pub proof fn law_undated_is_refused(
    pdf: Seq<u8>,
    signature: Option<Seq<u8>>,
    cert: Seq<u8>,
    now: u64,
)
    requires
        program::creation_date(pdf) is None,
        program::bare_date(pdf) is None,
        now > program::ATTESTATION_LIFETIME,
    ensures
        program::objection_to(pdf, signature, cert, now) is Some,
{
}

/// An attestation with a valid signature and the wording is taken from its date on up to and including the ninetieth day, to the second.
pub proof fn law_ninety_days(
    pdf: Seq<u8>,
    signature: Option<Seq<u8>>,
    cert: Seq<u8>,
    now: u64,
)
    requires
        pdf_signature::signature_valid(pdf, signature, cert),
        text::is_accredited_text(program::bracket_text(pdf, 0)),
    ensures
        program::objection_to(pdf, signature, cert, now) is None <==> program::issue_date(pdf)
            <= now <= program::issue_date(pdf) + 90 * 24 * 60 * 60,
{
}

proof fn lemma_holds_part<T>(whole: Seq<T>, part: Seq<T>, needle: Seq<T>, at: int, inner: int)
    requires
        scan::occurs_at(whole, part, at),
        scan::occurs_at(part, needle, inner),
    ensures
        scan::holds(whole, needle),
{
    assert(whole.subrange(at + inner, at + inner + needle.len()) =~= whole.subrange(
        at,
        at + part.len(),
    ).subrange(inner, inner + needle.len()));
    assert(scan::occurs_at(whole, needle, at + inner));
}

/// A text in which accredited wording stands is accredited.
pub proof fn law_wording_may_stand_anywhere(text: Seq<char>, part: Seq<char>)
    requires
        scan::holds(text, part),
        text::is_accredited_text(part),
    ensures
        text::is_accredited_text(text),
{
    let at = choose|at: int| scan::occurs_at(text, part, at);
    let anchor = choose|i: int|
        scan::occurs_at(part, "excluding the value of their primary residence"@, i);
    let threshold = choose|i: int| scan::occurs_at(part, "1,000,000"@, i);
    lemma_holds_part(text, part, "excluding the value of their primary residence"@, at, anchor);
    lemma_holds_part(text, part, "1,000,000"@, at, threshold);
}

/// The two wordings that the rule prescribes, for one investor and for spouses, are both accepted.
pub proof fn law_prescribed_wording_is_accepted(text: Seq<char>)
    requires
        scan::holds(
            text,
            "net worth in excess of $1,000,000, excluding the value of their primary residence"@,
        ) || scan::holds(
            text,
            "net worth with their spouse in excess of $1,000,000, excluding the value of their primary residence"@,
        ),
    ensures
        text::is_accredited_text(text),
{
    reveal_strlit("excluding the value of their primary residence");
    reveal_strlit("1,000,000");
    let single =
        "net worth in excess of $1,000,000, excluding the value of their primary residence"@;
    let joint =
        "net worth with their spouse in excess of $1,000,000, excluding the value of their primary residence"@;
    if scan::holds(text, single) {
        reveal_strlit(
            "net worth in excess of $1,000,000, excluding the value of their primary residence",
        );
        assert(single.subrange(35, 81) =~= "excluding the value of their primary residence"@);
        assert(scan::occurs_at(single, "excluding the value of their primary residence"@, 35));
        assert(single.subrange(24, 33) =~= "1,000,000"@);
        assert(scan::occurs_at(single, "1,000,000"@, 24));
        law_wording_may_stand_anywhere(text, single);
    } else {
        reveal_strlit(
            "net worth with their spouse in excess of $1,000,000, excluding the value of their primary residence",
        );
        assert(joint.subrange(53, 99) =~= "excluding the value of their primary residence"@);
        assert(scan::occurs_at(joint, "excluding the value of their primary residence"@, 53));
        assert(joint.subrange(42, 51) =~= "1,000,000"@);
        assert(scan::occurs_at(joint, "1,000,000"@, 42));
        law_wording_may_stand_anywhere(text, joint);
    }
}

/// An attestation is accepted only once: after it has been used for one wallet it is refused
/// for every wallet, at any time and whatever happens in between; and so is every file with the same
/// signature.
pub proof fn law_attestation_serves_once(
    state: GateState,
    pdf: Seq<u8>,
    signature: Seq<u8>,
    wallet: Seq<u8>,
    calls: Seq<GateCall>,
    other_pdf: Seq<u8>,
    other_wallet: Seq<u8>,
    valid: bool,
)
    requires
        gate::outcome(state, program::commitment(pdf, Some(signature), wallet), true) is Ok,
    ensures
        gate::outcome(
            gate_laws::after_calls(
                gate_laws::after_call(
                    state,
                    GateCall::Request {
                        inputs: program::commitment(pdf, Some(signature), wallet),
                        valid: true,
                    },
                ),
                calls,
            ),
            program::commitment(other_pdf, Some(signature), other_wallet),
            valid,
        ) == Err::<GateState, ZkGateError>(ZkGateError::NullifierAlreadyUsed),
{
    gate_laws::law_replay_is_refused(
        state,
        program::commitment(pdf, Some(signature), wallet),
        calls,
        program::commitment(other_pdf, Some(signature), other_wallet),
        valid,
    );
}

/// An attestation to which the program has no objection gets its investor admitted at once: with
/// keys that are set, a valid request and a nullifier that was not used, the wallet is authorized.
pub proof fn law_attestation_authorizes(
    state: GateState,
    pdf: Seq<u8>,
    signature: Option<Seq<u8>>,
    cert: Seq<u8>,
    wallet: Seq<u8>,
)
    requires
        program::objection_to(pdf, signature, cert, state.now) is None,
        state.verification_key is Some,
        state.program_vkey_hash is Some,
        !state.entries.contains_key(pdf_utils::nullifier_of(signature, pdf)),
        state.now + gate::CREDENTIAL_LIFETIME <= u64::MAX,
    ensures
        gate::outcome(state, program::commitment(pdf, signature, wallet), true) is Ok,
        gate::authorized(
            gate_laws::after_call(
                state,
                GateCall::Request {
                    inputs: program::commitment(pdf, signature, wallet),
                    valid: true,
                },
            ),
            wallet,
        ),
{
}

/// With the keys set, a valid request and a nullifier that was not used, an attestation is taken up
/// to and including ninety days after its own date.
pub proof fn law_attestation_lasts_ninety_days(
    state: GateState,
    pdf: Seq<u8>,
    signature: Option<Seq<u8>>,
    wallet: Seq<u8>,
)
    requires
        state.verification_key is Some,
        state.program_vkey_hash is Some,
        !state.entries.contains_key(pdf_utils::nullifier_of(signature, pdf)),
    ensures
        gate::outcome(state, program::commitment(pdf, signature, wallet), true) is Ok <==> state.now
            <= program::issue_date(pdf) + 90 * 24 * 60 * 60,
{
}

/// An attestation is committed to just where its signature is valid under the certificate, its date
/// lies neither in the future nor more than ninety days back, and its text states both the words on
/// the primary residence and the threshold; then the wallet, the digest of the signature and the
/// date are. Else the first of these that fails is the reason to refuse it.
pub proof fn law_attestation_is_judged_in_order(
    pdf: Seq<u8>,
    signature: Option<Seq<u8>>,
    cert: Seq<u8>,
    now: u64,
    wallet: Seq<u8>,
)
    ensures
        ({
            let signed = pdf_signature::signature_valid(pdf, signature, cert);
            let begun = program::issue_date(pdf) <= now;
            let fresh = now <= program::issue_date(pdf) + 90 * 24 * 60 * 60;
            let worded = text::is_accredited_text(program::bracket_text(pdf, 0));
            let result = program::attestation(pdf, signature, cert, now, wallet);
            &&& result is Ok <==> signed && begun && fresh && worded
            &&& result == Err::<PublicInputsModel, AttestationError>(
                AttestationError::SignatureInvalid,
            ) <==> !signed
            &&& result == Err::<PublicInputsModel, AttestationError>(AttestationError::FutureDated)
                <==> signed && !begun
            &&& result == Err::<PublicInputsModel, AttestationError>(AttestationError::TooOld)
                <==> signed && begun && !fresh
            &&& result == Err::<PublicInputsModel, AttestationError>(AttestationError::PhraseMissing)
                <==> signed && begun && fresh && !worded
            &&& result matches Ok(inputs) ==> {
                &&& signature is Some
                &&& inputs.investor_wallet == wallet
                &&& inputs.nullifier == hashes::sha256_digest(signature->0)
                &&& inputs.timestamp == program::issue_date(pdf)
            }
            &&& program::objection_to(pdf, signature, cert, now) is None <==> result is Ok
            &&& program::objection(pdf, cert, now) == program::objection_to(
                pdf,
                pdf_utils::pdf_signature(pdf),
                cert,
                now,
            )
        }),
{
}

/// The digits of a byte are those of its two halves, the higher one first, in lower case.
pub proof fn law_hex_digits_are_lower_case(bytes: Seq<u8>, i: int)
    requires
        0 <= i < bytes.len(),
    ensures
        proof_encoding::hex_text(bytes).len() == 2 * bytes.len(),
        ({
            let high = bytes[i] as int / 16;
            let low = bytes[i] as int % 16;
            &&& proof_encoding::hex_text(bytes)[2 * i] as int == if high < 10 {
                48 + high
            } else {
                87 + high
            }
            &&& proof_encoding::hex_text(bytes)[2 * i + 1] as int == if low < 10 {
                48 + low
            } else {
                87 + low
            }
        }),
        proof_encoding::prefixed_hex(bytes) == seq!['0', 'x'] + proof_encoding::hex_text(bytes),
{
    reveal_strlit("0123456789abcdef");
    assert((2 * i) / 2 == i && (2 * i + 1) / 2 == i);
}

} // verus!
