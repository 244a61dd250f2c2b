//! The signature blob that a signed PDF carries inline, as hexadecimal digits after `/Contents`.
use vstd::prelude::*;

use crate::scan;

verus! {

/// How many bytes from `/Contents` on are searched for the digits.
pub const CONTENTS_WINDOW: usize = 400;

/// A blob of this many bytes or fewer is not taken for a signature.
pub const MIN_SIGNATURE_LEN: usize = 32;

/// The part of the file that is searched for the digits: from the first `/Contents` on, at most
/// [`CONTENTS_WINDOW`] bytes.
pub open spec fn contents_window(pdf: Seq<u8>) -> Option<Seq<u8>> {
    match scan::first_occurrence(pdf, scan::ascii("/Contents"@)) {
        Some(pos) => Some(
            pdf.subrange(
                pos,
                if pos + CONTENTS_WINDOW < pdf.len() {
                    pos + CONTENTS_WINDOW
                } else {
                    pdf.len() as int
                },
            ),
        ),
        None => None,
    }
}

/// What stands between the first `<` of `window` and the first `>` after it.
pub open spec fn angle_body(window: Seq<u8>) -> Option<Seq<u8>> {
    match window.index_of_first('<' as u8) {
        Some(start) => match window.subrange(start, window.len() as int).index_of_first('>' as u8) {
            Some(end) => Some(window.subrange(start + 1, start + end)),
            None => None,
        },
        None => None,
    }
}

/// Every byte is a hexadecimal digit.
pub open spec fn all_hex(digits: Seq<u8>) -> bool {
    forall|i: int| 0 <= i < digits.len() ==> scan::hex_digit(#[trigger] digits[i]) is Some
}

/// The byte that two hexadecimal digits stand for.
pub open spec fn hex_pair(hi: u8, lo: u8) -> u8 {
    (scan::hex_digit(hi)->0 * 16 + scan::hex_digit(lo)->0) as u8
}

/// The bytes that a string of hexadecimal digits stands for, two digits to a byte.
pub open spec fn hex_bytes(digits: Seq<u8>) -> Seq<u8> {
    Seq::new((digits.len() / 2) as nat, |i: int| hex_pair(digits[2 * i], digits[2 * i + 1]))
}

/// The digits are taken only where they come in pairs and there are more than ten of them.
pub open spec fn decoded_body(body: Seq<u8>) -> Option<Seq<u8>> {
    if body.len() % 2 == 0 && body.len() > 10 && all_hex(body) {
        Some(hex_bytes(body))
    } else {
        None
    }
}

/// The bytes that stand as hexadecimal digits after the first `/Contents`.
pub open spec fn inline_blob(pdf: Seq<u8>) -> Option<Seq<u8>> {
    match contents_window(pdf) {
        Some(window) => match angle_body(window) {
            Some(body) => decoded_body(body),
            None => None,
        },
        None => None,
    }
}

/// `s` without the zero bytes at its end.
pub open spec fn without_padding(s: Seq<u8>) -> Seq<u8>
    decreases s.len(),
{
    if s.len() > 0 && s.last() == 0 {
        without_padding(s.drop_last())
    } else {
        s
    }
}

/// `s` without its padding, where more than [`MIN_SIGNATURE_LEN`] bytes are left.
pub open spec fn signature_in_padding(s: Seq<u8>) -> Option<Seq<u8>> {
    if without_padding(s).len() > MIN_SIGNATURE_LEN {
        Some(without_padding(s))
    } else {
        None
    }
}

/// The signature that stands inline after `/Contents`, without its padding.
pub open spec fn inline_signature(pdf: Seq<u8>) -> Option<Seq<u8>> {
    match inline_blob(pdf) {
        Some(blob) => signature_in_padding(blob),
        None => None,
    }
}

/// What is left without the padding is a prefix that does not end in zero.
pub proof fn lemma_without_padding(s: Seq<u8>)
    ensures
        without_padding(s).len() <= s.len(),
        without_padding(s) == s.take(without_padding(s).len() as int),
        without_padding(s).len() > 0 ==> without_padding(s).last() != 0,
        forall|i: int| without_padding(s).len() <= i < s.len() ==> s[i] == 0,
    decreases s.len(),
{
    if s.len() > 0 && s.last() == 0 {
        lemma_without_padding(s.drop_last());
        let n = without_padding(s).len() as int;
        assert(s.drop_last().take(n) =~= s.take(n));
        assert forall|i: int| n <= i < s.len() implies s[i] == 0 by {
            if i < s.len() - 1 {
                assert(s.drop_last()[i] == 0);
            }
        }
    } else {
        assert(s.take(s.len() as int) =~= s);
    }
}

proof fn lemma_padding_cut(s: Seq<u8>, n: int)
    requires
        0 <= n <= s.len(),
        forall|i: int| n <= i < s.len() ==> s[i] == 0,
        n > 0 ==> s[n - 1] != 0,
    ensures
        without_padding(s) == s.take(n),
    decreases s.len(),
{
    if n < s.len() {
        assert(s.last() == 0);
        lemma_padding_cut(s.drop_last(), n);
        assert(s.drop_last().take(n) =~= s.take(n));
    } else {
        assert(s.take(n) =~= s);
    }
}

/// How many bytes are left of `s` without the zero bytes at its end.
pub fn unpadded_len(s: &[u8]) -> (n: usize)
    ensures
        n <= s@.len(),
        s@.take(n as int) == without_padding(s@),
        n == without_padding(s@).len(),
{
    let mut n: usize = s.len();
    while n > 0 && s[n - 1] == 0
        invariant
            n <= s@.len(),
            forall|i: int| n <= i < s@.len() ==> s@[i] == 0,
        decreases n,
    {
        n = n - 1;
    }
    proof {
        lemma_padding_cut(s@, n as int);
    }
    n
}

/// A copy of `s` without its padding, where more than [`MIN_SIGNATURE_LEN`] bytes are left.
pub fn trimmed_signature(s: &[u8]) -> (signature: Option<Vec<u8>>)
    ensures
        signature is Some <==> signature_in_padding(s@) is Some,
        signature matches Some(v) ==> signature_in_padding(s@) == Some(v@),
{
    let n: usize = unpadded_len(s);
    if n > MIN_SIGNATURE_LEN {
        let mut out: Vec<u8> = Vec::new();
        let mut i: usize = 0;
        while i < n
            invariant
                i <= n <= s@.len(),
                out@ == s@.take(i as int),
            decreases n - i,
        {
            out.push(s[i]);
            assert(s@.take(i + 1) =~= s@.take(i as int).push(s@[i as int]));
            i = i + 1;
        }
        Some(out)
    } else {
        None
    }
}

/// Turns pairs of hexadecimal digits into bytes.
pub fn decode_body(body: &[u8]) -> (blob: Option<Vec<u8>>)
    ensures
        blob is Some <==> decoded_body(body@) is Some,
        blob matches Some(v) ==> decoded_body(body@) == Some(v@),
{
    if !(body.len() % 2 == 0 && body.len() > 10) {
        return None;
    }
    let mut out: Vec<u8> = Vec::with_capacity(body.len() / 2);
    let mut i: usize = 0;
    while i < body.len()
        invariant
            i <= body@.len(),
            i % 2 == 0,
            body@.len() % 2 == 0,
            body@.len() > 10,
            forall|j: int| 0 <= j < i ==> scan::hex_digit(#[trigger] body@[j]) is Some,
            out@ == hex_bytes(body@.take(i as int)),
        decreases body@.len() - i,
    {
        match (scan::from_hex_digit(body[i]), scan::from_hex_digit(body[i + 1])) {
            (Some(hi), Some(lo)) => {
                assert((hi << 4u8) | lo == hi * 16 + lo) by (bit_vector)
                    requires
                        hi < 16,
                        lo < 16,
                ;
                out.push((hi << 4) | lo);
                proof {
                    let before = body@.take(i as int);
                    let after = body@.take(i + 2);
                    assert(hex_bytes(after) =~= hex_bytes(before).push(
                        hex_pair(body@[i as int], body@[i + 1]),
                    ));
                }
            },
            _ => {
                return None;
            },
        }
        i = i + 2;
    }
    assert(body@.take(i as int) =~= body@);
    Some(out)
}

/// Reads the bytes that stand as hexadecimal digits after the first `/Contents`.
pub fn read_inline_blob(pdf_bytes: &[u8]) -> (blob: Option<Vec<u8>>)
    ensures
        blob is Some <==> inline_blob(pdf_bytes@) is Some,
        blob matches Some(v) ==> inline_blob(pdf_bytes@) == Some(v@),
{
    proof {
        reveal_strlit("/Contents");
    }
    let pos: usize = match scan::find_subsequence(pdf_bytes, scan::ascii_bytes("/Contents")) {
        Some(pos) => pos,
        None => {
            return None;
        },
    };
    let stop: usize = if pdf_bytes.len() - pos > CONTENTS_WINDOW {
        pos + CONTENTS_WINDOW
    } else {
        pdf_bytes.len()
    };
    let window: &[u8] = &pdf_bytes[pos..stop];
    let start: usize = match scan::position_of(window, '<' as u8) {
        Some(start) => start,
        None => {
            return None;
        },
    };
    let end: usize = match scan::position_of(&window[start..window.len()], '>' as u8) {
        Some(end) => end,
        None => {
            return None;
        },
    };
    proof {
        let tail = window@.subrange(start as int, window@.len() as int);
        tail.index_of_first_ensures('>' as u8);
        window@.index_of_first_ensures('<' as u8);
        assert(tail[0] == '<' as u8);
    }
    decode_body(&window[start + 1..start + end])
}

/// Reads the signature that stands inline after `/Contents`, without its padding.
pub fn read_inline_signature(pdf_bytes: &[u8]) -> (signature: Option<Vec<u8>>)
    ensures
        signature is Some <==> inline_signature(pdf_bytes@) is Some,
        signature matches Some(v) ==> inline_signature(pdf_bytes@) == Some(v@),
{
    match read_inline_blob(pdf_bytes) {
        Some(blob) => trimmed_signature(&blob),
        None => None,
    }
}

} // verus!
