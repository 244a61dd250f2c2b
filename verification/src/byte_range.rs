//! The two stretches of a signed PDF that its signature covers.
use vstd::prelude::*;

use crate::decimal;
use crate::scan;
use crate::text;

verus! {

/// What stands between the first `[` and the first `]` after it.
pub open spec fn bracket_body(s: Seq<u8>) -> Option<Seq<u8>> {
    match s.index_of_first('[' as u8) {
        Some(start) => match s.subrange(start, s.len() as int).index_of_first(']' as u8) {
            Some(end) => Some(s.subrange(start + 1, start + end)),
            None => None,
        },
        None => None,
    }
}

/// The four numbers that a text in UTF-8 holds, where it holds just four.
pub open spec fn four_numbers(body: Seq<u8>) -> Option<Seq<usize>> {
    let numbers = decimal::numbers_among(decimal::words(vstd::utf8::decode_utf8(body)));
    if vstd::utf8::valid_utf8(body) && numbers.len() == 4 {
        Some(numbers)
    } else {
        None
    }
}

/// The four numbers in brackets after the first `/ByteRange`: the offset and the length of each
/// of the two stretches.
pub open spec fn byte_range(pdf: Seq<u8>) -> Option<Seq<usize>> {
    match scan::first_occurrence(pdf, scan::ascii("/ByteRange"@)) {
        Some(pos) => match bracket_body(pdf.skip(pos + "/ByteRange"@.len())) {
            Some(body) => four_numbers(body),
            None => None,
        },
        None => None,
    }
}

fn read_four_numbers(body: &[u8]) -> (numbers: Option<[usize; 4]>)
    ensures
        numbers is Some <==> four_numbers(body@) is Some,
        numbers matches Some(n) ==> four_numbers(body@) == Some(n@),
{
    broadcast use vstd::utf8::encode_utf8_decode_utf8;

    match text::utf8_text(body) {
        Some(inner) => {
            let chars: Vec<char> = text::chars_of(inner);
            let found: Vec<usize> = decimal::parse_numbers(chars.as_slice());
            if found.len() == 4 {
                let numbers: [usize; 4] = [found[0], found[1], found[2], found[3]];
                assert(numbers@ =~= found@);
                Some(numbers)
            } else {
                None
            }
        },
        None => None,
    }
}

/// Reads `/ByteRange [offset length offset length]` from the raw bytes of a PDF.
pub fn extract_byte_range(pdf_bytes: &[u8]) -> (ranges: Option<[usize; 4]>)
    ensures
        ranges is Some <==> byte_range(pdf_bytes@) is Some,
        ranges matches Some(r) ==> byte_range(pdf_bytes@) == Some(r@),
{
    proof {
        reveal_strlit("/ByteRange");
    }
    let total: usize = pdf_bytes.len();
    let pos: usize = match scan::find_subsequence(pdf_bytes, scan::ascii_bytes("/ByteRange")) {
        Some(pos) => pos,
        None => {
            return None;
        },
    };
    let rest: &[u8] = &pdf_bytes[pos + 10..total];
    assert(rest@ =~= pdf_bytes@.skip(pos + "/ByteRange"@.len()));
    let start: usize = match scan::position_of(rest, '[' as u8) {
        Some(start) => start,
        None => {
            return None;
        },
    };
    let end: usize = match scan::position_of(&rest[start..rest.len()], ']' as u8) {
        Some(end) => end,
        None => {
            return None;
        },
    };
    proof {
        let tail = rest@.subrange(start as int, rest@.len() as int);
        tail.index_of_first_ensures(']' as u8);
        rest@.index_of_first_ensures('[' as u8);
        assert(tail[0] == '[' as u8);
    }
    read_four_numbers(&rest[start + 1..start + end])
}

/// The sums of each offset and its length fit in a machine word, as far as they are taken: the
/// second only where the first stretch lies inside the file.
pub open spec fn ends_fit(pdf: Seq<u8>, ranges: Seq<usize>) -> bool {
    &&& ranges[0] + ranges[1] <= usize::MAX
    &&& ranges[0] + ranges[1] <= pdf.len() ==> ranges[2] + ranges[3] <= usize::MAX
}

/// Whether the sums of each offset and its length fit in a machine word, as far as they are taken.
pub fn ends_can_be_added(pdf_bytes: &[u8], ranges: &[usize; 4]) -> (yes: bool)
    ensures
        yes == ends_fit(pdf_bytes@, ranges@),
{
    match ranges[0].checked_add(ranges[1]) {
        Some(end) => end > pdf_bytes.len() || ranges[2].checked_add(ranges[3]).is_some(),
        None => false,
    }
}

/// The bytes that the two stretches hold together, where both lie inside the file.
pub open spec fn covered_bytes(pdf: Seq<u8>, ranges: Seq<usize>) -> Option<Seq<u8>> {
    if ranges[0] + ranges[1] <= pdf.len() && ranges[2] + ranges[3] <= pdf.len() {
        Some(
            pdf.subrange(ranges[0] as int, ranges[0] + ranges[1]) + pdf.subrange(
                ranges[2] as int,
                ranges[2] + ranges[3],
            ),
        )
    } else {
        None
    }
}

/// Puts together the bytes that the two stretches hold.
pub fn collect_covered(pdf_bytes: &[u8], ranges: &[usize; 4]) -> (covered: Option<Vec<u8>>)
    requires
        ends_fit(pdf_bytes@, ranges@),
    ensures
        covered is Some <==> covered_bytes(pdf_bytes@, ranges@) is Some,
        covered matches Some(v) ==> covered_bytes(pdf_bytes@, ranges@) == Some(v@),
        covered is Some <==> ranges@[0] + ranges@[1] <= pdf_bytes@.len() && ranges@[2] + ranges@[3]
            <= pdf_bytes@.len(),
        covered matches Some(v) ==> v@ == pdf_bytes@.subrange(
            ranges@[0] as int,
            ranges@[0] + ranges@[1],
        ) + pdf_bytes@.subrange(ranges@[2] as int, ranges@[2] + ranges@[3]),
{
    let total: usize = pdf_bytes.len();
    if ranges[0] + ranges[1] > total || ranges[2] + ranges[3] > total {
        return None;
    }
    let mut covered: Vec<u8> = Vec::new();
    covered.extend_from_slice(&pdf_bytes[ranges[0]..ranges[0] + ranges[1]]);
    covered.extend_from_slice(&pdf_bytes[ranges[2]..ranges[2] + ranges[3]]);
    assert(covered@ =~= covered_bytes(pdf_bytes@, ranges@)->0);
    Some(covered)
}

} // verus!
