//! What holds of reading: of the strings, dates, numbers and blobs that are found in bytes and text.
use vstd::prelude::*;

use crate::byte_range;
use crate::contents;
use crate::dates;
use crate::decimal;
use crate::program;
use crate::scan;

verus! {

proof fn lemma_string_end_shifts(a: Seq<u8>, b: Seq<u8>, from: int)
    requires
        0 <= from,
    ensures
        program::string_end(a + b, a.len() + from) == match program::string_end(b, from) {
            Some(end) => Some(a.len() + end),
            None => None,
        },
    decreases b.len() + 1 - from,
{
    let s = a + b;
    if from < b.len() {
        assert(s[a.len() + from] == b[from]);
        if b[from] == '\\' as u8 {
            lemma_string_end_shifts(a, b, from + 2);
        } else if b[from] != ')' as u8 {
            lemma_string_end_shifts(a, b, from + 1);
        }
    }
}

proof fn lemma_bracket_text_shifts(a: Seq<u8>, b: Seq<u8>, from: int)
    requires
        0 <= from,
    ensures
        program::bracket_text(a + b, a.len() + from) == program::bracket_text(b, from),
    decreases b.len() - from,
{
    let s = a + b;
    if from < b.len() {
        assert(s[a.len() + from] == b[from]);
        lemma_string_end_shifts(a, b, from + 1);
        program::lemma_string_end(b, from + 1);
        if b[from] == '(' as u8 {
            match program::string_end(b, from + 1) {
                Some(end) => {
                    lemma_bracket_text_shifts(a, b, end + 1);
                    assert(s.subrange(a.len() + from + 1, a.len() + end) =~= b.subrange(
                        from + 1,
                        end,
                    ));
                },
                None => {
                    lemma_bracket_text_shifts(a, b, from + 1);
                },
            }
        } else {
            lemma_bracket_text_shifts(a, b, from + 1);
        }
    }
}

proof fn lemma_plain_string_end(s: Seq<u8>, from: int, end: int)
    requires
        0 <= from <= end < s.len(),
        s[end] == ')' as u8,
        forall|i: int| from <= i < end ==> s[i] != ')' as u8 && s[i] != '\\' as u8,
    ensures
        program::string_end(s, from) == Some(end),
    decreases end - from,
{
    if from < end {
        lemma_plain_string_end(s, from + 1, end);
    }
}

proof fn lemma_no_string_end(s: Seq<u8>, from: int)
    requires
        0 <= from,
        forall|i: int| from <= i < s.len() ==> s[i] != ')' as u8,
    ensures
        program::string_end(s, from) is None,
    decreases s.len() + 1 - from,
{
    if from < s.len() {
        if s[from] == '\\' as u8 {
            lemma_no_string_end(s, from + 2);
        } else {
            lemma_no_string_end(s, from + 1);
        }
    }
}

/// What stands before the first opening bracket gives no text, wherever the text goes on after it:
/// nothing is lost and nothing is added.
pub proof fn law_text_before_strings_is_passed_over(before: Seq<u8>, rest: Seq<u8>)
    requires
        forall|i: int| 0 <= i < before.len() ==> before[i] != '(' as u8,
    ensures
        program::bracket_text(before, 0).len() == 0,
        program::bracket_text(before + rest, 0) == program::bracket_text(rest, 0),
    decreases before.len(),
{
    if before.len() == 0 {
        assert(before + rest =~= rest);
    } else {
        let less = before.skip(1);
        law_text_before_strings_is_passed_over(less, rest);
        lemma_bracket_text_shifts(before.take(1), less + rest, 0);
        assert(before.take(1) + (less + rest) =~= before + rest);
        lemma_bracket_text_shifts(before.take(1), less, 0);
        assert(before.take(1) + less =~= before);
        assert((before + rest)[0] == before[0]);
    }
}

/// A string in brackets gives its characters and a space, and the text goes on right after its
/// closing bracket, whatever stands there.
pub proof fn law_string_gives_its_characters(chars: Seq<char>, rest: Seq<u8>)
    requires
        forall|i: int|
            0 <= i < vstd::utf8::encode_utf8(chars).len() ==> vstd::utf8::encode_utf8(chars)[i]
                != ')' as u8 && vstd::utf8::encode_utf8(chars)[i] != '\\' as u8,
    ensures
        program::bracket_text(
            seq!['(' as u8] + vstd::utf8::encode_utf8(chars) + seq![')' as u8] + rest,
            0,
        ) == chars + seq![' '] + program::bracket_text(rest, 0),
{
    let inside = vstd::utf8::encode_utf8(chars);
    let head = seq!['(' as u8] + inside + seq![')' as u8];
    let s = head + rest;
    let end = inside.len() + 1;
    assert(s =~= seq!['(' as u8] + inside + seq![')' as u8] + rest);
    assert forall|i: int| 1 <= i < end implies s[i] != ')' as u8 && s[i] != '\\' as u8 by {
        assert(s[i] == inside[i - 1]);
    }
    assert(s[end as int] == ')' as u8);
    lemma_plain_string_end(s, 1, end as int);
    assert(s.subrange(1, end as int) =~= inside);
    vstd::utf8::encode_utf8_valid_utf8(chars);
    vstd::utf8::encode_utf8_decode_utf8(chars);
    lemma_bracket_text_shifts(head, rest, 0);
    assert(chars.push(' ') =~= chars + seq![' ']);
}

/// A byte after a backslash belongs to the string, a closing bracket too: the string goes on to the
/// next bracket.
pub proof fn law_escaped_byte_belongs_to_the_string(
    first: Seq<u8>,
    escaped: u8,
    second: Seq<u8>,
    chars: Seq<char>,
    rest: Seq<u8>,
)
    requires
        forall|i: int|
            0 <= i < first.len() ==> first[i] != ')' as u8 && first[i] != '\\' as u8,
        forall|i: int|
            0 <= i < second.len() ==> second[i] != ')' as u8 && second[i] != '\\' as u8,
        first + seq!['\\' as u8, escaped] + second == vstd::utf8::encode_utf8(chars),
    ensures
        program::bracket_text(
            seq!['(' as u8] + first + seq!['\\' as u8, escaped] + second + seq![')' as u8] + rest,
            0,
        ) == chars + seq![' '] + program::bracket_text(rest, 0),
{
    let inside = first + seq!['\\' as u8, escaped] + second;
    let head = seq!['(' as u8] + inside + seq![')' as u8];
    let s = head + rest;
    let end = inside.len() + 1;
    assert(s =~= seq!['(' as u8] + first + seq!['\\' as u8, escaped] + second + seq![')' as u8]
        + rest);
    let n = first.len() as int;
    assert(s[n + 1] == '\\' as u8);
    assert forall|i: int| n + 3 <= i < end implies s[i] != ')' as u8 && s[i] != '\\' as u8 by {
        assert(s[i] == second[i - n - 3]);
    }
    assert(s[end as int] == ')' as u8);
    lemma_plain_string_end(s, n + 3, end as int);
    assert forall|i: int| 1 <= i <= n implies s[i] != ')' as u8 && s[i] != '\\' as u8 by {
        assert(s[i] == first[i - 1]);
    }
    lemma_string_end_passes(s, 1, n + 1);
    assert(program::string_end(s, n + 1) == program::string_end(s, n + 3));
    assert(s.subrange(1, end as int) =~= inside);
    vstd::utf8::encode_utf8_valid_utf8(chars);
    vstd::utf8::encode_utf8_decode_utf8(chars);
    lemma_bracket_text_shifts(head, rest, 0);
    assert(chars.push(' ') =~= chars + seq![' ']);
}

proof fn lemma_string_end_passes(s: Seq<u8>, from: int, to: int)
    requires
        0 <= from <= to <= s.len(),
        forall|i: int| from <= i < to ==> s[i] != ')' as u8 && s[i] != '\\' as u8,
    ensures
        program::string_end(s, from) == program::string_end(s, to),
    decreases to - from,
{
    if from < to {
        lemma_string_end_passes(s, from + 1, to);
    }
}

/// The bytes can stand between the brackets of a string: each is either a backslash and the byte
/// after it, or neither a backslash nor a closing bracket.
pub open spec fn can_stand_in_brackets(inside: Seq<u8>) -> bool
    decreases inside.len(),
{
    if inside.len() == 0 {
        true
    } else if inside[0] == '\\' as u8 {
        inside.len() >= 2 && can_stand_in_brackets(inside.skip(2))
    } else {
        inside[0] != ')' as u8 && can_stand_in_brackets(inside.skip(1))
    }
}

proof fn lemma_string_end_is_found(s: Seq<u8>, from: int, end: int)
    requires
        0 <= from <= end < s.len(),
        s[end] == ')' as u8,
        can_stand_in_brackets(s.subrange(from, end)),
    ensures
        program::string_end(s, from) == Some(end),
    decreases end - from,
{
    let inside = s.subrange(from, end);
    if from < end {
        assert(inside[0] == s[from]);
        if s[from] == '\\' as u8 {
            assert(inside.skip(2) =~= s.subrange(from + 2, end));
            lemma_string_end_is_found(s, from + 2, end);
        } else {
            assert(inside.skip(1) =~= s.subrange(from + 1, end));
            lemma_string_end_is_found(s, from + 1, end);
        }
    }
}

proof fn lemma_found_string_end(s: Seq<u8>, from: int)
    requires
        0 <= from <= s.len(),
    ensures
        program::string_end(s, from) matches Some(end) ==> from <= end < s.len() && s[end]
            == ')' as u8 && can_stand_in_brackets(s.subrange(from, end)),
    decreases s.len() - from,
{
    program::lemma_string_end(s, from);
    if from < s.len() {
        if s[from] == '\\' as u8 {
            if from + 2 <= s.len() {
                lemma_found_string_end(s, from + 2);
            }
            if let Some(end) = program::string_end(s, from) {
                program::lemma_string_end(s, from + 2);
                let inside = s.subrange(from, end);
                assert(inside[0] == s[from]);
                assert(inside.skip(2) =~= s.subrange(from + 2, end));
            }
        } else if s[from] != ')' as u8 {
            lemma_found_string_end(s, from + 1);
            if let Some(end) = program::string_end(s, from) {
                let inside = s.subrange(from, end);
                assert(inside[0] == s[from]);
                assert(inside.skip(1) =~= s.subrange(from + 1, end));
            }
        } else {
            assert(s.subrange(from, from).len() == 0);
        }
    }
}

/// A string in brackets, with any number of escapes in it, gives its characters and a space where it
/// is UTF-8 and nothing where it is not, and the text goes on right after its closing bracket.
pub proof fn law_any_string_gives_its_characters(inside: Seq<u8>, rest: Seq<u8>)
    requires
        can_stand_in_brackets(inside),
    ensures
        vstd::utf8::valid_utf8(inside) ==> program::bracket_text(
            seq!['(' as u8] + inside + seq![')' as u8] + rest,
            0,
        ) == vstd::utf8::decode_utf8(inside) + seq![' '] + program::bracket_text(rest, 0),
        !vstd::utf8::valid_utf8(inside) ==> program::bracket_text(
            seq!['(' as u8] + inside + seq![')' as u8] + rest,
            0,
        ) == program::bracket_text(rest, 0),
{
    let head = seq!['(' as u8] + inside + seq![')' as u8];
    let s = head + rest;
    let end = inside.len() + 1;
    assert(s =~= seq!['(' as u8] + inside + seq![')' as u8] + rest);
    assert(s.subrange(1, end as int) =~= inside);
    assert(s[end as int] == ')' as u8);
    lemma_string_end_is_found(s, 1, end as int);
    lemma_bracket_text_shifts(head, rest, 0);
    let chars = vstd::utf8::decode_utf8(inside);
    assert(chars.push(' ') =~= chars + seq![' ']);
    assert(Seq::<char>::empty() + program::bracket_text(rest, 0) =~= program::bracket_text(rest, 0));
}

/// An opening bracket that no bracket closes is passed over, and the text goes on after it.
pub proof fn law_open_bracket_is_passed_over(rest: Seq<u8>)
    requires
        forall|n: int|
            0 <= n < rest.len() && #[trigger] rest[n] == ')' as u8 ==> !can_stand_in_brackets(
                rest.take(n),
            ),
    ensures
        program::bracket_text(seq!['(' as u8] + rest, 0) == program::bracket_text(rest, 0),
{
    let s = seq!['(' as u8] + rest;
    lemma_string_end_shifts(seq!['(' as u8], rest, 0);
    lemma_found_string_end(rest, 0);
    if let Some(end) = program::string_end(rest, 0) {
        assert(rest[end] == ')' as u8);
        assert(rest.subrange(0, end) =~= rest.take(end));
    }
    lemma_bracket_text_shifts(seq!['(' as u8], rest, 0);
}

/// A string that is not UTF-8 gives no text, and the text goes on after it.
pub proof fn law_string_that_is_no_text_is_passed_over(inside: Seq<u8>, rest: Seq<u8>)
    requires
        forall|i: int|
            0 <= i < inside.len() ==> inside[i] != ')' as u8 && inside[i] != '\\' as u8,
        !vstd::utf8::valid_utf8(inside),
    ensures
        program::bracket_text(seq!['(' as u8] + inside + seq![')' as u8] + rest, 0)
            == program::bracket_text(rest, 0),
{
    let head = seq!['(' as u8] + inside + seq![')' as u8];
    let s = head + rest;
    let end = inside.len() + 1;
    assert(s =~= seq!['(' as u8] + inside + seq![')' as u8] + rest);
    assert forall|i: int| 1 <= i < end implies s[i] != ')' as u8 && s[i] != '\\' as u8 by {
        assert(s[i] == inside[i - 1]);
    }
    assert(s[end as int] == ')' as u8);
    lemma_plain_string_end(s, 1, end as int);
    assert(s.subrange(1, end as int) =~= inside);
    lemma_bracket_text_shifts(head, rest, 0);
    assert(Seq::<char>::empty() + program::bracket_text(rest, 0) =~= program::bracket_text(rest, 0));
}

/// Where no bracket closes, there is no text, however many open.
pub proof fn law_open_string_gives_nothing(s: Seq<u8>, from: int)
    requires
        0 <= from,
        forall|i: int| 0 <= i < s.len() ==> s[i] != ')' as u8,
    ensures
        program::bracket_text(s, from).len() == 0,
    decreases s.len() - from,
{
    if from < s.len() {
        lemma_no_string_end(s, from + 1);
        law_open_string_gives_nothing(s, from + 1);
    }
}

/// Two strings give the characters of both, each followed by a space, whatever stands between them
/// without a bracket, and also where nothing does.
pub proof fn law_strings_follow_each_other(
    before: Seq<u8>,
    a: Seq<char>,
    between: Seq<u8>,
    b: Seq<char>,
    after: Seq<u8>,
)
    requires
        forall|i: int| 0 <= i < before.len() ==> before[i] != '(' as u8,
        forall|i: int| 0 <= i < between.len() ==> between[i] != '(' as u8,
        forall|i: int| 0 <= i < after.len() ==> after[i] != '(' as u8,
        vstd::utf8::is_ascii_chars(a),
        vstd::utf8::is_ascii_chars(b),
        forall|i: int| 0 <= i < a.len() ==> a[i] != ')' && a[i] != '\\',
        forall|i: int| 0 <= i < b.len() ==> b[i] != ')' && b[i] != '\\',
    ensures
        program::bracket_text(
            before + seq!['(' as u8] + vstd::utf8::encode_utf8(a) + seq![')' as u8] + between
                + seq!['(' as u8] + vstd::utf8::encode_utf8(b) + seq![')' as u8] + after,
            0,
        ) == a + seq![' '] + b + seq![' '],
{
    let open = seq!['(' as u8];
    let close = seq![')' as u8];
    let first = vstd::utf8::encode_utf8(a);
    let second = vstd::utf8::encode_utf8(b);
    vstd::utf8::is_ascii_chars_encode_utf8(a);
    vstd::utf8::is_ascii_chars_encode_utf8(b);
    assert forall|i: int| 0 <= i < first.len() implies first[i] != ')' as u8 && first[i]
        != '\\' as u8 by {
        assert(a[i] as u8 == first[i]);
    }
    assert forall|i: int| 0 <= i < second.len() implies second[i] != ')' as u8 && second[i]
        != '\\' as u8 by {
        assert(b[i] as u8 == second[i]);
    }
    let last = open + second + close + after;
    let rest = between + last;
    law_string_gives_its_characters(b, after);
    law_text_before_strings_is_passed_over(after, seq![]);
    law_text_before_strings_is_passed_over(between, last);
    law_string_gives_its_characters(a, rest);
    law_text_before_strings_is_passed_over(before, open + first + close + rest);
    assert(before + (open + first + close + rest) =~= before + open + first + close + between + open
        + second + close + after);
    assert(program::bracket_text(after, 0) =~= seq![]);
    assert(a + seq![' '] + (b + seq![' '] + seq![]) =~= a + seq![' '] + b + seq![' ']);
}

/// A blob stands inline: the first `/Contents` is at `pos`; the first `<` from there on is at `start`,
/// and the first `>` after it at `end`, both among the first four hundred bytes; and between the two
/// stand the bytes of the blob, more than five, each as two hexadecimal digits, the higher one first.
pub open spec fn blob_stands_at(
    pdf: Seq<u8>,
    pos: int,
    start: int,
    end: int,
    blob: Seq<u8>,
) -> bool {
    let key = seq![47u8, 67, 111, 110, 116, 101, 110, 116, 115];
    &&& 0 <= pos <= pdf.len() - 9
    &&& pdf.skip(pos).take(9) == key
    &&& forall|j: int| 0 <= j < pos ==> (#[trigger] pdf.skip(j)).take(9) != key
    &&& pos <= start < end < pdf.len()
    &&& end < pos + 400
    &&& pdf[start] == 60
    &&& forall|i: int| pos <= i < start ==> pdf[i] != 60
    &&& pdf[end] == 62
    &&& forall|i: int| start <= i < end ==> pdf[i] != 62
    &&& end - start - 1 == 2 * blob.len()
    &&& blob.len() > 5
    &&& forall|i: int|
        0 <= i < blob.len() ==> {
            let high = scan::hex_digit(pdf.subrange(start + 1, end)[2 * i]);
            let low = scan::hex_digit(pdf.subrange(start + 1, end)[2 * i + 1]);
            high is Some && low is Some && #[trigger] blob[i] == 16 * high->0 + low->0
        }
}

proof fn lemma_contents_key()
    ensures
        scan::ascii("/Contents"@) == seq![47u8, 67, 111, 110, 116, 101, 110, 116, 115],
{
    reveal_strlit("/Contents");
    assert(scan::ascii("/Contents"@) =~= seq![47u8, 67, 111, 110, 116, 101, 110, 116, 115]);
}

proof fn lemma_standing_blob_is_read(
    pdf: Seq<u8>,
    pos: int,
    start: int,
    end: int,
    blob: Seq<u8>,
)
    requires
        blob_stands_at(pdf, pos, start, end, blob),
    ensures
        contents::inline_blob(pdf) == Some(blob),
{
    lemma_contents_key();
    let key = scan::ascii("/Contents"@);
    scan::law_first_occurrence_is_found(pdf, key, pos);
    let window = contents::contents_window(pdf)->0;
    let open = start - pos;
    let close = end - start;
    let tail = window.subrange(open, window.len() as int);
    assert(window.index_of_first(60u8) == Some(open)) by {
        window.index_of_first_ensures(60u8);
        assert(window[open] == 60);
        assert forall|i: int| 0 <= i < open implies window[i] != 60 by {
            assert(window[i] == pdf[pos + i]);
        }
    }
    assert(tail.index_of_first(62u8) == Some(close)) by {
        tail.index_of_first_ensures(62u8);
        assert(tail[close] == 62);
        assert forall|i: int| 0 <= i < close implies tail[i] != 62 by {
            assert(tail[i] == pdf[start + i]);
        }
    }
    let body = window.subrange(open + 1, open + close);
    assert(contents::angle_body(window) == Some(body));
    assert(body =~= pdf.subrange(start + 1, end));
    assert forall|i: int| 0 <= i < body.len() implies scan::hex_digit(#[trigger] body[i]) is Some by {
        let k = i / 2;
        assert(0 <= k < blob.len());
        let byte = blob[k];
        assert(scan::hex_digit(body[2 * k]) is Some);
        assert(scan::hex_digit(body[2 * k + 1]) is Some);
        assert(i == 2 * k || i == 2 * k + 1);
    }
    assert forall|i: int| 0 <= i < blob.len() implies contents::hex_bytes(body)[i] == blob[i] by {
        assert(scan::hex_digit(body[2 * i]) is Some);
        assert(scan::hex_digit(body[2 * i + 1]) is Some);
    }
    assert(contents::hex_bytes(body) =~= blob);
}

proof fn lemma_read_blob_stands(pdf: Seq<u8>, blob: Seq<u8>) -> (places: (int, int, int))
    requires
        contents::inline_blob(pdf) == Some(blob),
    ensures
        blob_stands_at(pdf, places.0, places.1, places.2, blob),
{
    lemma_contents_key();
    let key = scan::ascii("/Contents"@);
    scan::law_first_occurrence_is_first(pdf, key);
    let pos = scan::first_occurrence(pdf, key)->0;
    let window = contents::contents_window(pdf)->0;
    window.index_of_first_ensures(60u8);
    let open = window.index_of_first(60u8)->0;
    let tail = window.subrange(open, window.len() as int);
    tail.index_of_first_ensures(62u8);
    let close = tail.index_of_first(62u8)->0;
    let start = pos + open;
    let end = start + close;
    assert(tail[0] == 60);
    let body = window.subrange(open + 1, open + close);
    assert(contents::angle_body(window) == Some(body));
    assert(pdf[start] == window[open]);
    assert(pdf[end] == tail[close]);
    assert forall|i: int| pos <= i < start implies pdf[i] != 60 by {
        assert(window[i - pos] == pdf[i]);
    }
    assert forall|i: int| start <= i < end implies pdf[i] != 62 by {
        assert(tail[i - start] == pdf[i]);
    }
    assert(body =~= pdf.subrange(start + 1, end));
    assert forall|i: int| 0 <= i < blob.len() implies {
        let high = scan::hex_digit(pdf.subrange(start + 1, end)[2 * i]);
        let low = scan::hex_digit(pdf.subrange(start + 1, end)[2 * i + 1]);
        high is Some && low is Some && #[trigger] blob[i] == 16 * high->0 + low->0
    } by {
        assert(scan::hex_digit(body[2 * i]) is Some);
        assert(scan::hex_digit(body[2 * i + 1]) is Some);
        assert(blob[i] == contents::hex_pair(body[2 * i], body[2 * i + 1]));
    }
    assert(key.len() == 9);
    assert(window.len() <= 400);
    assert(0 < close < tail.len());
    assert(body.len() == 2 * blob.len());
    assert(forall|j: int| 0 <= j < pos ==> (#[trigger] pdf.skip(j)).take(9) != key);
    assert(end < pdf.len());
    (pos, start, end)
}

/// The blob that is read inline is the one that stands there, and where none stands none is read.
pub proof fn law_inline_blob_is_what_stands_there(pdf: Seq<u8>, blob: Seq<u8>)
    ensures
        contents::inline_blob(pdf) == Some(blob) <==> exists|pos: int, start: int, end: int|
            blob_stands_at(pdf, pos, start, end, blob),
{
    if exists|pos: int, start: int, end: int| blob_stands_at(pdf, pos, start, end, blob) {
        let (pos, start, end) = choose|pos: int, start: int, end: int|
            blob_stands_at(pdf, pos, start, end, blob);
        lemma_standing_blob_is_read(pdf, pos, start, end, blob);
    }
    if contents::inline_blob(pdf) == Some(blob) {
        let places = lemma_read_blob_stands(pdf, blob);
        assert(blob_stands_at(pdf, places.0, places.1, places.2, blob));
    }
}

/// The zero bytes at the end of a blob are its padding and no other byte is; what is left is a
/// signature just where one of the bytes after the first thirty-two is not zero.
pub proof fn law_padding_is_the_zeros_at_the_end(blob: Seq<u8>)
    ensures
        contents::signature_in_padding(blob) is Some <==> exists|i: int|
            32 <= i < blob.len() && blob[i] != 0,
        contents::signature_in_padding(blob) matches Some(signature) ==> {
            &&& 32 < signature.len() <= blob.len()
            &&& signature == blob.take(signature.len() as int)
            &&& signature.last() != 0
            &&& forall|i: int| signature.len() <= i < blob.len() ==> blob[i] == 0
        },
{
    contents::lemma_without_padding(blob);
    let n = contents::without_padding(blob).len() as int;
    if n > 32 {
        assert(blob[n - 1] == blob.take(n).last());
    }
}

/// The signature that stands inline is the blob without its padding.
pub proof fn law_inline_signature_is_the_blob_without_padding(pdf: Seq<u8>, signature: Seq<u8>)
    ensures
        contents::inline_signature(pdf) == Some(signature) <==> exists|blob: Seq<u8>|
            {
                &&& #[trigger] contents::inline_blob(pdf) == Some(blob)
                &&& 32 < signature.len() <= blob.len()
                &&& signature == blob.take(signature.len() as int)
                &&& signature.last() != 0
                &&& forall|i: int| signature.len() <= i < blob.len() ==> blob[i] == 0
            },
{
    if let Some(blob) = contents::inline_blob(pdf) {
        contents::lemma_without_padding(blob);
        let trimmed = contents::without_padding(blob);
        law_padding_is_the_zeros_at_the_end(blob);
        if 32 < signature.len() <= blob.len() && signature == blob.take(signature.len() as int)
            && signature.last() != 0 && (forall|i: int|
            signature.len() <= i < blob.len() ==> blob[i] == 0) {
            let n = signature.len() as int;
            assert(blob[n - 1] == signature.last());
            if trimmed.len() < n {
                assert(blob[n - 1] == 0);
            }
            if trimmed.len() > n {
                assert(blob[trimmed.len() - 1] == trimmed.last());
            }
            assert(trimmed == signature);
        }
    }
}

/// Digits are read with the most significant first: one digit stands for itself, and what stands
/// before some digits counts ten times for each of them.
pub proof fn law_digits_are_decimal(high: Seq<char>, low: Seq<char>, digit: char)
    requires
        '0' <= digit <= '9',
    ensures
        decimal::decimal_value(seq![digit]) == digit as nat - 48,
        decimal::decimal_value(high + low) == decimal::decimal_value(high)
            * vstd::arithmetic::power::pow(10, low.len()) + decimal::decimal_value(low),
    decreases low.len(),
{
    assert(seq![digit].drop_last() =~= seq![]);
    reveal_with_fuel(decimal::decimal_value, 2);
    reveal(vstd::arithmetic::power::pow);
    let power = vstd::arithmetic::power::pow(10, low.len());
    if low.len() == 0 {
        assert(high + low =~= high);
    } else {
        let rest = low.drop_last();
        law_digits_are_decimal(high, rest, digit);
        assert((high + low).drop_last() =~= high + rest);
        let smaller = vstd::arithmetic::power::pow(10, rest.len());
        let h = decimal::decimal_value(high) as int;
        assert(power == 10 * smaller);
        assert((h * smaller) * 10 == h * (10 * smaller)) by (nonlinear_arith);
    }
}

/// A number is one or more digits, with or without a plus before them, or for a number with a sign
/// with a minus; nothing else is one.
pub proof fn law_numbers_are_digits(digits: Seq<char>, n: nat)
    ensures
        ({
            let proper = digits.len() > 0 && (forall|i: int|
                0 <= i < digits.len() ==> '0' <= #[trigger] digits[i] <= '9');
            &&& decimal::digits_value(digits) == (if proper {
                Some(decimal::decimal_value(digits))
            } else {
                None
            })
            &&& proper ==> decimal::unsigned_value(digits) == Some(decimal::decimal_value(digits))
            &&& decimal::unsigned_value(seq!['+'] + digits) == (if proper {
                Some(decimal::decimal_value(digits))
            } else {
                None
            })
            &&& proper ==> decimal::signed_value(digits) == Some(
                decimal::decimal_value(digits) as int,
            )
            &&& decimal::signed_value(seq!['-'] + digits) == (if proper {
                Some(-decimal::decimal_value(digits))
            } else {
                None
            })
            &&& decimal::signed_value(seq!['+'] + digits) == (if proper {
                Some(decimal::decimal_value(digits) as int)
            } else {
                None
            })
        }),
        digits.len() > 0 && digits[0] != '+' ==> decimal::unsigned_value(digits)
            == decimal::digits_value(digits),
        digits.len() == 0 ==> decimal::unsigned_value(digits) is None && decimal::signed_value(
            digits,
        ) is None,
{
    assert((seq!['+'] + digits).skip(1) =~= digits);
    assert((seq!['-'] + digits).skip(1) =~= digits);
    if digits.len() > 0 && (forall|i: int|
        0 <= i < digits.len() ==> '0' <= #[trigger] digits[i] <= '9') {
        assert('0' <= digits[0] <= '9');
        assert forall|i: int| 0 <= i < digits.len() implies decimal::is_digit(#[trigger] digits[i]) by {
            assert('0' <= digits[i] <= '9');
        }
    } else if digits.len() > 0 {
        let i = choose|i: int| 0 <= i < digits.len() && !('0' <= #[trigger] digits[i] <= '9');
        assert(!decimal::is_digit(digits[i]));
    }
}

proof fn lemma_split_words(s: Seq<char>, t: Seq<char>)
    ensures
        (forall|i: int| 0 <= i < t.len() ==> !decimal::is_whitespace(#[trigger] t[i]))
            ==> decimal::split_words(s + t) == (
            decimal::split_words(s).0,
            decimal::split_words(s).1 + t,
        ),
    decreases t.len(),
{
    if t.len() == 0 {
        assert(s + t =~= s);
        assert(decimal::split_words(s).1 + t =~= decimal::split_words(s).1);
    } else {
        lemma_split_words(s, t.drop_last());
        assert((s + t).drop_last() =~= s + t.drop_last());
        if forall|i: int| 0 <= i < t.len() ==> !decimal::is_whitespace(#[trigger] t[i]) {
            assert(!decimal::is_whitespace(t[t.len() - 1]));
            let word = decimal::split_words(s).1;
            assert((word + t.drop_last()).push(t.last()) =~= word + t);
        }
    }
}

proof fn lemma_words_after(s: Seq<char>, space: char, t: Seq<char>)
    requires
        decimal::is_whitespace(space),
    ensures
        decimal::split_words(s + seq![space] + t) == (
            decimal::words(s) + decimal::split_words(t).0,
            decimal::split_words(t).1,
        ),
    decreases t.len(),
{
    if t.len() == 0 {
        assert((s + seq![space] + t).drop_last() =~= s);
        assert(decimal::words(s) + seq![] =~= decimal::words(s));
    } else {
        lemma_words_after(s, space, t.drop_last());
        assert((s + seq![space] + t).drop_last() =~= s + seq![space] + t.drop_last());
        let (done, word) = decimal::split_words(t.drop_last());
        assert((decimal::words(s) + done).push(word) =~= decimal::words(s) + done.push(word));
    }
}

/// White space parts words, and nothing else does: a text without it is one word, and what stands
/// before a white space and what stands after it give their words one after the other.
pub proof fn law_white_space_parts_words(before: Seq<char>, space: char, after: Seq<char>)
    ensures
        decimal::words(seq![]).len() == 0,
        before.len() > 0 && (forall|i: int|
            0 <= i < before.len() ==> !decimal::is_whitespace(#[trigger] before[i]))
            ==> decimal::words(before) == seq![before],
        decimal::is_whitespace(space) ==> decimal::words(before + seq![space] + after)
            == decimal::words(before) + decimal::words(after),
        ({
            let code = space as u32;
            decimal::is_whitespace(space) <==> 9 <= code <= 13 || code == 32 || code == 133 || code
                == 160 || code == 5760 || 8192 <= code <= 8202 || code == 8232 || code == 8233
                || code == 8239 || code == 8287 || code == 12288
        }),
{
    if decimal::is_whitespace(space) {
        lemma_words_after(before, space, after);
        let (done, word) = decimal::split_words(after);
        assert((decimal::words(before) + done).push(word) =~= decimal::words(before) + done.push(
            word,
        ));
    }
    lemma_split_words(seq![], before);
    assert(Seq::<char>::empty() + before =~= before);
    if before.len() > 0 && (forall|i: int|
        0 <= i < before.len() ==> !decimal::is_whitespace(#[trigger] before[i])) {
        assert(decimal::split_words(before) == (Seq::<Seq<char>>::empty(), before));
        assert(decimal::words(before) =~= seq![before]);
    }
}

/// The numbers among some words come in the order of the words; a word that is no number, or one
/// too great for a machine word, is passed over.
pub proof fn law_numbers_keep_their_order(
    first: Seq<Seq<char>>,
    second: Seq<Seq<char>>,
    word: Seq<char>,
)
    ensures
        decimal::numbers_among(seq![]).len() == 0,
        decimal::numbers_among(seq![word]) == (match decimal::unsigned_value(word) {
            Some(n) => if n <= usize::MAX {
                seq![n as usize]
            } else {
                seq![]
            },
            None => seq![],
        }),
        decimal::numbers_among(first + second) == decimal::numbers_among(first)
            + decimal::numbers_among(second),
    decreases second.len(),
{
    assert(seq![word].drop_last() =~= seq![]);
    reveal_with_fuel(decimal::numbers_among, 2);
    if let Some(n) = decimal::unsigned_value(word) {
        if n <= usize::MAX {
            assert(decimal::numbers_among(seq![word]) =~= seq![n as usize]);
        }
    }
    if second.len() == 0 {
        assert(first + second =~= first);
        assert(decimal::numbers_among(first) + seq![] =~= decimal::numbers_among(first));
    } else {
        law_numbers_keep_their_order(first, second.drop_last(), word);
        assert((first + second).drop_last() =~= first + second.drop_last());
        let all = decimal::numbers_among(first) + decimal::numbers_among(second.drop_last());
        if let Some(n) = decimal::unsigned_value(second.last()) {
            if n <= usize::MAX {
                assert(all.push(n as usize) =~= decimal::numbers_among(first)
                    + decimal::numbers_among(second.drop_last()).push(n as usize));
            }
        }
    }
}

/// Four numbers stand as a byte range: the first `/ByteRange` is at `pos`; the first `[` after it is
/// at `open`, and the first `]` after that at `close`; and what stands between them is the text.
pub open spec fn range_stands_at(
    pdf: Seq<u8>,
    pos: int,
    open: int,
    close: int,
    text: Seq<char>,
) -> bool {
    let key = seq![47u8, 66, 121, 116, 101, 82, 97, 110, 103, 101];
    &&& 0 <= pos <= pdf.len() - 10
    &&& pdf.skip(pos).take(10) == key
    &&& forall|j: int| 0 <= j < pos ==> (#[trigger] pdf.skip(j)).take(10) != key
    &&& pos + 10 <= open < close < pdf.len()
    &&& pdf[open] == 91
    &&& forall|i: int| pos + 10 <= i < open ==> pdf[i] != 91
    &&& pdf[close] == 93
    &&& forall|i: int| open <= i < close ==> pdf[i] != 93
    &&& pdf.subrange(open + 1, close) == vstd::utf8::encode_utf8(text)
}

/// The byte range is made of the four numbers that stand there as words, in their order.
pub proof fn law_byte_range_is_what_stands_there(pdf: Seq<u8>, ranges: Seq<usize>)
    ensures
        byte_range::byte_range(pdf) == Some(ranges) <==> exists|
            pos: int,
            open: int,
            close: int,
            text: Seq<char>,
        |
            #[trigger] range_stands_at(pdf, pos, open, close, text) && ranges.len() == 4
                && decimal::numbers_among(decimal::words(text)) == ranges,
{
    reveal_strlit("/ByteRange");
    let key = scan::ascii("/ByteRange"@);
    assert(key =~= seq![47u8, 66, 121, 116, 101, 82, 97, 110, 103, 101]);
    scan::law_first_occurrence_is_first(pdf, key);
    if exists|pos: int, open: int, close: int, text: Seq<char>|
        #[trigger] range_stands_at(pdf, pos, open, close, text) && ranges.len() == 4
            && decimal::numbers_among(decimal::words(text)) == ranges {
        let (pos, open, close, text) = choose|pos: int, open: int, close: int, text: Seq<char>|
            #[trigger] range_stands_at(pdf, pos, open, close, text) && ranges.len() == 4
                && decimal::numbers_among(decimal::words(text)) == ranges;
        scan::law_first_occurrence_is_found(pdf, key, pos);
        let rest = pdf.skip(pos + 10);
        rest.index_of_first_ensures(91u8);
        let start = open - pos - 10;
        assert(rest[start] == 91);
        assert forall|i: int| 0 <= i < start implies rest[i] != 91 by {
            assert(rest[i] == pdf[pos + 10 + i]);
        }
        assert(rest.index_of_first(91u8) == Some(start));
        let tail = rest.subrange(start, rest.len() as int);
        tail.index_of_first_ensures(93u8);
        assert(tail[close - open] == 93);
        assert forall|i: int| 0 <= i < close - open implies tail[i] != 93 by {
            assert(tail[i] == pdf[open + i]);
        }
        assert(tail.index_of_first(93u8) == Some(close - open));
        let body = byte_range::bracket_body(rest)->0;
        assert(body =~= pdf.subrange(open + 1, close));
        vstd::utf8::encode_utf8_valid_utf8(text);
        vstd::utf8::encode_utf8_decode_utf8(text);
    }
    if byte_range::byte_range(pdf) == Some(ranges) {
        let pos = scan::first_occurrence(pdf, key)->0;
        let rest = pdf.skip(pos + 10);
        rest.index_of_first_ensures(91u8);
        let start = rest.index_of_first(91u8)->0;
        let tail = rest.subrange(start, rest.len() as int);
        tail.index_of_first_ensures(93u8);
        let end = tail.index_of_first(93u8)->0;
        let open = pos + 10 + start;
        let close = open + end;
        assert(tail[0] == 91);
        assert(pdf[open] == rest[start]);
        assert(pdf[close] == tail[end]);
        assert forall|i: int| pos + 10 <= i < open implies pdf[i] != 91 by {
            assert(rest[i - pos - 10] == pdf[i]);
        }
        assert forall|i: int| open <= i < close implies pdf[i] != 93 by {
            assert(tail[i - open] == pdf[i]);
        }
        let body = byte_range::bracket_body(rest)->0;
        assert(body =~= pdf.subrange(open + 1, close));
        let text = vstd::utf8::decode_utf8(body);
        vstd::utf8::decode_utf8_encode_utf8(body);
        assert(range_stands_at(pdf, pos, open, close, text));
    }
}

/// The covered bytes are those of the first stretch and then those of the second, where both end
/// inside the file.
pub proof fn law_covered_bytes_are_the_two_stretches(pdf: Seq<u8>, ranges: Seq<usize>)
    requires
        ranges.len() == 4,
    ensures
        byte_range::covered_bytes(pdf, ranges) is Some <==> ranges[0] + ranges[1] <= pdf.len()
            && ranges[2] + ranges[3] <= pdf.len(),
        byte_range::covered_bytes(pdf, ranges) matches Some(covered) ==> {
            &&& covered.len() == ranges[1] + ranges[3]
            &&& forall|i: int| 0 <= i < ranges[1] ==> #[trigger] covered[i] == pdf[ranges[0] + i]
            &&& forall|i: int|
                0 <= i < ranges[3] ==> covered[ranges[1] + i] == #[trigger] pdf[ranges[2] + i]
        },
{
}

/// A field of two bytes is a number where both are digits, the first one counting ten times, or where
/// a digit stands after a plus; nothing else is one.
pub proof fn law_two_digits_make_a_field(s: Seq<u8>, from: int)
    requires
        0 <= from <= s.len() - 2,
    ensures
        dates::pair_field(s, from) == (if 48 <= s[from] <= 57 && 48 <= s[from + 1] <= 57 {
            Some((10 * (s[from] - 48) + (s[from + 1] - 48)) as nat)
        } else if s[from] == 43 && 48 <= s[from + 1] <= 57 {
            Some((s[from + 1] - 48) as nat)
        } else {
            None
        }),
{
    let f = dates::field(s, from, from + 2);
    assert(f.len() == 2);
    assert(f[0] == s[from] as char);
    assert(f[1] == s[from + 1] as char);
    reveal_with_fuel(decimal::decimal_value, 3);
    assert(f.drop_last().drop_last().len() == 0);
    assert(f.drop_last().last() == f[0]);
    let g = f.skip(1);
    assert(g.len() == 1 && g[0] == f[1]);
    assert(g.drop_last().len() == 0);
    assert(decimal::is_digit(f[0]) <==> 48 <= s[from] <= 57);
    assert(decimal::is_digit(f[1]) <==> 48 <= s[from + 1] <= 57);
    assert(decimal::all_digits(f) <==> decimal::is_digit(f[0]) && decimal::is_digit(f[1]));
    assert(decimal::all_digits(g) <==> decimal::is_digit(f[1])) by {
        if decimal::all_digits(g) {
            assert(decimal::is_digit(g[0]));
        }
    }
}

/// The year is what four digits stand for, or three digits after a sign; nothing else is one.
pub proof fn law_four_digits_make_a_year(s: Seq<u8>)
    requires
        s.len() >= 4,
    ensures
        ({
            let digit = |i: int| 48 <= s[i] <= 57;
            let three = 100 * (s[1] - 48) + 10 * (s[2] - 48) + (s[3] - 48);
            dates::year_field(s) == (if digit(0) && digit(1) && digit(2) && digit(3) {
                Some(1000 * (s[0] - 48) + three)
            } else if s[0] == 43 && digit(1) && digit(2) && digit(3) {
                Some(three)
            } else if s[0] == 45 && digit(1) && digit(2) && digit(3) {
                Some(-three)
            } else {
                None
            })
        }),
{
    let f = dates::field(s, 0, 4);
    assert(f.len() == 4);
    assert(f[0] == s[0] as char);
    assert(f[1] == s[1] as char);
    assert(f[2] == s[2] as char);
    assert(f[3] == s[3] as char);
    let g = f.skip(1);
    assert(g.len() == 3 && g[0] == f[1] && g[1] == f[2] && g[2] == f[3]);
    reveal_with_fuel(decimal::decimal_value, 5);
    assert(f.drop_last().drop_last().drop_last().drop_last().len() == 0);
    assert(f.drop_last().drop_last().drop_last().last() == f[0]);
    assert(f.drop_last().drop_last().last() == f[1]);
    assert(f.drop_last().last() == f[2]);
    assert(g.drop_last().drop_last().drop_last().len() == 0);
    assert(g.drop_last().drop_last().last() == f[1]);
    assert(g.drop_last().last() == f[2]);
    assert forall|i: int| 0 <= i < 4 implies (decimal::is_digit(#[trigger] f[i]) <==> 48 <= s[i]
        <= 57) by {}
    assert(decimal::all_digits(g) <==> decimal::is_digit(f[1]) && decimal::is_digit(f[2])
        && decimal::is_digit(f[3])) by {
        if decimal::all_digits(g) {
            assert(decimal::is_digit(g[0]) && decimal::is_digit(g[1]) && decimal::is_digit(g[2]));
        }
    }
    assert(decimal::all_digits(f) <==> decimal::is_digit(f[0]) && decimal::all_digits(g)) by {
        if decimal::all_digits(f) {
            assert(decimal::is_digit(f[0]) && decimal::is_digit(f[1]) && decimal::is_digit(f[2])
                && decimal::is_digit(f[3]));
        }
    }
}

/// The days from the first of January 1970 to a day, counted in cycles of four hundred years from
/// the first of March on, so that the day of a leap year comes last.
pub open spec fn days_since_epoch(year: int, month: int, day: int) -> int {
    let y = if month <= 2 {
        year - 1
    } else {
        year
    };
    let m = if month <= 2 {
        month + 9
    } else {
        month - 3
    };
    365 * y + y / 4 - y / 100 + y / 400 + (153 * m + 2) / 5 + day - 719469
}

/// A date and a time of day have a timestamp just where the calendar has the day and the day has the
/// time, and it is the number of seconds since the epoch.
pub proof fn law_timestamps_count_seconds(
    year: int,
    month: int,
    day: int,
    hour: int,
    minute: int,
    second: int,
)
    requires
        -9999 <= year <= 9999,
    ensures
        ({
            let leap = year % 4 == 0 && (year % 100 != 0 || year % 400 == 0);
            let last = if month == 2 {
                if leap {
                    29int
                } else {
                    28
                }
            } else if month == 4 || month == 6 || month == 9 || month == 11 {
                30
            } else {
                31
            };
            let exists_day = 1 <= month <= 12 && 1 <= day <= last;
            let exists_time = 0 <= hour < 24 && 0 <= minute < 60 && 0 <= second < 60;
            let timestamp = dates::civil_timestamp(year, month, day, hour, minute, second);
            &&& timestamp is Some <==> exists_day && exists_time
            &&& timestamp matches Some(t) ==> t == days_since_epoch(year, month, day) * 86400 + hour
                * 3600 + minute * 60 + second
        }),
{
    if 1 <= month <= 12 {
        reveal_with_fuel(dates::days_before_month, 13);
        let y = year - 1;
        assert(dates::is_leap_year(year) == (year / 4 - y / 4 == 1 && (year / 100 - y / 100 != 1
            || year / 400 - y / 400 == 1)));
        assert(dates::days_before_year(year) - dates::days_before_year(1970)
            + dates::days_before_month(year, month) + day - 1 == days_since_epoch(year, month, day));
    }
}

/// A date of fourteen bytes or more is the year, the month, the day, the hour, the minute and the
/// second in this order, and what stands after the fourteenth byte is not looked at. A time before
/// the epoch comes out as its complement in 64 bits.
pub proof fn law_date_is_made_of_its_fields(s: Seq<u8>)
    ensures
        s.len() < 14 ==> dates::timestamp_of(s) is None,
        s.len() >= 14 ==> {
            let year = dates::year_field(s);
            let month = dates::pair_field(s, 4);
            let day = dates::pair_field(s, 6);
            let hour = dates::pair_field(s, 8);
            let minute = dates::pair_field(s, 10);
            let second = dates::pair_field(s, 12);
            let civil = dates::civil_timestamp(
                year->0,
                month->0 as int,
                day->0 as int,
                hour->0 as int,
                minute->0 as int,
                second->0 as int,
            );
            &&& dates::timestamp_of(s) is Some <==> year is Some && month is Some && day is Some
                && hour is Some && minute is Some && second is Some && civil is Some
            &&& dates::timestamp_of(s) matches Some(t) ==> t == (if civil->0 < 0 {
                civil->0 + 0x1_0000_0000_0000_0000
            } else {
                civil->0 as int
            })
            &&& dates::timestamp_of(s) == dates::timestamp_of(s.take(14))
        },
{
    if s.len() >= 14 {
        let t = s.take(14);
        assert(dates::field(t, 0, 4) =~= dates::field(s, 0, 4));
        assert(dates::field(t, 4, 6) =~= dates::field(s, 4, 6));
        assert(dates::field(t, 6, 8) =~= dates::field(s, 6, 8));
        assert(dates::field(t, 8, 10) =~= dates::field(s, 8, 10));
        assert(dates::field(t, 10, 12) =~= dates::field(s, 10, 12));
        assert(dates::field(t, 12, 14) =~= dates::field(s, 12, 14));
    }
}

/// `D:` before a date is dropped: once in the program, and any number of times outside of it. What
/// does not start with it stays as it is.
pub proof fn law_mark_is_dropped(s: Seq<u8>)
    ensures
        dates::unmarked(seq![68u8, 58] + s) == s,
        !(s.len() >= 2 && s[0] == 68 && s[1] == 58) ==> dates::unmarked(s) == s,
        dates::fully_unmarked(seq![68u8, 58] + s) == dates::fully_unmarked(s),
        !(s.len() >= 2 && s[0] == 68 && s[1] == 58) ==> dates::fully_unmarked(s) == s,
        vstd::utf8::valid_utf8(s) ==> dates::text_timestamp(s) == dates::timestamp_of(
            dates::fully_unmarked(s),
        ),
        !vstd::utf8::valid_utf8(s) ==> dates::text_timestamp(s) is None,
{
    assert((seq![68u8, 58] + s).skip(2) =~= s);
}

/// A date stands after the first `/CreationDate`, which is at `pos`: among the sixty-four bytes from
/// there on, the first `D:` is at `mark`, and the first bracket, space or end of a line after that
/// is at `end`.
pub open spec fn creation_date_stands_at(pdf: Seq<u8>, pos: int, mark: int, end: int) -> bool {
    let key = seq![47u8, 67, 114, 101, 97, 116, 105, 111, 110, 68, 97, 116, 101];
    &&& 0 <= pos <= pdf.len() - 13
    &&& pdf.skip(pos).take(13) == key
    &&& forall|j: int| 0 <= j < pos ==> (#[trigger] pdf.skip(j)).take(13) != key
    &&& pos <= mark <= pos + 62
    &&& mark + 2 <= pdf.len()
    &&& pdf[mark] == 68 && pdf[mark + 1] == 58
    &&& forall|j: int| pos <= j < mark ==> #[trigger] pdf[j] != 68 || pdf[j + 1] != 58
    &&& mark <= end < pdf.len()
    &&& pdf[end] == 41 || pdf[end] == 32 || pdf[end] == 10 || pdf[end] == 13
    &&& forall|i: int|
        mark <= i < end ==> #[trigger] pdf[i] != 41 && pdf[i] != 32 && pdf[i] != 10 && pdf[i] != 13
}

proof fn lemma_date_end(s: Seq<u8>, from: int)
    requires
        0 <= from,
    ensures
        match program::date_end(s, from) {
            Some(end) => {
                &&& from <= end < s.len()
                &&& s[end] == 41 || s[end] == 32 || s[end] == 10 || s[end] == 13
                &&& forall|i: int|
                    from <= i < end ==> #[trigger] s[i] != 41 && s[i] != 32 && s[i] != 10 && s[i]
                        != 13
            },
            None => forall|i: int|
                from <= i < s.len() ==> #[trigger] s[i] != 41 && s[i] != 32 && s[i] != 10 && s[i]
                    != 13,
        },
    decreases s.len() - from,
{
    if from < s.len() && !program::ends_date(s[from]) {
        lemma_date_end(s, from + 1);
    }
}

proof fn lemma_creation_key()
    ensures
        scan::ascii("/CreationDate"@)
            == seq![47u8, 67, 114, 101, 97, 116, 105, 111, 110, 68, 97, 116, 101],
        scan::ascii("D:"@) == seq![68u8, 58],
        scan::ascii("D:20"@) == seq![68u8, 58, 50, 48],
{
    reveal_strlit("/CreationDate");
    reveal_strlit("D:");
    reveal_strlit("D:20");
    assert(scan::ascii("/CreationDate"@)
        =~= seq![47u8, 67, 114, 101, 97, 116, 105, 111, 110, 68, 97, 116, 101]);
    assert(scan::ascii("D:"@) =~= seq![68u8, 58]);
    assert(scan::ascii("D:20"@) =~= seq![68u8, 58, 50, 48]);
}

proof fn lemma_two_bytes_at(s: Seq<u8>, j: int)
    requires
        0 <= j <= s.len() - 2,
    ensures
        s.skip(j).take(2) == seq![68u8, 58] <==> s[j] == 68 && s[j + 1] == 58,
{
    let two = s.skip(j).take(2);
    assert(two.len() == 2 && two[0] == s[j] && two[1] == s[j + 1]);
    if s[j] == 68 && s[j + 1] == 58 {
        assert(two =~= seq![68u8, 58]);
    }
}

/// The date after `/CreationDate` is the one that stands there, without its mark.
pub proof fn law_creation_date_is_what_stands_there(
    pdf: Seq<u8>,
    pos: int,
    mark: int,
    end: int,
)
    requires
        creation_date_stands_at(pdf, pos, mark, end),
    ensures
        end < mark + 2 ==> program::creation_date(pdf) is None,
        end >= mark + 2 ==> program::creation_date(pdf) == dates::timestamp_of(
            pdf.subrange(mark + 2, end),
        ),
{
    lemma_creation_key();
    scan::law_first_occurrence_is_found(pdf, scan::ascii("/CreationDate"@), pos);
    let window = program::window(pdf, pos, 64);
    assert forall|j: int| 0 <= j < mark - pos implies (#[trigger] window.skip(j)).take(2)
        != seq![68u8, 58] by {
        lemma_two_bytes_at(window, j);
        assert(window[j] == pdf[pos + j] && window[j + 1] == pdf[pos + j + 1]);
    }
    lemma_two_bytes_at(window, mark - pos);
    scan::law_first_occurrence_is_found(window, seq![68u8, 58], mark - pos);
    lemma_date_end(pdf, mark);
    let found = program::date_end(pdf, mark);
    if let Some(e) = found {
        if e < end {
            assert(pdf[e] != 41);
        }
        if end < e {
            assert(pdf[end] != 41);
        }
    } else {
        assert(pdf[end] != 41);
    }
    assert(found == Some(end));
    let date = pdf.subrange(mark, end);
    if end >= mark + 2 {
        assert(date[0] == 68 && date[1] == 58);
        assert(date.skip(2) =~= pdf.subrange(mark + 2, end));
    }
}

/// Where no date stands after the first `/CreationDate`, none is read from there.
pub proof fn law_creation_date_stands_somewhere(pdf: Seq<u8>) -> (places: (int, int, int))
    requires
        program::creation_date(pdf) is Some,
    ensures
        creation_date_stands_at(pdf, places.0, places.1, places.2),
{
    lemma_creation_key();
    let key = scan::ascii("/CreationDate"@);
    scan::law_first_occurrence_is_first(pdf, key);
    let pos = scan::first_occurrence(pdf, key)->0;
    let window = program::window(pdf, pos, 64);
    scan::law_first_occurrence_is_first(window, seq![68u8, 58]);
    let place = scan::first_occurrence(window, seq![68u8, 58])->0;
    let mark = pos + place;
    lemma_two_bytes_at(window, place);
    assert(window[place] == pdf[mark] && window[place + 1] == pdf[mark + 1]);
    assert forall|j: int| pos <= j < mark implies #[trigger] pdf[j] != 68 || pdf[j + 1] != 58 by {
        lemma_two_bytes_at(window, j - pos);
        assert(window.skip(j - pos).take(2) != seq![68u8, 58]);
        assert(window[j - pos] == pdf[j] && window[j - pos + 1] == pdf[j + 1]);
    }
    lemma_date_end(pdf, mark);
    let end = program::date_end(pdf, mark)->0;
    (pos, mark, end)
}

/// A date without a key is the eighteen bytes after the first `D:` before a `20`, or as many as
/// there are; where there is no such place there is no such date.
pub proof fn law_bare_date_is_what_stands_there(pdf: Seq<u8>, pos: int)
    ensures
        (forall|j: int|
            0 <= j <= pdf.len() - 4 ==> (#[trigger] pdf.skip(j)).take(4) != seq![68u8, 58, 50, 48])
            ==> program::bare_date(pdf) is None,
        0 <= pos <= pdf.len() - 4 && pdf.skip(pos).take(4) == seq![68u8, 58, 50, 48] && (forall|
            j: int,
        |
            0 <= j < pos ==> (#[trigger] pdf.skip(j)).take(4) != seq![68u8, 58, 50, 48])
            ==> program::bare_date(pdf) == dates::timestamp_of(
            pdf.subrange(
                pos + 2,
                if pos + 20 < pdf.len() {
                    pos + 20
                } else {
                    pdf.len() as int
                },
            ),
        ),
{
    lemma_creation_key();
    let key = seq![68u8, 58, 50, 48];
    scan::law_first_occurrence_is_first(pdf, key);
    if 0 <= pos <= pdf.len() - 4 && pdf.skip(pos).take(4) == key && (forall|j: int|
        0 <= j < pos ==> (#[trigger] pdf.skip(j)).take(4) != key) {
        scan::law_first_occurrence_is_found(pdf, key, pos);
        let date = program::window(pdf, pos, 20);
        assert(pdf.skip(pos).take(4)[0] == 68 && pdf.skip(pos).take(4)[1] == 58);
        assert(date[0] == pdf[pos] && date[1] == pdf[pos + 1]);
        assert(date.skip(2) =~= pdf.subrange(
            pos + 2,
            if pos + 20 < pdf.len() {
                pos + 20
            } else {
                pdf.len() as int
            },
        ));
    }
}

/// The date after `/CreationDate` goes before any other, and without any date the time is zero.
pub proof fn law_creation_date_goes_first(pdf: Seq<u8>)
    ensures
        program::creation_date(pdf) matches Some(t) ==> program::issue_date(pdf) == t,
        program::creation_date(pdf) is None && program::bare_date(pdf) is Some
            ==> program::issue_date(pdf) == program::bare_date(pdf)->0,
        program::creation_date(pdf) is None && program::bare_date(pdf) is None
            ==> program::issue_date(pdf) == 0,
{
}

} // verus!
