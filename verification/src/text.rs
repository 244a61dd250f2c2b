//! Text as a sequence of characters: reading it from bytes, searching it, and building it.
use vstd::prelude::*;

use crate::scan;

verus! {

/// The text that `String::from_utf8_lossy` reads from some bytes.
pub uninterp spec fn utf8_lossy(bytes: Seq<u8>) -> Seq<char>;

/// `std::str::from_utf8`: the text that the bytes encode in UTF-8, and nothing where they do not
/// form valid UTF-8.
#[verifier::external_body]
pub(crate) fn utf8_text(bytes: &[u8]) -> (text: Option<&str>)
    ensures
        text is Some <==> vstd::utf8::valid_utf8(bytes@),
        text matches Some(s) ==> vstd::utf8::encode_utf8(s@) == bytes@,
{
    std::str::from_utf8(bytes).ok()
}

/// `String::from_utf8_lossy`: the text that valid UTF-8 encodes. Of bytes that are not valid
/// UTF-8 no more is claimed than that the text depends on them alone.
#[verifier::external_body]
pub(crate) fn lossy_text(bytes: &[u8]) -> (text: String)
    ensures
        text@ == utf8_lossy(bytes@),
        vstd::utf8::valid_utf8(bytes@) ==> vstd::utf8::encode_utf8(text@) == bytes@,
{
    String::from_utf8_lossy(bytes).into_owned()
}

/// `String::push` appends the character to the end of the text.
pub assume_specification[ String::push ](string: &mut String, c: char)
    ensures
        final(string)@ == old(string)@.push(c),
;

/// The characters of `text`.
pub fn chars_of(text: &str) -> (chars: Vec<char>)
    ensures
        chars@ == text@,
{
    let mut chars: Vec<char> = Vec::new();
    for c in it: text.chars()
        invariant
            chars@ == it.seq().take(it.index() as int),
            it.seq() == text@,
    {
        chars.push(c);
    }
    chars
}

/// Whether two texts are the same.
pub fn same_text(a: &str, b: &str) -> (same: bool)
    ensures
        same == (a@ == b@),
{
    let left: Vec<char> = chars_of(a);
    let right: Vec<char> = chars_of(b);
    if left.len() != right.len() {
        return false;
    }
    let mut i: usize = 0;
    while i < left.len()
        invariant
            i <= left@.len(),
            left@ == a@,
            right@ == b@,
            left@.len() == right@.len(),
            forall|j: int| 0 <= j < i ==> left@[j] == right@[j],
        decreases left@.len() - i,
    {
        if left[i] != right[i] {
            return false;
        }
        i = i + 1;
    }
    assert(left@ =~= right@);
    true
}

/// Appends characters to `text`.
pub fn push_chars(text: &mut String, chars: &[char])
    ensures
        final(text)@ == old(text)@ + chars@,
{
    let mut i: usize = 0;
    while i < chars.len()
        invariant
            i <= chars@.len(),
            text@ == old(text)@ + chars@.take(i as int),
        decreases chars@.len() - i,
    {
        text.push(chars[i]);
        assert(chars@.take(i + 1) =~= chars@.take(i as int).push(chars@[i as int]));
        i = i + 1;
    }
    assert(chars@.take(i as int) =~= chars@);
}

/// Whether `needle` stands in `text` at `at`.
fn matches_at(text: &[char], needle: &[char], at: usize) -> (yes: bool)
    requires
        at + needle@.len() <= text@.len(),
    ensures
        yes == scan::occurs_at(text@, needle@, at as int),
{
    let total: usize = text.len();
    let mut i: usize = 0;
    while i < needle.len()
        invariant
            i <= needle@.len(),
            total == text@.len(),
            at + needle@.len() <= text@.len(),
            forall|j: int| 0 <= j < i ==> text@[at + j] == needle@[j],
        decreases needle@.len() - i,
    {
        if text[at + i] != needle[i] {
            assert(text@.subrange(at as int, at + needle@.len())[i as int] != needle@[i as int]);
            return false;
        }
        i = i + 1;
    }
    assert(text@.subrange(at as int, at + needle@.len()) =~= needle@);
    true
}

/// The position of the first occurrence of `needle` in `text`.
pub fn find(text: &[char], needle: &[char]) -> (found: Option<usize>)
    requires
        needle@.len() > 0,
    ensures
        match found {
            Some(at) => scan::first_occurrence(text@, needle@) == Some(at as int)
                && scan::is_first_occurrence(text@, needle@, at as int),
            None => scan::first_occurrence(text@, needle@) is None && !scan::holds(text@, needle@),
        },
        match found {
            Some(at) => {
                &&& at <= text@.len() - needle@.len()
                &&& text@.skip(at as int).take(needle@.len() as int) == needle@
                &&& forall|j: int|
                    0 <= j < at ==> (#[trigger] text@.skip(j)).take(needle@.len() as int) != needle@
            },
            None => forall|j: int|
                0 <= j <= text@.len() - needle@.len() ==> (#[trigger] text@.skip(j)).take(
                    needle@.len() as int,
                ) != needle@,
        },
{
    let mut at: usize = 0;
    while at < text.len() && needle.len() <= text.len() - at
        invariant
            at <= text@.len(),
            needle@.len() > 0,
            forall|j: int| 0 <= j < at ==> !scan::occurs_at(text@, needle@, j),
        decreases text@.len() - at,
    {
        if matches_at(text, needle, at) {
            proof {
                scan::lemma_first_occurrence(text@, needle@, at as int);
                scan::law_first_occurrence_is_first(text@, needle@);
            }
            return Some(at);
        }
        at = at + 1;
    }
    proof {
        assert forall|j: int| !scan::occurs_at(text@, needle@, j) by {}
        scan::law_first_occurrence_is_first(text@, needle@);
    }
    None
}

/// The position of the first `c` in `text`.
pub fn position_of(text: &[char], c: char) -> (found: Option<usize>)
    ensures
        found is Some <==> text@.index_of_first(c) is Some,
        found matches Some(i) ==> text@.index_of_first(c) == Some(i as int) && i < text@.len(),
{
    let mut i: usize = 0;
    while i < text.len()
        invariant
            i <= text@.len(),
            forall|j: int| 0 <= j < i ==> text@[j] != c,
        decreases text@.len() - i,
    {
        if text[i] == c {
            proof {
                text@.index_of_first_ensures(c);
            }
            return Some(i);
        }
        i = i + 1;
    }
    proof {
        text@.index_of_first_ensures(c);
    }
    None
}

/// The position of the last `c` in `text`.
pub fn last_position_of(text: &[char], c: char) -> (found: Option<usize>)
    ensures
        found is Some <==> text@.index_of_last(c) is Some,
        found matches Some(i) ==> text@.index_of_last(c) == Some(i as int) && i < text@.len(),
{
    let mut i: usize = text.len();
    while i > 0
        invariant
            i <= text@.len(),
            forall|j: int| i <= j < text@.len() ==> text@[j] != c,
        decreases i,
    {
        if text[i - 1] == c {
            proof {
                text@.index_of_last_ensures(c);
            }
            return Some(i - 1);
        }
        i = i - 1;
    }
    proof {
        text@.index_of_last_ensures(c);
    }
    None
}

/// Whether `needle` stands anywhere in `text`.
pub fn contains(text: &str, needle: &str) -> (yes: bool)
    requires
        needle@.len() > 0,
    ensures
        yes == scan::holds(text@, needle@),
        yes <==> exists|at: int|
            0 <= at <= text@.len() - needle@.len() && (#[trigger] text@.skip(at)).take(
                needle@.len() as int,
            ) == needle@,
{
    let hay: Vec<char> = chars_of(text);
    let part: Vec<char> = chars_of(needle);
    find(hay.as_slice(), part.as_slice()).is_some()
}

/// The wording that SEC Rule 501(a) prescribes for an attestation of accredited status.
pub open spec fn is_accredited_text(text: Seq<char>) -> bool {
    &&& scan::holds(text, "excluding the value of their primary residence"@)
    &&& scan::holds(text, "1,000,000"@)
}

/// Checks for the SEC Rule 501(a) mandatory phrase: the anchor on the primary residence, and the
/// threshold of one million.
pub fn check_accredited_investor_phrase(text: &str) -> (accredited: bool)
    ensures
        accredited == is_accredited_text(text@),
        accredited <==> {
            &&& exists|at: int|
                0 <= at <= text@.len() - 46 && (#[trigger] text@.skip(at)).take(46)
                    == "excluding the value of their primary residence"@
            &&& exists|at: int|
                0 <= at <= text@.len() - 9 && (#[trigger] text@.skip(at)).take(9) == "1,000,000"@
        },
{
    let anchor: &str = "excluding the value of their primary residence";
    let threshold: &str = "1,000,000";
    proof {
        reveal_strlit("excluding the value of their primary residence");
        reveal_strlit("1,000,000");
    }
    contains(text, anchor) && contains(text, threshold)
}

/// A text is accredited just where the words on the primary residence and the threshold of one
/// million stand in it, each at some place; neither does without the other.
pub proof fn law_accredited_text_states_both(text: Seq<char>)
    ensures
        is_accredited_text(text) <==> {
            &&& exists|at: int|
                0 <= at <= text.len() - 46 && (#[trigger] text.skip(at)).take(46)
                    == "excluding the value of their primary residence"@
            &&& exists|at: int|
                0 <= at <= text.len() - 9 && (#[trigger] text.skip(at)).take(9) == "1,000,000"@
        },
{
    reveal_strlit("excluding the value of their primary residence");
    reveal_strlit("1,000,000");
    lemma_holds_somewhere(text, "excluding the value of their primary residence"@);
    lemma_holds_somewhere(text, "1,000,000"@);
}

proof fn lemma_holds_somewhere(text: Seq<char>, needle: Seq<char>)
    ensures
        scan::holds(text, needle) <==> exists|at: int|
            0 <= at <= text.len() - needle.len() && (#[trigger] text.skip(at)).take(
                needle.len() as int,
            ) == needle,
{
    if scan::holds(text, needle) {
        let at = choose|at: int| scan::occurs_at(text, needle, at);
        scan::law_occurrence_is_what_follows(text, needle, at);
        assert(text.skip(at).take(needle.len() as int) == needle);
    }
    if exists|at: int|
        0 <= at <= text.len() - needle.len() && (#[trigger] text.skip(at)).take(needle.len() as int)
            == needle {
        let at = choose|at: int|
            0 <= at <= text.len() - needle.len() && (#[trigger] text.skip(at)).take(
                needle.len() as int,
            ) == needle;
        scan::law_occurrence_is_what_follows(text, needle, at);
    }
}

} // verus!
