//! Searching byte and character sequences.
use vstd::prelude::*;

verus! {

/// Optional bytes as a mathematical value.
pub open spec fn optional_bytes(bytes: Option<Vec<u8>>) -> Option<Seq<u8>> {
    match bytes {
        Some(b) => Some(b@),
        None => None,
    }
}

/// `needle` stands in `hay` at position `at`.
pub open spec fn occurs_at<T>(hay: Seq<T>, needle: Seq<T>, at: int) -> bool {
    &&& 0 <= at
    &&& at + needle.len() <= hay.len()
    &&& hay.subrange(at, at + needle.len()) == needle
}

/// `needle` stands somewhere in `hay`.
pub open spec fn holds<T>(hay: Seq<T>, needle: Seq<T>) -> bool {
    exists|at: int| occurs_at(hay, needle, at)
}

/// `at` is the first position of `needle` in `hay`.
pub open spec fn is_first_occurrence<T>(hay: Seq<T>, needle: Seq<T>, at: int) -> bool {
    &&& occurs_at(hay, needle, at)
    &&& forall|j: int| 0 <= j < at ==> !occurs_at(hay, needle, j)
}

/// The first position of `needle` in `hay`, if it stands there at all.
pub open spec fn first_occurrence<T>(hay: Seq<T>, needle: Seq<T>) -> Option<int> {
    if holds(hay, needle) {
        Some(choose|at: int| is_first_occurrence(hay, needle, at))
    } else {
        None
    }
}

/// To stand at a position is to be what follows it.
pub proof fn law_occurrence_is_what_follows<T>(hay: Seq<T>, needle: Seq<T>, at: int)
    ensures
        occurs_at(hay, needle, at) <==> 0 <= at <= hay.len() - needle.len() && hay.skip(at).take(
            needle.len() as int,
        ) == needle,
        occurs_at(hay, needle, at) <==> 0 <= at <= hay.len() - needle.len() && forall|i: int|
            0 <= i < needle.len() ==> hay[at + i] == #[trigger] needle[i],
{
    if 0 <= at <= hay.len() - needle.len() {
        assert(hay.skip(at).take(needle.len() as int) =~= hay.subrange(at, at + needle.len()));
        if forall|i: int| 0 <= i < needle.len() ==> hay[at + i] == #[trigger] needle[i] {
            assert(hay.subrange(at, at + needle.len()) =~= needle);
        }
        if occurs_at(hay, needle, at) {
            assert forall|i: int| 0 <= i < needle.len() implies hay[at + i] == #[trigger] needle[i] by {
                assert(hay.subrange(at, at + needle.len())[i] == needle[i]);
            }
        }
    }
}

/// The first occurrence is an occurrence, none comes before it, and where there is none there is no
/// occurrence at all.
pub proof fn law_first_occurrence_is_first<T>(hay: Seq<T>, needle: Seq<T>)
    ensures
        match first_occurrence(hay, needle) {
            Some(at) => {
                &&& 0 <= at <= hay.len() - needle.len()
                &&& hay.skip(at).take(needle.len() as int) == needle
                &&& forall|j: int|
                    0 <= j < at ==> (#[trigger] hay.skip(j)).take(needle.len() as int) != needle
            },
            None => forall|j: int|
                0 <= j <= hay.len() - needle.len() ==> (#[trigger] hay.skip(j)).take(
                    needle.len() as int,
                ) != needle,
        },
{
    lemma_first_occurrence_found(hay, needle);
    match first_occurrence(hay, needle) {
        Some(at) => {
            law_occurrence_is_what_follows(hay, needle, at);
            assert forall|j: int| 0 <= j < at implies (#[trigger] hay.skip(j)).take(
                needle.len() as int,
            ) != needle by {
                law_occurrence_is_what_follows(hay, needle, j);
            }
        },
        None => {
            assert forall|j: int| 0 <= j <= hay.len() - needle.len() implies (
            #[trigger] hay.skip(j)).take(needle.len() as int) != needle by {
                law_occurrence_is_what_follows(hay, needle, j);
            }
        },
    }
}

/// Where some bytes stand at a place, and no earlier one, that is their first occurrence.
pub proof fn law_first_occurrence_is_found<T>(hay: Seq<T>, needle: Seq<T>, at: int)
    requires
        0 <= at <= hay.len() - needle.len(),
        hay.skip(at).take(needle.len() as int) == needle,
        forall|j: int| 0 <= j < at ==> (#[trigger] hay.skip(j)).take(needle.len() as int) != needle,
    ensures
        first_occurrence(hay, needle) == Some(at),
{
    law_occurrence_is_what_follows(hay, needle, at);
    assert forall|j: int| 0 <= j < at implies !occurs_at(hay, needle, j) by {
        law_occurrence_is_what_follows(hay, needle, j);
        assert(hay.skip(j).take(needle.len() as int) != needle);
    }
    lemma_first_occurrence(hay, needle, at);
}

/// There is only one first position.
pub proof fn lemma_first_occurrence<T>(hay: Seq<T>, needle: Seq<T>, at: int)
    requires
        is_first_occurrence(hay, needle, at),
    ensures
        first_occurrence(hay, needle) == Some(at),
{
    let chosen = choose|i: int| is_first_occurrence(hay, needle, i);
    assert(is_first_occurrence(hay, needle, chosen));
    if chosen < at {
        assert(!occurs_at(hay, needle, chosen));
    }
    if at < chosen {
        assert(!occurs_at(hay, needle, at));
    }
}

proof fn lemma_least_occurrence<T>(hay: Seq<T>, needle: Seq<T>, at: int) -> (first: int)
    requires
        occurs_at(hay, needle, at),
    ensures
        is_first_occurrence(hay, needle, first),
        first <= at,
    decreases at,
{
    if exists|j: int| 0 <= j < at && occurs_at(hay, needle, j) {
        let j = choose|j: int| 0 <= j < at && occurs_at(hay, needle, j);
        lemma_least_occurrence(hay, needle, j)
    } else {
        at
    }
}

/// What [`first_occurrence`] gives is indeed a first position, and it gives one exactly when
/// there is one.
pub proof fn lemma_first_occurrence_found<T>(hay: Seq<T>, needle: Seq<T>)
    ensures
        first_occurrence(hay, needle) is Some <==> holds(hay, needle),
        first_occurrence(hay, needle) matches Some(at) ==> is_first_occurrence(hay, needle, at),
{
    if holds(hay, needle) {
        let at = choose|at: int| occurs_at(hay, needle, at);
        let first = lemma_least_occurrence(hay, needle, at);
        lemma_first_occurrence(hay, needle, first);
    }
}

/// The bytes of a text in which every character is ASCII.
pub open spec fn ascii(text: Seq<char>) -> Seq<u8> {
    text.map_values(|c: char| c as u8)
}

/// The bytes of a text in which every character is ASCII.
pub fn ascii_bytes(text: &str) -> (bytes: &[u8])
    requires
        vstd::utf8::is_ascii_chars(text@),
    ensures
        bytes@ == ascii(text@),
        bytes@.len() == text@.len(),
        forall|i: int| 0 <= i < text@.len() ==> #[trigger] bytes@[i] == text@[i] as u8,
{
    proof {
        vstd::utf8::is_ascii_chars_encode_utf8(text@);
        assert(vstd::utf8::encode_utf8(text@) =~= ascii(text@));
    }
    text.as_bytes()
}

/// The value of one hexadecimal digit, in either case.
pub open spec fn hex_digit(b: u8) -> Option<u8> {
    if '0' as u8 <= b <= '9' as u8 {
        Some((b - '0' as u8) as u8)
    } else if 'a' as u8 <= b <= 'f' as u8 {
        Some((10 + b - 'a' as u8) as u8)
    } else if 'A' as u8 <= b <= 'F' as u8 {
        Some((10 + b - 'A' as u8) as u8)
    } else {
        None
    }
}

/// Reads one hexadecimal digit.
pub fn from_hex_digit(b: u8) -> (digit: Option<u8>)
    ensures
        digit == hex_digit(b),
        digit matches Some(d) ==> d < 16,
        48 <= b <= 57 ==> digit == Some((b - 48) as u8),
        65 <= b <= 70 ==> digit == Some((b - 55) as u8),
        97 <= b <= 102 ==> digit == Some((b - 87) as u8),
        b < 48 || 57 < b < 65 || 70 < b < 97 || 102 < b ==> digit is None,
{
    if b >= '0' as u8 && b <= '9' as u8 {
        Some(b - '0' as u8)
    } else if b >= 'a' as u8 && b <= 'f' as u8 {
        Some(10 + (b - 'a' as u8))
    } else if b >= 'A' as u8 && b <= 'F' as u8 {
        Some(10 + (b - 'A' as u8))
    } else {
        None
    }
}

/// Whether two byte strings are the same.
pub fn same_bytes(a: &[u8], b: &[u8]) -> (same: bool)
    ensures
        same == (a@ == b@),
{
    if a.len() != b.len() {
        return false;
    }
    let mut i: usize = 0;
    while i < a.len()
        invariant
            i <= a@.len(),
            a@.len() == b@.len(),
            forall|j: int| 0 <= j < i ==> a@[j] == b@[j],
        decreases a@.len() - i,
    {
        if a[i] != b[i] {
            return false;
        }
        i = i + 1;
    }
    assert(a@ =~= b@);
    true
}

/// The position of the first occurrence of `needle` in `haystack`.
pub fn find_subsequence(haystack: &[u8], needle: &[u8]) -> (found: Option<usize>)
    requires
        needle@.len() > 0,
    ensures
        match found {
            Some(at) => first_occurrence(haystack@, needle@) == Some(at as int)
                && is_first_occurrence(haystack@, needle@, at as int),
            None => first_occurrence(haystack@, needle@) is None && !holds(haystack@, needle@),
        },
        match found {
            Some(at) => {
                &&& at <= haystack@.len() - needle@.len()
                &&& haystack@.skip(at as int).take(needle@.len() as int) == needle@
                &&& forall|j: int|
                    0 <= j < at ==> (#[trigger] haystack@.skip(j)).take(needle@.len() as int)
                        != needle@
            },
            None => forall|j: int|
                0 <= j <= haystack@.len() - needle@.len() ==> (#[trigger] haystack@.skip(j)).take(
                    needle@.len() as int,
                ) != needle@,
        },
{
    let n: usize = needle.len();
    let mut at: usize = 0;
    while at < haystack.len() && n <= haystack.len() - at
        invariant
            at <= haystack@.len(),
            n == needle@.len(),
            n > 0,
            forall|j: int| 0 <= j < at ==> !occurs_at(haystack@, needle@, j),
        decreases haystack@.len() - at,
    {
        if same_bytes(&haystack[at..at + n], needle) {
            proof {
                lemma_first_occurrence(haystack@, needle@, at as int);
                law_first_occurrence_is_first(haystack@, needle@);
            }
            return Some(at);
        }
        at = at + 1;
    }
    proof {
        assert forall|j: int| !occurs_at(haystack@, needle@, j) by {}
        law_first_occurrence_is_first(haystack@, needle@);
    }
    None
}

/// The position of the first `b` in `s`.
pub fn position_of(s: &[u8], b: u8) -> (found: Option<usize>)
    ensures
        found is Some <==> s@.index_of_first(b) is Some,
        found matches Some(i) ==> s@.index_of_first(b) == Some(i as int) && i < s@.len(),
{
    let mut i: usize = 0;
    while i < s.len()
        invariant
            i <= s@.len(),
            forall|j: int| 0 <= j < i ==> s@[j] != b,
        decreases s@.len() - i,
    {
        if s[i] == b {
            proof {
                s@.index_of_first_ensures(b);
            }
            return Some(i);
        }
        i = i + 1;
    }
    proof {
        s@.index_of_first_ensures(b);
    }
    None
}

} // verus!
