//! What the raw bytes of a PDF tell before it is parsed: how far the parser may have to go from
//! object to object for the length of a stream, and whether it always reads them alike.
//!
//! The length of a stream may be a reference to an object that is read next. It should be a
//! number, but where it is a stream with such a length itself, the parser goes on from there, one
//! call inside the other.
use vstd::prelude::*;

use crate::contents;
use crate::scan;

verus! {

/// For one length the parser may go from object to object this often. Each time takes some sixteen
/// kilobytes of stack where the parser is compiled without optimisation: a stack of two megabytes
/// holds this many and few more, one of four megabytes holds them below the deepest nesting of an
/// object.
pub const MAX_LOOKUPS: usize = 100;

/// A number of more digits than this is not read.
pub const MAX_DIGITS: usize = 10;

/// Where `name` ends in `s`, written from `at` on. A byte of it may be written as `#` and two
/// hexadecimal digits.
pub open spec fn name_end(s: Seq<u8>, at: int, name: Seq<u8>) -> Option<int>
    decreases name.len(),
{
    if name.len() == 0 {
        Some(at)
    } else if at >= s.len() {
        None
    } else if s[at] == '#' as u8 {
        if at + 2 < s.len() && scan::hex_digit(s[at + 1]) is Some && scan::hex_digit(s[at + 2]) is Some
            && contents::hex_pair(s[at + 1], s[at + 2]) == name[0] {
            name_end(s, at + 3, name.skip(1))
        } else {
            None
        }
    } else if s[at] == name[0] {
        name_end(s, at + 1, name.skip(1))
    } else {
        None
    }
}

/// Where a name that starts with `name` and whose slash stands at `at` goes on.
pub open spec fn name_at(s: Seq<u8>, at: int, name: Seq<u8>) -> Option<int> {
    if 0 <= at < s.len() && s[at] == '/' as u8 {
        name_end(s, at + 1, name)
    } else {
        None
    }
}

/// A name that starts with `Encrypt` stands somewhere.
pub open spec fn mentions_encryption(s: Seq<u8>) -> bool {
    exists|at: int| (#[trigger] name_at(s, at, scan::ascii("Encrypt"@))) is Some
}

/// White space of a PDF.
pub open spec fn is_white(b: u8) -> bool {
    b == ' ' as u8 || b == '\t' as u8 || b == '\n' as u8 || b == '\r' as u8 || b == 0 || b == 12
}

/// A decimal digit.
pub open spec fn is_digit(b: u8) -> bool {
    '0' as u8 <= b <= '9' as u8
}

/// The end of the line from `from` on.
pub open spec fn line_end(s: Seq<u8>, from: int) -> int
    decreases s.len() - from,
{
    if from < s.len() && s[from] != '\r' as u8 && s[from] != '\n' as u8 {
        line_end(s, from + 1)
    } else {
        from
    }
}

/// The first place from `from` on that belongs neither to white space nor to a comment.
pub open spec fn blanks_end(s: Seq<u8>, from: int) -> int
    decreases s.len() - from,
{
    if from >= s.len() {
        from
    } else if is_white(s[from]) {
        blanks_end(s, from + 1)
    } else if s[from] == '%' as u8 && from < line_end(s, from) < s.len() {
        blanks_end(s, line_end(s, from))
    } else {
        from
    }
}

/// The first place from `from` on that does not hold a digit.
pub open spec fn digits_end(s: Seq<u8>, from: int) -> int
    decreases s.len() - from,
{
    if from < s.len() && is_digit(s[from]) {
        digits_end(s, from + 1)
    } else {
        from
    }
}

/// The number that the digits from `from` to `to` stand for.
pub open spec fn number(s: Seq<u8>, from: int, to: int) -> nat
    decreases to - from,
{
    if to <= from {
        0
    } else {
        number(s, from, to - 1) * 10 + (s[to - 1] - '0' as u8) as nat
    }
}

/// The digits from `from` on stand for `n`, or there are so many of them that they are not read.
pub open spec fn may_be_number(s: Seq<u8>, from: int, n: nat) -> bool {
    let to = digits_end(s, from);
    to - from > MAX_DIGITS || number(s, from, to) == n
}

/// The first place from `from` on that holds neither white space nor a digit.
pub open spec fn number_end(s: Seq<u8>, from: int) -> int
    decreases s.len() - from,
{
    if from < s.len() && (is_white(s[from]) || is_digit(s[from])) {
        number_end(s, from + 1)
    } else {
        from
    }
}

/// At `at` stands a name that starts with `Length` and is not followed by a number and the next
/// name or the end of the dictionary. Every length that is a reference is one of these.
pub open spec fn length_reference_at(s: Seq<u8>, at: int) -> bool {
    match name_at(s, at, scan::ascii("Length"@)) {
        Some(end) => {
            let next = number_end(s, end);
            next < s.len() && s[next] != '/' as u8 && s[next] != '>' as u8
        },
        None => false,
    }
}

/// At `at` stands a length that may be a reference to an object with the number `n`.
pub open spec fn refers_at(s: Seq<u8>, at: int, n: nat) -> bool {
    &&& length_reference_at(s, at)
    &&& {
        let from = blanks_end(s, name_at(s, at, scan::ascii("Length"@))->0);
        from < s.len() && is_digit(s[from]) && may_be_number(s, from, n)
    }
}

/// Some length may be a reference to an object with the number `n`.
pub open spec fn is_referred_to(s: Seq<u8>, n: nat) -> bool {
    exists|at: int| refers_at(s, at, n)
}

/// The bytes of `word` stand at `at`.
pub open spec fn stands_at(s: Seq<u8>, at: int, word: Seq<u8>) -> bool {
    at + word.len() <= s.len() && s.subrange(at, at + word.len()) == word
}

/// At `at` stands the head of an object that is a dictionary or a stream: its number, its
/// generation, `obj`, and `<<`.
pub open spec fn dictionary_at(s: Seq<u8>, at: int) -> bool {
    &&& 0 <= at < s.len()
    &&& is_digit(s[at])
    &&& at == 0 || !is_digit(s[at - 1])
    &&& {
        let generation = blanks_end(s, digits_end(s, at));
        let keyword = blanks_end(s, digits_end(s, generation));
        &&& stands_at(s, keyword, scan::ascii("obj"@))
        &&& stands_at(s, blanks_end(s, keyword + 3), scan::ascii("<<"@))
    }
}

/// At `at` stands the head of a dictionary or a stream to which some length may refer.
pub open spec fn lookup_at(s: Seq<u8>, at: int) -> bool {
    &&& dictionary_at(s, at)
    &&& digits_end(s, at) - at > MAX_DIGITS || is_referred_to(s, number(s, at, digits_end(s, at)))
}

/// How many of the first `n` places hold a length that may be a reference.
pub open spec fn length_references(s: Seq<u8>, n: int) -> nat
    decreases n,
{
    if n <= 0 {
        0
    } else {
        length_references(s, n - 1) + (if length_reference_at(s, n - 1) {
            1nat
        } else {
            0
        })
    }
}

/// How many of the first `n` places hold the head of an object to which some length may refer.
pub open spec fn lookups(s: Seq<u8>, n: int) -> nat
    decreases n,
{
    if n <= 0 {
        0
    } else {
        lookups(s, n - 1) + (if lookup_at(s, n - 1) {
            1nat
        } else {
            0
        })
    }
}

/// At `at` stands a name that starts with `W`, and what follows may be an array whose second entry
/// is not an array: the widths that every cross-reference stream has.
pub open spec fn widths_at(s: Seq<u8>, at: int) -> bool {
    match name_at(s, at, scan::ascii("W"@)) {
        Some(end) => {
            let open = blanks_end(s, end);
            let first = blanks_end(s, open + 1);
            let second = blanks_end(s, digits_end(s, first));
            &&& open < s.len()
            &&& s[open] == '[' as u8
            &&& second < s.len()
            &&& s[second] != '[' as u8
        },
        None => false,
    }
}

/// The file may hold a cross-reference stream, and so objects that are packed into streams.
pub open spec fn has_widths(s: Seq<u8>) -> bool {
    exists|at: int| widths_at(s, at)
}

/// Where the digits from `at` on end, if what starts there looks like an entry of a
/// cross-reference table for an object in use: at the start of a line, two numbers and `n`, with
/// a space between them.
pub open spec fn table_entry_at(s: Seq<u8>, at: int) -> Option<int> {
    let offset_end = digits_end(s, at);
    let generation_end = digits_end(s, offset_end + 1);
    if 0 < at < s.len() && (s[at - 1] == '\r' as u8 || s[at - 1] == '\n' as u8) && is_digit(s[at])
        && generation_end + 1 < s.len() && s[offset_end] == ' ' as u8 && s[generation_end]
        == ' ' as u8 && s[generation_end + 1] == 'n' as u8 {
        Some(offset_end)
    } else {
        None
    }
}

/// The place lies inside of a number.
pub open spec fn inside_number(s: Seq<u8>, at: int) -> bool {
    0 < at < s.len() && is_digit(s[at - 1]) && is_digit(s[at])
}

/// Where the file begins: offsets are counted from the first `%PDF-`.
pub open spec fn header_place(s: Seq<u8>) -> int {
    match scan::first_occurrence(s, scan::ascii("%PDF-"@)) {
        Some(at) => at,
        None => 0,
    }
}

/// An entry of a cross-reference table at `at` points into a number, or its offset is not read.
pub open spec fn misleads_at(s: Seq<u8>, at: int) -> bool {
    match table_entry_at(s, at) {
        Some(end) => end - at > MAX_DIGITS || inside_number(s, header_place(s) + number(s, at, end)),
        None => false,
    }
}

/// No entry of a cross-reference table points into a number.
pub open spec fn has_clear_offsets(s: Seq<u8>) -> bool {
    forall|at: int| !misleads_at(s, at)
}

/// The parser does not go too often from object to object for a length. Where no object is packed
/// into a stream and each object starts at its number, that is so where few lengths refer to
/// objects that are not numbers, however many refer to numbers. Where objects may be packed, the
/// bytes do not show which ones are, and a length that refers to one leads on to the stream that
/// holds it, so that all lengths that are references may stand in one chain; then there have to be
/// few of these.
pub open spec fn is_loadable(s: Seq<u8>) -> bool {
    length_references(s, s.len() as int) <= MAX_LOOKUPS || (!has_widths(s) && has_clear_offsets(s)
        && lookups(s, s.len() as int) <= MAX_LOOKUPS)
}

/// The parser gives the same document each time: the file does not mention encryption, or no object
/// is packed into a stream. The packed objects of an encrypted file are taken in no fixed order.
pub open spec fn reads_alike(s: Seq<u8>) -> bool {
    !mentions_encryption(s) || !has_widths(s)
}

proof fn lemma_name_end(s: Seq<u8>, at: int, name: Seq<u8>)
    requires
        0 <= at <= s.len(),
    ensures
        name_end(s, at, name) matches Some(end) ==> at <= end <= s.len(),
    decreases name.len(),
{
    if name.len() > 0 && at < s.len() {
        if s[at] == '#' as u8 {
            if at + 2 < s.len() {
                lemma_name_end(s, at + 3, name.skip(1));
            }
        } else {
            lemma_name_end(s, at + 1, name.skip(1));
        }
    }
}

fn find_name_end(s: &[u8], at: usize, name: &[u8]) -> (end: Option<usize>)
    requires
        at <= s@.len(),
    ensures
        end is Some <==> name_end(s@, at as int, name@) is Some,
        end matches Some(e) ==> at <= e <= s@.len() && name_end(s@, at as int, name@) == Some(e as int),
{
    let total: usize = s.len();
    let mut place: usize = at;
    let mut i: usize = 0;
    assert(name@.skip(0) =~= name@);
    while i < name.len()
        invariant
            total == s@.len(),
            at <= place <= total,
            i <= name@.len(),
            name_end(s@, at as int, name@) == name_end(s@, place as int, name@.skip(i as int)),
        decreases name@.len() - i,
    {
        assert(name@.skip(i as int).skip(1) =~= name@.skip(i + 1));
        if place >= total {
            return None;
        }
        if s[place] == '#' as u8 {
            if total - place <= 2 {
                return None;
            }
            match (scan::from_hex_digit(s[place + 1]), scan::from_hex_digit(s[place + 2])) {
                (Some(hi), Some(lo)) => {
                    if hi * 16 + lo != name[i] {
                        return None;
                    }
                },
                _ => {
                    return None;
                },
            }
            place = place + 3;
        } else if s[place] == name[i] {
            place = place + 1;
        } else {
            return None;
        }
        i = i + 1;
    }
    Some(place)
}

fn white(b: u8) -> (yes: bool)
    ensures
        yes == is_white(b),
{
    b == ' ' as u8 || b == '\t' as u8 || b == '\n' as u8 || b == '\r' as u8 || b == 0 || b == 12
}

fn digit(b: u8) -> (yes: bool)
    ensures
        yes == is_digit(b),
{
    b >= '0' as u8 && b <= '9' as u8
}

fn find_line_end(s: &[u8], from: usize) -> (end: usize)
    requires
        from <= s@.len(),
    ensures
        end == line_end(s@, from as int),
        from <= end <= s@.len(),
{
    let mut end: usize = from;
    while end < s.len() && s[end] != '\r' as u8 && s[end] != '\n' as u8
        invariant
            from <= end <= s@.len(),
            line_end(s@, from as int) == line_end(s@, end as int),
        decreases s@.len() - end,
    {
        end = end + 1;
    }
    end
}

fn find_blanks_end(s: &[u8], from: usize) -> (end: usize)
    requires
        from <= s@.len(),
    ensures
        end == blanks_end(s@, from as int),
        from <= end <= s@.len(),
{
    let mut end: usize = from;
    while end < s.len()
        invariant
            from <= end <= s@.len(),
            blanks_end(s@, from as int) == blanks_end(s@, end as int),
        decreases s@.len() - end,
    {
        if white(s[end]) {
            end = end + 1;
        } else if s[end] == '%' as u8 {
            let stop: usize = find_line_end(s, end);
            if stop <= end || stop >= s.len() {
                return end;
            }
            end = stop;
        } else {
            return end;
        }
    }
    end
}

fn find_digits_end(s: &[u8], from: usize) -> (end: usize)
    requires
        from <= s@.len(),
    ensures
        end == digits_end(s@, from as int),
        from <= end <= s@.len(),
        forall|i: int| from <= i < end ==> is_digit(#[trigger] s@[i]),
{
    let mut end: usize = from;
    while end < s.len() && digit(s[end])
        invariant
            from <= end <= s@.len(),
            digits_end(s@, from as int) == digits_end(s@, end as int),
            forall|i: int| from <= i < end ==> is_digit(#[trigger] s@[i]),
        decreases s@.len() - end,
    {
        end = end + 1;
    }
    end
}

/// How many digits stand from `from` on, where there are not more than are read.
fn few_digits_end(s: &[u8], from: usize) -> (end: Option<usize>)
    requires
        from <= s@.len(),
    ensures
        end is Some <==> digits_end(s@, from as int) - from <= MAX_DIGITS,
        end matches Some(e) ==> e == digits_end(s@, from as int) && from <= e <= s@.len() && (
        forall|i: int| from <= i < e ==> is_digit(#[trigger] s@[i])),
{
    let mut end: usize = from;
    while end < s.len() && digit(s[end])
        invariant
            from <= end <= s@.len(),
            end - from <= MAX_DIGITS,
            digits_end(s@, from as int) == digits_end(s@, end as int),
            forall|i: int| from <= i < end ==> is_digit(#[trigger] s@[i]),
        decreases s@.len() - end,
    {
        if end - from >= MAX_DIGITS {
            proof {
                lemma_digits_end(s@, end + 1);
            }
            return None;
        }
        end = end + 1;
    }
    Some(end)
}

proof fn lemma_digits_end(s: Seq<u8>, from: int)
    requires
        from <= s.len(),
    ensures
        from <= digits_end(s, from) <= s.len(),
    decreases s.len() - from,
{
    if from < s.len() && is_digit(s[from]) {
        lemma_digits_end(s, from + 1);
    }
}

fn read_number(s: &[u8], from: usize, to: usize) -> (value: u64)
    requires
        from <= to <= s@.len(),
        to - from <= MAX_DIGITS,
        forall|i: int| from <= i < to ==> is_digit(#[trigger] s@[i]),
    ensures
        value == number(s@, from as int, to as int),
{
    let mut value: u64 = 0;
    let mut i: usize = from;
    let mut bound: u64 = 1;
    while i < to
        invariant
            from <= i <= to <= s@.len(),
            to - from <= MAX_DIGITS,
            forall|j: int| from <= j < to ==> is_digit(#[trigger] s@[j]),
            value == number(s@, from as int, i as int),
            value < bound,
            bound <= power_of_ten(i - from),
        decreases to - i,
    {
        proof {
            reveal_with_fuel(power_of_ten, 12);
            lemma_power_of_ten(i - from, 9);
        }
        assert(is_digit(s@[i as int]));
        value = value * 10 + (s[i] - '0' as u8) as u64;
        bound = bound * 10;
        i = i + 1;
    }
    value
}

spec fn power_of_ten(n: int) -> nat
    decreases n,
{
    if n <= 0 {
        1
    } else {
        10 * power_of_ten(n - 1)
    }
}

proof fn lemma_power_of_ten(n: int, m: int)
    requires
        n <= m,
    ensures
        power_of_ten(n) <= power_of_ten(m),
    decreases m,
{
    if n < m && m > 0 {
        lemma_power_of_ten(n, m - 1);
    }
}

/// Where the name `Length` of a length that may be a reference ends.
fn find_length_reference(s: &[u8], at: usize) -> (end: Option<usize>)
    requires
        at < s@.len(),
    ensures
        end is Some <==> length_reference_at(s@, at as int),
        end matches Some(e) ==> e <= s@.len() && name_at(s@, at as int, scan::ascii("Length"@)) == Some(
            e as int,
        ),
{
    proof {
        reveal_strlit("Length");
    }
    if s[at] != '/' as u8 {
        return None;
    }
    let total: usize = s.len();
    let end: usize = match find_name_end(s, at + 1, scan::ascii_bytes("Length")) {
        Some(end) => end,
        None => {
            return None;
        },
    };
    let mut next: usize = end;
    while next < total && (white(s[next]) || digit(s[next]))
        invariant
            total == s@.len(),
            end <= next <= total,
            number_end(s@, end as int) == number_end(s@, next as int),
        decreases total - next,
    {
        next = next + 1;
    }
    if next < total && s[next] != '/' as u8 && s[next] != '>' as u8 {
        Some(end)
    } else {
        None
    }
}

/// The numbers of the objects to which lengths may refer.
struct Targets {
    /// Some length may refer to any object.
    any: bool,
    numbers: Vec<u64>,
    /// How many lengths may be references.
    count: usize,
}

/// The number is one of the targets.
spec fn is_target(targets: Targets, n: nat) -> bool {
    targets.any || exists|j: int| 0 <= j < targets.numbers@.len() && #[trigger] targets.numbers@[j] == n
}

fn collect_targets(s: &[u8]) -> (targets: Targets)
    ensures
        targets.count == length_references(s@, s@.len() as int),
        forall|n: nat| is_target(targets, n) <==> #[trigger] is_referred_to(s@, n),
{
    let mut targets = Targets { any: false, numbers: Vec::new(), count: 0 };
    let mut i: usize = 0;
    while i < s.len()
        invariant
            i <= s@.len(),
            targets.count <= i,
            targets.count == length_references(s@, i as int),
            forall|n: nat|
                is_target(targets, n) ==> exists|at: int| 0 <= at < i && #[trigger] refers_at(s@, at, n),
            forall|at: int, n: nat|
                0 <= at < i && #[trigger] refers_at(s@, at, n) ==> is_target(targets, n),
        decreases s@.len() - i,
    {
        let ghost before = targets;
        if let Some(end) = find_length_reference(s, i) {
            targets.count = targets.count + 1;
            let from: usize = find_blanks_end(s, end);
            if from < s.len() && digit(s[from]) {
                match few_digits_end(s, from) {
                    Some(to) => {
                        let value: u64 = read_number(s, from, to);
                        targets.numbers.push(value);
                        proof {
                            assert(refers_at(s@, i as int, value as nat));
                            assert(targets.numbers@[before.numbers@.len() as int] == value);
                            assert forall|n: nat| is_target(before, n) implies is_target(targets, n) by {
                                if !before.any {
                                    let j = choose|j: int|
                                        0 <= j < before.numbers@.len() && before.numbers@[j] == n;
                                    assert(targets.numbers@[j] == n);
                                }
                            }
                        }
                    },
                    None => {
                        targets.any = true;
                    },
                }
            }
        }
        proof {
            assert forall|n: nat| #[trigger] is_target(targets, n) implies exists|at: int|
                0 <= at < i + 1 && #[trigger] refers_at(s@, at, n) by {
                if is_target(before, n) {
                    let at = choose|at: int| 0 <= at < i && #[trigger] refers_at(s@, at, n);
                    assert(refers_at(s@, at, n));
                } else {
                    if !targets.any {
                        let j = choose|j: int|
                            0 <= j < targets.numbers@.len() && #[trigger] targets.numbers@[j] == n;
                        if j < before.numbers@.len() {
                            assert(before.numbers@[j] == n);
                        }
                    }
                    assert(refers_at(s@, i as int, n));
                }
            }
            assert forall|at: int, n: nat| 0 <= at < i + 1 && #[trigger] refers_at(s@, at, n) implies is_target(
                targets,
                n,
            ) by {
                if at < i {
                    assert(is_target(before, n));
                }
            }
        }
        i = i + 1;
    }
    proof {
        assert forall|n: nat| #[trigger] is_referred_to(s@, n) implies is_target(targets, n) by {
            let at = choose|at: int| refers_at(s@, at, n);
            assert(refers_at(s@, at, n));
        }
        assert forall|n: nat| is_target(targets, n) implies #[trigger] is_referred_to(s@, n) by {
            let at = choose|at: int| 0 <= at < s@.len() && refers_at(s@, at, n);
            assert(refers_at(s@, at, n));
        }
    }
    targets
}

fn word_stands_at(s: &[u8], at: usize, word: &[u8]) -> (yes: bool)
    requires
        at <= s@.len(),
    ensures
        yes == stands_at(s@, at as int, word@),
{
    if s.len() - at < word.len() {
        return false;
    }
    scan::same_bytes(&s[at..at + word.len()], word)
}

fn is_dictionary(s: &[u8], at: usize) -> (yes: bool)
    requires
        at < s@.len(),
    ensures
        yes == dictionary_at(s@, at as int),
{
    proof {
        reveal_strlit("obj");
        reveal_strlit("<<");
    }
    if !digit(s[at]) || (at > 0 && digit(s[at - 1])) {
        return false;
    }
    let generation: usize = find_blanks_end(s, find_digits_end(s, at));
    let keyword: usize = find_blanks_end(s, find_digits_end(s, generation));
    if !word_stands_at(s, keyword, scan::ascii_bytes("obj")) {
        return false;
    }
    word_stands_at(s, find_blanks_end(s, keyword + 3), scan::ascii_bytes("<<"))
}

fn holds_number(numbers: &[u64], n: u64) -> (yes: bool)
    ensures
        yes == (exists|j: int| 0 <= j < numbers@.len() && #[trigger] numbers@[j] == n),
{
    let mut i: usize = 0;
    while i < numbers.len()
        invariant
            i <= numbers@.len(),
            forall|j: int| 0 <= j < i ==> #[trigger] numbers@[j] != n,
        decreases numbers@.len() - i,
    {
        if numbers[i] == n {
            return true;
        }
        i = i + 1;
    }
    false
}

fn is_lookup(s: &[u8], at: usize, targets: &Targets) -> (yes: bool)
    requires
        at < s@.len(),
        forall|n: nat| is_target(*targets, n) <==> #[trigger] is_referred_to(s@, n),
    ensures
        yes == lookup_at(s@, at as int),
{
    if !digit(s[at]) || (at > 0 && digit(s[at - 1])) {
        return false;
    }
    match few_digits_end(s, at) {
        Some(to) => {
            let value: u64 = read_number(s, at, to);
            assert(is_target(*targets, value as nat) <==> is_referred_to(s@, value as nat));
            (targets.any || holds_number(&targets.numbers, value)) && is_dictionary(s, at)
        },
        None => is_dictionary(s, at),
    }
}

fn count_lookups(s: &[u8], targets: &Targets) -> (count: usize)
    requires
        forall|n: nat| is_target(*targets, n) <==> #[trigger] is_referred_to(s@, n),
    ensures
        count == lookups(s@, s@.len() as int),
{
    let mut count: usize = 0;
    let mut i: usize = 0;
    while i < s.len()
        invariant
            i <= s@.len(),
            count <= i,
            count == lookups(s@, i as int),
            forall|n: nat| is_target(*targets, n) <==> #[trigger] is_referred_to(s@, n),
        decreases s@.len() - i,
    {
        if is_lookup(s, i, targets) {
            count = count + 1;
        }
        i = i + 1;
    }
    count
}

fn is_widths(s: &[u8], at: usize) -> (yes: bool)
    requires
        at < s@.len(),
    ensures
        yes == widths_at(s@, at as int),
{
    proof {
        reveal_strlit("W");
    }
    if s[at] != '/' as u8 {
        return false;
    }
    let end: usize = match find_name_end(s, at + 1, scan::ascii_bytes("W")) {
        Some(end) => end,
        None => {
            return false;
        },
    };
    let open: usize = find_blanks_end(s, end);
    if open >= s.len() || s[open] != '[' as u8 {
        return false;
    }
    let first: usize = find_blanks_end(s, open + 1);
    let second: usize = find_blanks_end(s, find_digits_end(s, first));
    second < s.len() && s[second] != '[' as u8
}

fn may_have_widths(s: &[u8]) -> (yes: bool)
    ensures
        yes == has_widths(s@),
{
    let mut i: usize = 0;
    while i < s.len()
        invariant
            i <= s@.len(),
            forall|at: int| 0 <= at < i ==> !(#[trigger] widths_at(s@, at)),
        decreases s@.len() - i,
    {
        if is_widths(s, i) {
            return true;
        }
        i = i + 1;
    }
    false
}

fn find_table_entry(s: &[u8], at: usize) -> (end: Option<usize>)
    requires
        at < s@.len(),
    ensures
        end is Some <==> table_entry_at(s@, at as int) is Some,
        end matches Some(e) ==> table_entry_at(s@, at as int) == Some(e as int),
{
    if at == 0 || !(s[at - 1] == '\r' as u8 || s[at - 1] == '\n' as u8) || !digit(s[at]) {
        return None;
    }
    let total: usize = s.len();
    let offset_end: usize = find_digits_end(s, at);
    if offset_end >= total || s[offset_end] != ' ' as u8 {
        proof {
            if offset_end >= total {
                lemma_digits_end_past(s@, offset_end + 1);
            }
        }
        return None;
    }
    let generation_end: usize = find_digits_end(s, offset_end + 1);
    if total - generation_end >= 2 && s[generation_end] == ' ' as u8 && s[generation_end + 1]
        == 'n' as u8 {
        Some(offset_end)
    } else {
        None
    }
}

proof fn lemma_digits_end_past(s: Seq<u8>, from: int)
    requires
        from > s.len(),
    ensures
        digits_end(s, from) == from,
{
}

fn misleads(s: &[u8], at: usize, header: usize) -> (yes: bool)
    requires
        at < s@.len(),
        header == header_place(s@),
        header <= s@.len(),
    ensures
        yes == misleads_at(s@, at as int),
{
    match find_table_entry(s, at) {
        Some(_) => match few_digits_end(s, at) {
            Some(end) => {
                let offset: u64 = read_number(s, at, end);
                let rest: usize = s.len() - header;
                if offset >= rest as u64 {
                    return false;
                }
                let place: usize = header + offset as usize;
                place > 0 && digit(s[place - 1]) && digit(s[place])
            },
            None => true,
        },
        None => false,
    }
}

fn offsets_are_clear(s: &[u8]) -> (yes: bool)
    ensures
        yes == has_clear_offsets(s@),
{
    proof {
        reveal_strlit("%PDF-");
    }
    let header: usize = match scan::find_subsequence(s, scan::ascii_bytes("%PDF-")) {
        Some(at) => at,
        None => 0,
    };
    let mut i: usize = 0;
    while i < s.len()
        invariant
            i <= s@.len(),
            header == header_place(s@),
            header <= s@.len(),
            forall|at: int| 0 <= at < i ==> !(#[trigger] misleads_at(s@, at)),
        decreases s@.len() - i,
    {
        if misleads(s, i, header) {
            return false;
        }
        i = i + 1;
    }
    true
}

/// Whether the parser does not go too often from object to object for a length.
pub fn can_be_loaded(s: &[u8]) -> (yes: bool)
    ensures
        yes == is_loadable(s@),
{
    let targets: Targets = collect_targets(s);
    targets.count <= MAX_LOOKUPS || (!may_have_widths(s) && offsets_are_clear(s) && count_lookups(
        s,
        &targets,
    ) <= MAX_LOOKUPS)
}

} // verus!
