//! Whitespace, words and decimal numbers in text.
use vstd::prelude::*;

verus! {

/// The characters with the Unicode property `White_Space`.
pub open spec fn is_whitespace(c: char) -> bool {
    ||| '\u{9}' <= c <= '\u{d}'
    ||| c == ' '
    ||| c == '\u{85}'
    ||| c == '\u{a0}'
    ||| c == '\u{1680}'
    ||| '\u{2000}' <= c <= '\u{200a}'
    ||| c == '\u{2028}'
    ||| c == '\u{2029}'
    ||| c == '\u{202f}'
    ||| c == '\u{205f}'
    ||| c == '\u{3000}'
}

/// Whether `c` is white space.
pub fn whitespace(c: char) -> (yes: bool)
    ensures
        yes == is_whitespace(c),
{
    (c >= '\u{9}' && c <= '\u{d}') || c == ' ' || c == '\u{85}' || c == '\u{a0}' || c == '\u{1680}'
        || (c >= '\u{2000}' && c <= '\u{200a}') || c == '\u{2028}' || c == '\u{2029}' || c
        == '\u{202f}' || c == '\u{205f}' || c == '\u{3000}'
}

/// A decimal digit.
pub open spec fn is_digit(c: char) -> bool {
    '0' <= c <= '9'
}

/// Every character is a decimal digit.
pub open spec fn all_digits(s: Seq<char>) -> bool {
    forall|i: int| 0 <= i < s.len() ==> is_digit(#[trigger] s[i])
}

/// The number that a string of decimal digits stands for.
pub open spec fn decimal_value(s: Seq<char>) -> nat
    decreases s.len(),
{
    if s.len() == 0 {
        0
    } else {
        decimal_value(s.drop_last()) * 10 + (s.last() as nat - '0' as nat) as nat
    }
}

/// The number that `s` stands for where it is a string of at least one digit.
pub open spec fn digits_value(s: Seq<char>) -> Option<nat> {
    if s.len() > 0 && all_digits(s) {
        Some(decimal_value(s))
    } else {
        None
    }
}

/// The number that `s` stands for where it is one or more digits, with or without a `+` before
/// them.
pub open spec fn unsigned_value(s: Seq<char>) -> Option<nat> {
    if s.len() > 0 && s[0] == '+' {
        digits_value(s.skip(1))
    } else {
        digits_value(s)
    }
}

/// The number that `s` stands for where it is one or more digits, with or without a sign before
/// them.
pub open spec fn signed_value(s: Seq<char>) -> Option<int> {
    if s.len() > 0 && s[0] == '-' {
        match digits_value(s.skip(1)) {
            Some(n) => Some(-n),
            None => None,
        }
    } else {
        match unsigned_value(s) {
            Some(n) => Some(n as int),
            None => None,
        }
    }
}

proof fn lemma_decimal_prefix(s: Seq<char>, n: int)
    requires
        0 <= n <= s.len(),
    ensures
        decimal_value(s.take(n)) <= decimal_value(s),
    decreases s.len(),
{
    if n < s.len() {
        assert(s.drop_last().take(n) =~= s.take(n));
        lemma_decimal_prefix(s.drop_last(), n);
    } else {
        assert(s.take(n) =~= s);
    }
}

/// A number of `n` digits is below the `n`-th power of ten.
pub proof fn lemma_decimal_bound(s: Seq<char>)
    requires
        all_digits(s),
    ensures
        s.len() <= 1 ==> decimal_value(s) < 10,
        s.len() <= 2 ==> decimal_value(s) < 100,
        s.len() <= 3 ==> decimal_value(s) < 1000,
        s.len() <= 4 ==> decimal_value(s) < 10000,
    decreases s.len(),
{
    if s.len() > 0 {
        assert(is_digit(s.last()));
        assert(all_digits(s.drop_last()));
        lemma_decimal_bound(s.drop_last());
    }
}

/// Reads a string of digits.
pub fn parse_digits(s: &[char]) -> (value: Option<usize>)
    ensures
        value is Some <==> (digits_value(s@) matches Some(n) && n <= usize::MAX),
        value matches Some(v) ==> digits_value(s@) == Some(v as nat),
{
    if s.len() == 0 {
        return None;
    }
    let mut total: usize = 0;
    let mut i: usize = 0;
    assert(s@.take(0).len() == 0);
    while i < s.len()
        invariant
            i <= s@.len(),
            s@.len() > 0,
            forall|j: int| 0 <= j < i ==> is_digit(#[trigger] s@[j]),
            total == decimal_value(s@.take(i as int)),
        decreases s@.len() - i,
    {
        let c: char = s[i];
        if !(c >= '0' && c <= '9') {
            assert(!is_digit(s@[i as int]));
            return None;
        }
        let digit: usize = (c as u32 - '0' as u32) as usize;
        proof {
            assert(s@.take(i + 1).drop_last() =~= s@.take(i as int));
            assert(s@.take(i + 1).last() == c);
            lemma_decimal_prefix(s@, i + 1);
        }
        match total.checked_mul(10) {
            Some(tens) => match tens.checked_add(digit) {
                Some(sum) => {
                    total = sum;
                },
                None => {
                    return None;
                },
            },
            None => {
                return None;
            },
        }
        i = i + 1;
    }
    assert(s@.take(i as int) =~= s@);
    Some(total)
}

/// Reads a number without a minus sign.
pub fn parse_unsigned(s: &[char]) -> (value: Option<usize>)
    ensures
        value is Some <==> (unsigned_value(s@) matches Some(n) && n <= usize::MAX),
        value matches Some(v) ==> unsigned_value(s@) == Some(v as nat),
{
    if s.len() > 0 && s[0] == '+' {
        assert(s@.subrange(1, s@.len() as int) =~= s@.skip(1));
        parse_digits(&s[1..s.len()])
    } else {
        parse_digits(s)
    }
}

/// The words of `s` that white space has ended, and the characters of the word after them.
pub open spec fn split_words(s: Seq<char>) -> (Seq<Seq<char>>, Seq<char>)
    decreases s.len(),
{
    if s.len() == 0 {
        (seq![], seq![])
    } else {
        let (done, word) = split_words(s.drop_last());
        if is_whitespace(s.last()) {
            (
                if word.len() > 0 {
                    done.push(word)
                } else {
                    done
                },
                seq![],
            )
        } else {
            (done, word.push(s.last()))
        }
    }
}

/// The longest runs of characters of `s` that are not white space, in order.
pub open spec fn words(s: Seq<char>) -> Seq<Seq<char>> {
    let (done, word) = split_words(s);
    if word.len() > 0 {
        done.push(word)
    } else {
        done
    }
}

/// The numbers among some words, in order: a word that is none is passed over.
pub open spec fn numbers_among(words: Seq<Seq<char>>) -> Seq<usize>
    decreases words.len(),
{
    if words.len() == 0 {
        seq![]
    } else {
        let before = numbers_among(words.drop_last());
        match unsigned_value(words.last()) {
            Some(n) => if n <= usize::MAX {
                before.push(n as usize)
            } else {
                before
            },
            None => before,
        }
    }
}

proof fn lemma_numbers_push(words: Seq<Seq<char>>, word: Seq<char>)
    ensures
        numbers_among(words.push(word)) == match unsigned_value(word) {
            Some(n) => if n <= usize::MAX {
                numbers_among(words).push(n as usize)
            } else {
                numbers_among(words)
            },
            None => numbers_among(words),
        },
{
    assert(words.push(word).drop_last() =~= words);
}

/// Reads the numbers that stand in `text` as words of their own.
pub fn parse_numbers(text: &[char]) -> (numbers: Vec<usize>)
    ensures
        numbers@ == numbers_among(words(text@)),
{
    let mut numbers: Vec<usize> = Vec::new();
    let mut word: Vec<char> = Vec::new();
    let mut i: usize = 0;
    assert(text@.take(0).len() == 0);
    while i < text.len()
        invariant
            i <= text@.len(),
            numbers@ == numbers_among(split_words(text@.take(i as int)).0),
            word@ == split_words(text@.take(i as int)).1,
        decreases text@.len() - i,
    {
        let ghost done = split_words(text@.take(i as int)).0;
        proof {
            assert(text@.take(i + 1).drop_last() =~= text@.take(i as int));
            assert(text@.take(i + 1).last() == text@[i as int]);
            lemma_numbers_push(done, word@);
        }
        if whitespace(text[i]) {
            if word.len() > 0 {
                match parse_unsigned(word.as_slice()) {
                    Some(n) => {
                        numbers.push(n);
                    },
                    None => {},
                }
            }
            word = Vec::new();
            assert(word@ =~= seq![]);
        } else {
            word.push(text[i]);
        }
        i = i + 1;
    }
    assert(text@.take(i as int) =~= text@);
    proof {
        lemma_numbers_push(split_words(text@).0, word@);
    }
    if word.len() > 0 {
        match parse_unsigned(word.as_slice()) {
            Some(n) => {
                numbers.push(n);
            },
            None => {},
        }
    }
    numbers
}

} // verus!
