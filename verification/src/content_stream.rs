//! The strings that a page's content stream shows, found by the operators after them.
use vstd::prelude::*;

use crate::scan;
use crate::text;

verus! {

/// The next `TJ` operator after an array, written `] TJ` or `]TJ`: the position of the bracket,
/// and the number of characters from there to the end of the operator.
pub open spec fn next_array_end(s: Seq<char>) -> Option<(int, int)> {
    match (scan::first_occurrence(s, "] TJ"@), scan::first_occurrence(s, "]TJ"@)) {
        (Some(spaced), Some(tight)) => if spaced < tight {
            Some((spaced, 4))
        } else {
            Some((tight, 3))
        },
        (Some(spaced), None) => Some((spaced, 4)),
        (None, Some(tight)) => Some((tight, 3)),
        (None, None) => None,
    }
}

/// Every string in parentheses, each with a space after it.
pub open spec fn strings_in(s: Seq<char>) -> Seq<char>
    decreases s.len(),
{
    match s.index_of_first('(') {
        Some(open) => {
            proof {
                s.index_of_first_ensures('(');
                s.skip(open + 1).index_of_first_ensures(')');
            }
            match s.skip(open + 1).index_of_first(')') {
                Some(close) => s.skip(open + 1).take(close).push(' ') + strings_in(
                    s.skip(open + 1).skip(close + 1),
                ),
                None => seq![],
            }
        },
        None => seq![],
    }
}

/// The strings of the array that ends where `segment` ends: those after its last `[`.
pub open spec fn array_strings(segment: Seq<char>) -> Seq<char> {
    match segment.index_of_last('[') {
        Some(open) => strings_in(segment.skip(open + 1)),
        None => seq![],
    }
}

/// The strings of all arrays that a `TJ` shows, array after array.
pub open spec fn shown_arrays(s: Seq<char>) -> Seq<char>
    decreases s.len(),
{
    match next_array_end(s) {
        Some((at, len)) => {
            proof {
                lemma_next_array_end(s);
            }
            array_strings(s.take(at)) + shown_arrays(s.skip(at + len))
        },
        None => seq![],
    }
}

/// The last string of `part`, with a space after it.
pub open spec fn last_string(part: Seq<char>) -> Seq<char> {
    match part.index_of_last('(') {
        Some(open) => match part.skip(open).index_of_first(')') {
            Some(close) => part.subrange(open + 1, open + close).push(' '),
            None => seq![],
        },
        None => seq![],
    }
}

/// The last string before each `Tj`, and the last string after the last `Tj`.
pub open spec fn shown_strings(s: Seq<char>) -> Seq<char>
    decreases s.len(),
{
    match scan::first_occurrence(s, "Tj"@) {
        Some(at) => {
            proof {
                reveal_strlit("Tj");
                scan::lemma_first_occurrence_found(s, "Tj"@);
            }
            last_string(s.take(at)) + shown_strings(s.skip(at + 2))
        },
        None => last_string(s),
    }
}

/// All text that a content stream shows: first that of the arrays, then that of the strings.
pub open spec fn shown_text(content: Seq<char>) -> Seq<char> {
    shown_arrays(content) + shown_strings(content)
}

/// An array ends inside the text.
pub proof fn lemma_next_array_end(s: Seq<char>)
    ensures
        next_array_end(s) matches Some((at, len)) ==> 0 <= at && 3 <= len <= 4 && at + len
            <= s.len(),
{
    reveal_strlit("] TJ");
    reveal_strlit("]TJ");
    scan::lemma_first_occurrence_found(s, "] TJ"@);
    scan::lemma_first_occurrence_found(s, "]TJ"@);
}

/// Finds the next `TJ` operator after an array.
fn find_array_end(s: &[char]) -> (found: Option<(usize, usize)>)
    ensures
        match found {
            Some((at, len)) => next_array_end(s@) == Some((at as int, len as int)) && 3 <= len <= 4
                && at + len <= s@.len(),
            None => next_array_end(s@) is None,
        },
{
    proof {
        reveal_strlit("] TJ");
        reveal_strlit("]TJ");
        lemma_next_array_end(s@);
    }
    let with_space: Vec<char> = text::chars_of("] TJ");
    let without: Vec<char> = text::chars_of("]TJ");
    match (text::find(s, with_space.as_slice()), text::find(s, without.as_slice())) {
        (Some(spaced), Some(tight)) => if spaced < tight {
            Some((spaced, 4))
        } else {
            Some((tight, 3))
        },
        (Some(spaced), None) => Some((spaced, 4)),
        (None, Some(tight)) => Some((tight, 3)),
        (None, None) => None,
    }
}

/// Appends every string in parentheses, each with a space after it.
fn push_strings(s: &[char], out: &mut String)
    ensures
        final(out)@ == old(out)@ + strings_in(s@),
{
    let total: usize = s.len();
    let mut from: usize = 0;
    let ghost mut done: Seq<char> = seq![];
    assert(s@.skip(0) =~= s@);
    while from < total
        invariant
            from <= total,
            total == s@.len(),
            out@ == old(out)@ + done,
            strings_in(s@) == done + strings_in(s@.skip(from as int)),
        decreases total - from,
    {
        let rest: &[char] = &s[from..total];
        assert(rest@ =~= s@.skip(from as int));
        let open: usize = match text::position_of(rest, '(') {
            Some(open) => open,
            None => {
                assert(done + seq![] =~= done);
                return ;
            },
        };
        let tail: &[char] = &rest[open + 1..rest.len()];
        assert(tail@ =~= rest@.skip(open + 1));
        let close: usize = match text::position_of(tail, ')') {
            Some(close) => close,
            None => {
                assert(done + seq![] =~= done);
                return ;
            },
        };
        text::push_chars(out, &tail[0..close]);
        out.push(' ');
        proof {
            assert(tail@.subrange(0, close as int) =~= tail@.take(close as int));
            let piece = tail@.take(close as int).push(' ');
            assert(tail@.skip(close + 1) =~= s@.skip(from + open + close + 2));
            assert(done + (piece + strings_in(tail@.skip(close + 1))) =~= (done + piece)
                + strings_in(tail@.skip(close + 1)));
            assert(out@ =~= old(out)@ + (done + piece));
            done = done + piece;
        }
        from = from + open + close + 2;
    }
    proof {
        s@.skip(from as int).index_of_first_ensures('(');
        assert(strings_in(s@.skip(from as int)) =~= seq![]);
        assert(done + seq![] =~= done);
    }
}

/// Appends the strings of the array that ends where `segment` ends.
fn push_array(segment: &[char], out: &mut String)
    ensures
        final(out)@ == old(out)@ + array_strings(segment@),
{
    let total: usize = segment.len();
    match text::last_position_of(segment, '[') {
        Some(open) => {
            let inner: &[char] = &segment[open + 1..total];
            assert(inner@ =~= segment@.skip(open + 1));
            push_strings(inner, out);
        },
        None => {
            assert(old(out)@ + seq![] =~= old(out)@);
        },
    }
}

/// Appends the strings of all arrays that a `TJ` shows.
fn push_arrays(s: &[char], out: &mut String)
    ensures
        final(out)@ == old(out)@ + shown_arrays(s@),
{
    let total: usize = s.len();
    let mut from: usize = 0;
    let ghost mut done: Seq<char> = seq![];
    assert(s@.skip(0) =~= s@);
    loop
        invariant
            from <= total,
            total == s@.len(),
            out@ == old(out)@ + done,
            shown_arrays(s@) == done + shown_arrays(s@.skip(from as int)),
        decreases total - from,
    {
        let rest: &[char] = &s[from..total];
        assert(rest@ =~= s@.skip(from as int));
        let (at, len): (usize, usize) = match find_array_end(rest) {
            Some(end) => end,
            None => {
                assert(done + seq![] =~= done);
                return ;
            },
        };
        let segment: &[char] = &rest[0..at];
        assert(segment@ =~= rest@.take(at as int));
        push_array(segment, out);
        let ghost piece = array_strings(segment@);
        proof {
            assert(out@ =~= old(out)@ + (done + piece));
        }
        proof {
            assert(rest@.skip(at + len) =~= s@.skip(from + at + len));
            assert(done + (piece + shown_arrays(rest@.skip(at + len))) =~= (done + piece)
                + shown_arrays(rest@.skip(at + len)));
            done = done + piece;
        }
        from = from + at + len;
    }
}

/// Appends the last string of `part`, with a space after it.
fn push_last_string(part: &[char], out: &mut String)
    ensures
        final(out)@ == old(out)@ + last_string(part@),
{
    let open: usize = match text::last_position_of(part, '(') {
        Some(open) => open,
        None => {
            assert(old(out)@ + seq![] =~= old(out)@);
            return ;
        },
    };
    let tail: &[char] = &part[open..part.len()];
    assert(tail@ =~= part@.skip(open as int));
    let close: usize = match text::position_of(tail, ')') {
        Some(close) => close,
        None => {
            assert(old(out)@ + seq![] =~= old(out)@);
            return ;
        },
    };
    proof {
        part@.index_of_last_ensures('(');
        tail@.index_of_first_ensures(')');
        assert(tail@[0] == '(');
    }
    text::push_chars(out, &part[open + 1..open + close]);
    out.push(' ');
    assert(out@ =~= old(out)@ + part@.subrange(open + 1, open + close).push(' '));
}

/// Appends the last string before each `Tj`, and the last string after the last `Tj`.
fn push_plain(s: &[char], out: &mut String)
    ensures
        final(out)@ == old(out)@ + shown_strings(s@),
{
    proof {
        reveal_strlit("Tj");
    }
    let operator: Vec<char> = text::chars_of("Tj");
    let total: usize = s.len();
    let mut from: usize = 0;
    let ghost mut done: Seq<char> = seq![];
    assert(s@.skip(0) =~= s@);
    loop
        invariant
            from <= total,
            total == s@.len(),
            operator@ == "Tj"@,
            operator@.len() == 2,
            out@ == old(out)@ + done,
            shown_strings(s@) == done + shown_strings(s@.skip(from as int)),
        decreases total - from,
    {
        let rest: &[char] = &s[from..total];
        assert(rest@ =~= s@.skip(from as int));
        match text::find(rest, operator.as_slice()) {
            Some(at) => {
                let part: &[char] = &rest[0..at];
                assert(part@ =~= rest@.take(at as int));
                push_last_string(part, out);
                proof {
                    let piece = last_string(part@);
                    assert(rest@.skip(at + 2) =~= s@.skip(from + at + 2));
                    assert(done + (piece + shown_strings(rest@.skip(at + 2))) =~= (done + piece)
                        + shown_strings(rest@.skip(at + 2)));
                    assert(out@ =~= old(out)@ + (done + piece));
                    done = done + piece;
                }
                from = from + at + 2;
            },
            None => {
                push_last_string(rest, out);
                assert(out@ =~= old(out)@ + (done + last_string(rest@)));
                return ;
            },
        }
    }
}

/// Appends the text that a content stream shows.
pub fn push_shown_text(content: &[char], out: &mut String)
    ensures
        final(out)@ == old(out)@ + shown_text(content@),
{
    push_arrays(content, out);
    push_plain(content, out);
    assert(out@ =~= old(out)@ + shown_text(content@));
}

/// Appends the text that a raw (possibly already decompressed) content stream shows. Handles both
/// `(string) Tj` and `[(string) ...] TJ` operators.
pub fn extract_tj_from_stream(stream: &[u8], out: &mut String)
    ensures
        final(out)@ == old(out)@ + shown_text(text::utf8_lossy(stream@)),
{
    let content: String = text::lossy_text(stream);
    let chars: Vec<char> = text::chars_of(content.as_str());
    push_shown_text(chars.as_slice(), out);
}

} // verus!
