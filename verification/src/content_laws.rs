//! What holds of the text of pages: of the strings that content streams show, and of what is taken
//! from a document.
use vstd::prelude::*;

use crate::byte_range;
use crate::content_stream;
use crate::contents;
use crate::dates;
use crate::decimal;
use crate::hashes;
use crate::pdf_bytes;
use crate::pdf_document;
use crate::pdf_document::{Entries, PdfModel, PdfValue, PdfValueModel};
use crate::pdf_signature;
use crate::pdf_utils;
use crate::pdf_utils::{SignatureFields, SignatureFieldsModel};
use crate::reading_laws;
use crate::scan;
use crate::text;

verus! {

proof fn lemma_first_place(s: Seq<char>, c: char, at: int)
    requires
        0 <= at < s.len(),
        s[at] == c,
        forall|i: int| 0 <= i < at ==> s[i] != c,
    ensures
        s.index_of_first(c) == Some(at),
{
    s.index_of_first_ensures(c);
}

proof fn lemma_no_place(s: Seq<char>, c: char)
    requires
        forall|i: int| 0 <= i < s.len() ==> s[i] != c,
    ensures
        s.index_of_first(c) is None,
        s.index_of_last(c) is None,
{
    s.index_of_first_ensures(c);
    s.index_of_last_ensures(c);
}

proof fn lemma_last_place(s: Seq<char>, c: char, at: int)
    requires
        0 <= at < s.len(),
        s[at] == c,
        forall|i: int| at < i < s.len() ==> s[i] != c,
    ensures
        s.index_of_last(c) == Some(at),
{
    s.index_of_last_ensures(c);
}

/// The strings of an array come one after the other, each followed by a space; what stands between
/// them is passed over, and a bracket that does not close ends them.
pub proof fn law_strings_of_an_array(before: Seq<char>, inside: Seq<char>, rest: Seq<char>)
    requires
        forall|i: int| 0 <= i < before.len() ==> before[i] != '(',
        forall|i: int| 0 <= i < inside.len() ==> inside[i] != ')',
    ensures
        content_stream::strings_in(before).len() == 0,
        content_stream::strings_in(before + seq!['('] + inside).len() == 0,
        content_stream::strings_in(before + seq!['('] + inside + seq![')'] + rest) == inside + seq![
            ' ',
        ] + content_stream::strings_in(rest),
{
    lemma_no_place(before, '(');
    let n = before.len() as int;
    let open = before + seq!['('] + inside;
    assert(open[n] == '(');
    lemma_first_place(open, '(', n);
    assert(open.skip(n + 1) =~= inside);
    lemma_no_place(inside, ')');
    let s = before + seq!['('] + inside + seq![')'] + rest;
    assert(s[n] == '(');
    assert forall|i: int| 0 <= i < n implies s[i] != '(' by {
        assert(s[i] == before[i]);
    }
    lemma_first_place(s, '(', n);
    let tail = s.skip(n + 1);
    let m = inside.len() as int;
    assert(tail =~= inside + seq![')'] + rest);
    assert(tail[m] == ')');
    assert forall|i: int| 0 <= i < m implies tail[i] != ')' by {
        assert(tail[i] == inside[i]);
    }
    lemma_first_place(tail, ')', m);
    assert(tail.take(m) =~= inside);
    assert(tail.skip(m + 1) =~= rest);
    assert(inside.push(' ') =~= inside + seq![' ']);
}

/// An array starts at the last `[` before its end, and without one there is no array.
pub proof fn law_array_starts_at_the_last_bracket(before: Seq<char>, inner: Seq<char>)
    requires
        forall|i: int| 0 <= i < inner.len() ==> inner[i] != '[',
    ensures
        content_stream::array_strings(inner).len() == 0,
        content_stream::array_strings(before + seq!['['] + inner) == content_stream::strings_in(
            inner,
        ),
{
    lemma_no_place(inner, '[');
    let s = before + seq!['['] + inner;
    let n = before.len() as int;
    assert(s[n] == '[');
    assert forall|i: int| n < i < s.len() implies s[i] != '[' by {
        assert(s[i] == inner[i - n - 1]);
    }
    lemma_last_place(s, '[', n);
    assert(s.skip(n + 1) =~= inner);
}

proof fn lemma_operators()
    ensures
        "] TJ"@ == seq![']', ' ', 'T', 'J'],
        "]TJ"@ == seq![']', 'T', 'J'],
        "Tj"@ == seq!['T', 'j'],
{
    reveal_strlit("] TJ");
    reveal_strlit("]TJ");
    reveal_strlit("Tj");
    assert("] TJ"@ =~= seq![']', ' ', 'T', 'J']);
    assert("]TJ"@ =~= seq![']', 'T', 'J']);
    assert("Tj"@ =~= seq!['T', 'j']);
}

/// Each operator shows the array before it, and the search goes on right after the operator; the
/// operator that comes first is taken, with or without a space after the bracket.
pub proof fn law_arrays_follow_each_other(s: Seq<char>, at: int)
    ensures
        (forall|j: int|
            0 <= j <= s.len() - 4 ==> (#[trigger] s.skip(j)).take(4) != seq![']', ' ', 'T', 'J'])
            && (forall|j: int|
            0 <= j <= s.len() - 3 ==> (#[trigger] s.skip(j)).take(3) != seq![']', 'T', 'J'])
            ==> content_stream::shown_arrays(s).len() == 0,
        0 <= at <= s.len() - 4 && s.skip(at).take(4) == seq![']', ' ', 'T', 'J'] && (forall|j: int|
            0 <= j < at ==> (#[trigger] s.skip(j)).take(4) != seq![']', ' ', 'T', 'J'] && s.skip(
                j,
            ).take(3) != seq![']', 'T', 'J']) ==> content_stream::shown_arrays(s)
            == content_stream::array_strings(s.take(at)) + content_stream::shown_arrays(
            s.skip(at + 4),
        ),
        0 <= at <= s.len() - 3 && s.skip(at).take(3) == seq![']', 'T', 'J'] && (forall|j: int|
            0 <= j < at ==> (#[trigger] s.skip(j)).take(3) != seq![']', 'T', 'J'] && (j <= s.len()
                - 4 ==> s.skip(j).take(4) != seq![']', ' ', 'T', 'J']))
            ==> content_stream::shown_arrays(s) == content_stream::array_strings(s.take(at))
            + content_stream::shown_arrays(s.skip(at + 3)),
{
    lemma_operators();
    let spaced = seq![']', ' ', 'T', 'J'];
    let tight = seq![']', 'T', 'J'];
    scan::law_first_occurrence_is_first(s, spaced);
    scan::law_first_occurrence_is_first(s, tight);
    let first_spaced = scan::first_occurrence(s, spaced);
    let first_tight = scan::first_occurrence(s, tight);
    if 0 <= at <= s.len() - 4 && s.skip(at).take(4) == spaced && (forall|j: int|
        0 <= j < at ==> (#[trigger] s.skip(j)).take(4) != spaced && s.skip(j).take(3) != tight) {
        scan::law_first_occurrence_is_found(s, spaced, at);
        if let Some(other) = first_tight {
            if other < at {
                assert(s.skip(other).take(3) != tight);
            }
            if other == at {
                assert(s.skip(at).take(4)[1] == ' ');
                assert(s.skip(at).take(3)[1] == 'T');
                assert(s.skip(at)[1] == ' ');
                assert(s.skip(at)[1] == 'T');
            }
        }
    }
    if 0 <= at <= s.len() - 3 && s.skip(at).take(3) == tight && (forall|j: int|
        0 <= j < at ==> (#[trigger] s.skip(j)).take(3) != tight && (j <= s.len() - 4 ==> s.skip(
            j,
        ).take(4) != spaced)) {
        scan::law_first_occurrence_is_found(s, tight, at);
        if let Some(other) = first_spaced {
            if other < at {
                assert(s.skip(other).take(4) != spaced);
            }
            if other == at {
                assert(s.skip(at).take(4)[1] == ' ');
                assert(s.skip(at).take(3)[1] == 'T');
                assert(s.skip(at)[1] == ' ');
                assert(s.skip(at)[1] == 'T');
            }
        }
    }
}

/// The string that an operator shows is the last one before it: it starts at the last opening
/// bracket and ends at the next closing one, and a space follows it.
pub proof fn law_last_string_is_shown(before: Seq<char>, inside: Seq<char>, after: Seq<char>)
    requires
        forall|i: int| 0 <= i < inside.len() ==> inside[i] != '(' && inside[i] != ')',
        forall|i: int| 0 <= i < after.len() ==> after[i] != '(',
    ensures
        content_stream::last_string(after).len() == 0,
        content_stream::last_string(before + seq!['('] + inside).len() == 0,
        content_stream::last_string(before + seq!['('] + inside + seq![')'] + after) == inside + seq![
            ' ',
        ],
{
    lemma_no_place(after, '(');
    let n = before.len() as int;
    let open = before + seq!['('] + inside;
    assert(open[n] == '(');
    assert forall|i: int| n < i < open.len() implies open[i] != '(' by {
        assert(open[i] == inside[i - n - 1]);
    }
    lemma_last_place(open, '(', n);
    let unclosed = open.skip(n);
    assert forall|i: int| 0 <= i < unclosed.len() implies unclosed[i] != ')' by {
        if i > 0 {
            assert(unclosed[i] == inside[i - 1]);
        }
    }
    lemma_no_place(unclosed, ')');
    let s = before + seq!['('] + inside + seq![')'] + after;
    let m = inside.len() as int;
    assert(s[n] == '(');
    assert forall|i: int| n < i < s.len() implies s[i] != '(' by {
        if i <= n + m {
            assert(s[i] == inside[i - n - 1]);
        } else if i == n + m + 1 {
            assert(s[i] == ')');
        } else {
            assert(s[i] == after[i - n - m - 2]);
        }
    }
    lemma_last_place(s, '(', n);
    let tail = s.skip(n);
    assert(tail[m + 1] == ')');
    assert forall|i: int| 0 <= i < m + 1 implies tail[i] != ')' by {
        if i > 0 {
            assert(tail[i] == inside[i - 1]);
        }
    }
    lemma_first_place(tail, ')', m + 1);
    assert(s.subrange(n + 1, n + m + 1) =~= inside);
    assert(inside.push(' ') =~= inside + seq![' ']);
}

/// Each `Tj` shows the last string before it, and the search goes on right after it; after the last
/// one the last string that is left is taken.
pub proof fn law_shown_strings_follow_each_other(s: Seq<char>, at: int)
    ensures
        (forall|j: int| 0 <= j <= s.len() - 2 ==> (#[trigger] s.skip(j)).take(2) != seq!['T', 'j'])
            ==> content_stream::shown_strings(s) == content_stream::last_string(s),
        0 <= at <= s.len() - 2 && s.skip(at).take(2) == seq!['T', 'j'] && (forall|j: int|
            0 <= j < at ==> (#[trigger] s.skip(j)).take(2) != seq!['T', 'j'])
            ==> content_stream::shown_strings(s) == content_stream::last_string(s.take(at))
            + content_stream::shown_strings(s.skip(at + 2)),
        content_stream::shown_text(s) == content_stream::shown_arrays(s)
            + content_stream::shown_strings(s),
{
    lemma_operators();
    let operator = seq!['T', 'j'];
    scan::law_first_occurrence_is_first(s, operator);
    if 0 <= at <= s.len() - 2 && s.skip(at).take(2) == operator && (forall|j: int|
        0 <= j < at ==> (#[trigger] s.skip(j)).take(2) != operator) {
        scan::law_first_occurrence_is_found(s, operator, at);
    }
}

/// A mathematical value holds what was read of a dictionary, each entry under its own name.
pub proof fn law_entries_hold_the_values(
    name: Vec<u8>,
    number: u32,
    generation: u16,
    fields: SignatureFields,
)
    ensures
        PdfValue::Name(name)@ == PdfValueModel::Name(name@),
        PdfValue::Text(name)@ == PdfValueModel::Text(name@),
        PdfValue::Reference(number, generation)@ == PdfValueModel::Reference(number, generation),
        PdfValue::Other@ == PdfValueModel::Other,
        fields@.field_type is Some <==> fields.field_type is Some,
        fields.field_type is Some ==> fields@.field_type->0 == fields.field_type->0@,
        fields@.kind is Some <==> fields.kind is Some,
        fields.kind is Some ==> fields@.kind->0 == fields.kind->0@,
        fields@.contents is Some <==> fields.contents is Some,
        fields.contents is Some ==> fields@.contents->0 == fields.contents->0@,
{
}

/// A dictionary holds a signature where its field type or its own type is the name `Sig` and its
/// contents are a string in which one of the bytes after the first thirty-two is not zero; the
/// signature is that string without the zero bytes at its end.
pub proof fn law_dictionary_with_a_signature(fields: SignatureFieldsModel)
    ensures
        ({
            let sig = Some(PdfValueModel::Name(seq![83u8, 105, 103]));
            let named = fields.field_type == sig || fields.kind == sig;
            &&& pdf_utils::dictionary_signature(fields) is Some <==> {
                &&& named
                &&& fields.contents is Some
                &&& fields.contents->0 is Text
                &&& exists|i: int|
                    32 <= i < fields.contents->0->Text_0.len() && fields.contents->0->Text_0[i] != 0
            }
            &&& pdf_utils::dictionary_signature(fields) matches Some(signature) ==> {
                let blob = fields.contents->0->Text_0;
                &&& 32 < signature.len() <= blob.len()
                &&& signature == blob.take(signature.len() as int)
                &&& signature.last() != 0
                &&& forall|i: int| signature.len() <= i < blob.len() ==> blob[i] == 0
            }
        }),
{
    reveal_strlit("Sig");
    assert(scan::ascii("Sig"@) =~= seq![83u8, 105, 103]);
    if let Some(PdfValueModel::Text(blob)) = fields.contents {
        reading_laws::law_padding_is_the_zeros_at_the_end(blob);
    }
}

proof fn lemma_first_signature(
    dictionaries: Seq<Option<SignatureFieldsModel>>,
    from: int,
    at: int,
)
    requires
        0 <= from <= at <= dictionaries.len(),
        forall|j: int|
            from <= j < at && (#[trigger] dictionaries[j]) is Some
                ==> pdf_utils::dictionary_signature(dictionaries[j]->0) is None,
        at < dictionaries.len() ==> dictionaries[at] is Some && pdf_utils::dictionary_signature(
            dictionaries[at]->0,
        ) is Some,
    ensures
        pdf_utils::first_signature(dictionaries, from) == if at < dictionaries.len() {
            pdf_utils::dictionary_signature(dictionaries[at]->0)
        } else {
            None
        },
    decreases at - from,
{
    if from < at {
        assert(dictionaries[from] is Some ==> pdf_utils::dictionary_signature(dictionaries[from]->0)
            is None);
        lemma_first_signature(dictionaries, from + 1, at);
    }
}

/// The document's signature is that of the first dictionary that holds one, in the order of the
/// objects, by the entries `FT`, `Type` and `Contents`.
pub proof fn law_first_dictionary_counts(model: PdfModel, at: int)
    requires
        0 <= at <= model.objects.len(),
        forall|j: int|
            0 <= j < at && (#[trigger] model.objects[j]) is Some ==> pdf_utils::dictionary_signature(
                SignatureFieldsModel {
                    field_type: entry(model.objects[j]->0, seq![70u8, 84]),
                    kind: entry(model.objects[j]->0, seq![84u8, 121, 112, 101]),
                    contents: entry(
                        model.objects[j]->0,
                        seq![67u8, 111, 110, 116, 101, 110, 116, 115],
                    ),
                },
            ) is None,
        at < model.objects.len() ==> model.objects[at] is Some && pdf_utils::dictionary_signature(
            SignatureFieldsModel {
                field_type: entry(model.objects[at]->0, seq![70u8, 84]),
                kind: entry(model.objects[at]->0, seq![84u8, 121, 112, 101]),
                contents: entry(
                    model.objects[at]->0,
                    seq![67u8, 111, 110, 116, 101, 110, 116, 115],
                ),
            },
        ) is Some,
    ensures
        at == model.objects.len() ==> pdf_utils::document_signature(model) is None,
        at < model.objects.len() ==> pdf_utils::document_signature(model)
            == pdf_utils::dictionary_signature(
            SignatureFieldsModel {
                field_type: entry(model.objects[at]->0, seq![70u8, 84]),
                kind: entry(model.objects[at]->0, seq![84u8, 121, 112, 101]),
                contents: entry(
                    model.objects[at]->0,
                    seq![67u8, 111, 110, 116, 101, 110, 116, 115],
                ),
            },
        ),
{
    reveal_strlit("FT");
    reveal_strlit("Type");
    reveal_strlit("Contents");
    assert(scan::ascii("FT"@) =~= seq![70u8, 84]);
    assert(scan::ascii("Type"@) =~= seq![84u8, 121, 112, 101]);
    assert(scan::ascii("Contents"@) =~= seq![67u8, 111, 110, 116, 101, 110, 116, 115]);
    let all = model.objects.map_values(|e: Option<Entries>| pdf_utils::signature_fields(e));
    assert forall|j: int| 0 <= j < at && (#[trigger] all[j]) is Some implies
        pdf_utils::dictionary_signature(all[j]->0) is None by {
        assert(model.objects[j] is Some);
    }
    lemma_first_signature(all, 0, at);
}

/// What stands under a key.
pub open spec fn entry(entries: Entries, key: Seq<u8>) -> Option<PdfValueModel> {
    if entries.contains_key(key) {
        Some(entries[key])
    } else {
        None
    }
}

/// A signature that stands inline goes before those of the dictionaries, which count only where
/// none stands inline; and a nullifier is the digest of the signature, or of the whole file where
/// there is none.
pub proof fn law_inline_signature_goes_first(
    pdf: Seq<u8>,
    model: PdfModel,
    signature: Seq<u8>,
)
    ensures
        contents::inline_signature(pdf) is Some ==> pdf_utils::signature_in(pdf, Some(model))
            == contents::inline_signature(pdf) && pdf_utils::signature_in(pdf, None)
            == contents::inline_signature(pdf),
        contents::inline_signature(pdf) is None ==> pdf_utils::signature_in(pdf, Some(model))
            == pdf_utils::document_signature(model) && pdf_utils::signature_in(pdf, None) is None,
        pdf_utils::nullifier_of(Some(signature), pdf) == hashes::sha256_digest(signature),
        pdf_utils::nullifier_of(None, pdf) == hashes::sha256_digest(pdf),
{
}

/// The date of a document is the string under `CreationDate` in its information dictionary, or where
/// that key is missing the one under `ModDate`.
pub proof fn law_document_date_is_an_entry_of_its_information(model: PdfModel, id: (u32, u16))
    ensures
        pdf_utils::document_date(None) is None,
        entry(model.trailer, seq![73u8, 110, 102, 111]) == Some(
            PdfValueModel::Reference(id.0, id.1),
        ) && model.dictionaries.contains_key(id) ==> {
            let info = model.dictionaries[id];
            let creation = entry(
                info,
                seq![67u8, 114, 101, 97, 116, 105, 111, 110, 68, 97, 116, 101],
            );
            let modification = entry(info, seq![77u8, 111, 100, 68, 97, 116, 101]);
            &&& creation is Some && creation->0 is Text ==> pdf_utils::document_date(Some(model))
                == Some(creation->0->Text_0)
            &&& creation is Some && !(creation->0 is Text) ==> pdf_utils::document_date(Some(model))
                is None
            &&& creation is None && modification is Some && modification->0 is Text
                ==> pdf_utils::document_date(Some(model)) == Some(modification->0->Text_0)
            &&& creation is None && !(modification is Some && modification->0 is Text)
                ==> pdf_utils::document_date(Some(model)) is None
        },
        entry(model.trailer, seq![73u8, 110, 102, 111]) == Some(
            PdfValueModel::Reference(id.0, id.1),
        ) && !model.dictionaries.contains_key(id) ==> pdf_utils::document_date(Some(model)) is None,
        !(entry(model.trailer, seq![73u8, 110, 102, 111]) is Some && entry(
            model.trailer,
            seq![73u8, 110, 102, 111],
        )->0 is Reference) ==> pdf_utils::document_date(Some(model)) is None,
{
    reveal_strlit("Info");
    reveal_strlit("CreationDate");
    reveal_strlit("ModDate");
    assert(scan::ascii("Info"@) =~= seq![73u8, 110, 102, 111]);
    assert(scan::ascii("CreationDate"@)
        =~= seq![67u8, 114, 101, 97, 116, 105, 111, 110, 68, 97, 116, 101]);
    assert(scan::ascii("ModDate"@) =~= seq![77u8, 111, 100, 68, 97, 116, 101]);
}

/// The pages are numbered from one on, in their order.
pub proof fn law_pages_are_numbered_from_one(count: nat)
    requires
        count <= u32::MAX,
    ensures
        pdf_utils::page_numbers(count).len() == count,
        forall|i: int| 0 <= i < count ==> #[trigger] pdf_utils::page_numbers(count)[i] == i + 1,
{
}

/// The text of content streams is that of each of them, in their order, as far as they are UTF-8 or
/// can be read as such.
pub proof fn law_streams_follow_each_other(
    first: Seq<Seq<u8>>,
    second: Seq<Seq<u8>>,
    stream: Seq<u8>,
)
    ensures
        pdf_utils::streams_text(seq![]).len() == 0,
        pdf_utils::streams_text(seq![stream]) == content_stream::shown_text(
            text::utf8_lossy(stream),
        ),
        pdf_utils::streams_text(first + second) == pdf_utils::streams_text(first)
            + pdf_utils::streams_text(second),
    decreases second.len(),
{
    assert(seq![stream].drop_last() =~= seq![]);
    reveal_with_fuel(pdf_utils::streams_text, 2);
    assert(Seq::<char>::empty() + content_stream::shown_text(text::utf8_lossy(stream))
        =~= content_stream::shown_text(text::utf8_lossy(stream)));
    if second.len() == 0 {
        assert(first + second =~= first);
        assert(pdf_utils::streams_text(first) + seq![] =~= pdf_utils::streams_text(first));
    } else {
        law_streams_follow_each_other(first, second.drop_last(), stream);
        assert((first + second).drop_last() =~= first + second.drop_last());
        let a = pdf_utils::streams_text(first);
        let b = pdf_utils::streams_text(second.drop_last());
        let c = content_stream::shown_text(text::utf8_lossy(second.last()));
        assert((a + b) + c =~= a + (b + c));
    }
}

/// The text of a document is the text that it gives for all of its pages, unless it gives none or
/// nothing but white space; then it is what the content streams of its pages show, in the order of
/// the pages. A file that holds no document has no text.
pub proof fn law_document_gives_its_text_first(model: PdfModel)
    ensures
        pdf_utils::loaded_text(None).len() == 0,
        ({
            let numbers = pdf_utils::page_numbers(model.pages.len());
            let given = model.texts.contains_key(numbers) && exists|i: int|
                0 <= i < model.texts[numbers].len() && !decimal::is_whitespace(
                    #[trigger] model.texts[numbers][i],
                );
            &&& pdf_document::has_modest_pages(model) && given ==> pdf_utils::loaded_text(
                Some(model),
            ) == model.texts[numbers]
            &&& !given ==> exists|streams: Seq<Seq<u8>>|
                {
                    &&& streams.len() == model.pages.len()
                    &&& forall|i: int|
                        0 <= i < streams.len() ==> #[trigger] streams[i]
                            == model.contents[model.pages[i]]
                    &&& pdf_utils::loaded_text(Some(model)) == #[trigger] pdf_utils::streams_text(
                        streams,
                    )
                }
        }),
{
    let numbers = pdf_utils::page_numbers(model.pages.len());
    let streams = pdf_utils::page_streams(model);
    let given = model.texts.contains_key(numbers) && exists|i: int|
        0 <= i < model.texts[numbers].len() && !decimal::is_whitespace(
            #[trigger] model.texts[numbers][i],
        );
    if given {
        let i = choose|i: int|
            0 <= i < model.texts[numbers].len() && !decimal::is_whitespace(
                #[trigger] model.texts[numbers][i],
            );
        assert(!decimal::is_whitespace(model.texts[numbers][i]));
    } else {
        assert(pdf_utils::loaded_text(Some(model)) == pdf_utils::streams_text(streams));
    }
}

proof fn lemma_no_name(s: Seq<u8>, at: int, name: Seq<u8>)
    requires
        name.len() > 0,
        forall|i: int|
            0 <= i < s.len() - 1 && #[trigger] s[i] == 47 ==> s[i + 1] != 35 && s[i + 1] != name[0],
    ensures
        pdf_bytes::name_at(s, at, name) is None,
{
    if 0 <= at < s.len() && s[at] == 47 {
        reveal_with_fuel(pdf_bytes::name_end, 1);
    }
}

proof fn lemma_no_length_references(s: Seq<u8>, n: int)
    requires
        forall|at: int| !#[trigger] pdf_bytes::length_reference_at(s, at),
    ensures
        pdf_bytes::length_references(s, n) == 0,
    decreases n,
{
    if n > 0 {
        lemma_no_length_references(s, n - 1);
        assert(!pdf_bytes::length_reference_at(s, n - 1));
    }
}

/// A file in which no name starts with an `L` or with an escape can be loaded, and one in which none
/// starts with an `E` or with an escape always reads alike; what comes out of the latter is what
/// it has a name for, and there is no doubt about the signature that it carries.
pub proof fn law_ordinary_files_are_read(pdf: Seq<u8>, loaded: Option<PdfModel>)
    ensures
        (forall|i: int|
            0 <= i < pdf.len() - 1 && #[trigger] pdf[i] == 47 ==> pdf[i + 1] != 35 && pdf[i + 1]
                != 76) ==> pdf_bytes::is_loadable(pdf),
        (forall|i: int|
            0 <= i < pdf.len() - 1 && #[trigger] pdf[i] == 47 ==> pdf[i + 1] != 35 && pdf[i + 1]
                != 69) ==> pdf_bytes::reads_alike(pdf),
        pdf_bytes::length_references(pdf, pdf.len() as int) <= 100 ==> pdf_bytes::is_loadable(pdf),
        pdf_bytes::reads_alike(pdf) ==> (pdf_document::may_hold(pdf, loaded) <==> loaded
            == pdf_document::pdf_model(pdf)),
        pdf_bytes::reads_alike(pdf) ==> pdf_utils::signature_is_certain(pdf),
        contents::inline_signature(pdf) is Some ==> pdf_utils::signature_is_certain(pdf),
        pdf_bytes::is_loadable(pdf) ==> pdf_utils::can_be_searched(pdf),
        contents::inline_signature(pdf) is Some ==> pdf_utils::can_be_searched(pdf),
        byte_range::byte_range(pdf) is None ==> pdf_signature::is_verifiable(pdf),
        byte_range::byte_range(pdf) is Some && byte_range::byte_range(pdf)->0[0]
            + byte_range::byte_range(pdf)->0[1] <= usize::MAX && byte_range::byte_range(pdf)->0[2]
            + byte_range::byte_range(pdf)->0[3] <= usize::MAX && pdf_utils::can_be_searched(pdf)
            ==> pdf_signature::is_verifiable(pdf),
        pdf_utils::pdf_signature(pdf) == pdf_utils::signature_in(pdf, pdf_document::pdf_model(pdf)),
        pdf_utils::pdf_date_text(pdf) == pdf_utils::document_date(pdf_document::pdf_model(pdf)),
        pdf_utils::pdf_text(pdf) == pdf_utils::loaded_text(pdf_document::pdf_model(pdf)),
        pdf_utils::pdf_nullifier(pdf) == pdf_utils::nullifier_of(
            pdf_utils::pdf_signature(pdf),
            pdf,
        ),
{
    reveal_strlit("Length");
    reveal_strlit("Encrypt");
    let length = scan::ascii("Length"@);
    let encrypt = scan::ascii("Encrypt"@);
    assert(length[0] == 76);
    assert(encrypt[0] == 69);
    if forall|i: int|
        0 <= i < pdf.len() - 1 && #[trigger] pdf[i] == 47 ==> pdf[i + 1] != 35 && pdf[i + 1] != 76 {
        assert forall|at: int| !#[trigger] pdf_bytes::length_reference_at(pdf, at) by {
            lemma_no_name(pdf, at, length);
        }
        lemma_no_length_references(pdf, pdf.len() as int);
    }
    if forall|i: int|
        0 <= i < pdf.len() - 1 && #[trigger] pdf[i] == 47 ==> pdf[i + 1] != 35 && pdf[i + 1] != 69 {
        assert forall|at: int| (#[trigger] pdf_bytes::name_at(pdf, at, encrypt)) is None by {
            lemma_no_name(pdf, at, encrypt);
        }
    }
}

/// A date in ASCII can be cut into its fields, and its timestamp is that of its text.
pub proof fn law_ascii_dates_can_be_cut(s: Seq<u8>)
    requires
        forall|i: int| 0 <= i < s.len() ==> s[i] < 128,
    ensures
        dates::is_cuttable(s),
        pdf_utils::date_timestamp(Some(s)) == dates::text_timestamp(s),
        pdf_utils::date_timestamp(None) is None,
{
    lemma_marks_cut(s);
    let rest = dates::fully_unmarked(s);
    if rest.len() >= 14 {
        assert forall|k: int|
            0 <= k < 6 && (forall|j: int| 0 <= j < k ==> dates::field_is_number(rest, j)) implies
            #[trigger] dates::on_boundary(rest, 2 * k + 4) by {
            if 2 * k + 4 < rest.len() {
                assert(rest[2 * k + 4] < 128);
                let byte = rest[2 * k + 4];
                assert(!vstd::utf8::is_continuation_byte(byte)) by {
                    assert(byte < 128);
                }
            }
        }
    }
}

proof fn lemma_marks_cut(s: Seq<u8>)
    requires
        forall|i: int| 0 <= i < s.len() ==> s[i] < 128,
    ensures
        forall|i: int|
            0 <= i < dates::fully_unmarked(s).len() ==> #[trigger] dates::fully_unmarked(s)[i] < 128,
    decreases s.len(),
{
    let rest = dates::fully_unmarked(s);
    if dates::is_marked(s) {
        lemma_marks_cut(s.skip(2));
        assert(rest == dates::fully_unmarked(s.skip(2)));
    } else {
        assert(rest == s);
    }
    assert forall|i: int| 0 <= i < rest.len() implies #[trigger] rest[i] < 128 by {}
}

proof fn lemma_declared_pages_bounded(
    model: PdfModel,
    kids: Seq<Option<(u32, u16)>>,
    n: int,
    most: int,
)
    requires
        0 <= n <= kids.len(),
        most >= 1,
        forall|id: (u32, u16)| #[trigger]
            model.counts.contains_key(id) ==> model.counts[id] <= most,
    ensures
        pdf_document::declared_pages(model, kids, n) <= n * most,
    decreases n,
{
    if n > 0 {
        lemma_declared_pages_bounded(model, kids, n - 1, most);
        assert(n * most == (n - 1) * most + most) by (nonlinear_arith);
    }
}

/// A page tree in which no node declares more than `most` pages is modest, where no node has so many
/// kids that they could declare more pages than can be numbered in 32 bits.
pub proof fn law_ordinary_page_trees_are_modest(model: PdfModel, most: int)
    requires
        most >= 1,
        forall|id: (u32, u16)| #[trigger]
            model.counts.contains_key(id) ==> model.counts[id] <= most,
        forall|i: int|
            0 <= i < model.kids.len() ==> (#[trigger] model.kids[i]).len() * most <= 4_294_967_295,
    ensures
        pdf_document::has_modest_pages(model),
{
    assert forall|i: int| 0 <= i < model.kids.len() implies pdf_document::declared_pages(
        model,
        #[trigger] model.kids[i],
        model.kids[i].len() as int,
    ) <= pdf_document::MAX_DECLARED_PAGES by {
        lemma_declared_pages_bounded(model, model.kids[i], model.kids[i].len() as int, most);
        assert(model.kids[i].len() * most <= 4_294_967_295);
    }
}

} // verus!
