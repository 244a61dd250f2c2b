//! What is read from a signed PDF: its signature, its date, its text and its nullifier.
use vstd::prelude::*;

use crate::content_stream;
use crate::contents;
use crate::dates;
use crate::decimal;
use crate::hashes;
use crate::pdf_bytes;
use crate::pdf_document;
use crate::pdf_document::{Entries, PdfModel, PdfValue, PdfValueModel};
use crate::scan;
use crate::text;

pub use crate::byte_range::extract_byte_range;
pub use crate::content_stream::extract_tj_from_stream;
pub use crate::dates::parse_pdf_date;
pub use crate::pdf_signature::verify_pkcs7_signature_local;
pub use crate::text::check_accredited_investor_phrase;

verus! {

/// The value is the name `Sig`.
pub open spec fn is_sig(value: Option<PdfValueModel>) -> bool {
    value == Some(PdfValueModel::Name(scan::ascii("Sig"@)))
}

/// Whether the value is the name `Sig`.
pub fn names_sig(value: &Option<PdfValue>) -> (yes: bool)
    ensures
        yes == is_sig(pdf_document::optional_value(*value)),
{
    proof {
        reveal_strlit("Sig");
    }
    match value {
        Some(PdfValue::Name(name)) => scan::same_bytes(name, scan::ascii_bytes("Sig")),
        _ => false,
    }
}

/// The entries of a dictionary that tell whether it holds a signature.
pub struct SignatureFields {
    /// `/FT`
    pub field_type: Option<PdfValue>,
    /// `/Type`
    pub kind: Option<PdfValue>,
    /// `/Contents`
    pub contents: Option<PdfValue>,
}

/// The entries of a dictionary that tell whether it holds a signature, as mathematical values.
pub struct SignatureFieldsModel {
    pub field_type: Option<PdfValueModel>,
    pub kind: Option<PdfValueModel>,
    pub contents: Option<PdfValueModel>,
}

impl View for SignatureFields {
    type V = SignatureFieldsModel;

    open spec fn view(&self) -> SignatureFieldsModel {
        SignatureFieldsModel {
            field_type: pdf_document::optional_value(self.field_type),
            kind: pdf_document::optional_value(self.kind),
            contents: pdf_document::optional_value(self.contents),
        }
    }
}

/// The signature that a dictionary holds: the string under `/Contents` without its padding, where
/// the field's type or the dictionary's type is `Sig` and more than a few bytes are left.
pub open spec fn dictionary_signature(fields: SignatureFieldsModel) -> Option<Seq<u8>> {
    if is_sig(fields.field_type) || is_sig(fields.kind) {
        match fields.contents {
            Some(PdfValueModel::Text(text)) => contents::signature_in_padding(text),
            _ => None,
        }
    } else {
        None
    }
}

/// Reads the signature that a dictionary holds.
pub fn signature_of_fields(fields: &SignatureFields) -> (signature: Option<Vec<u8>>)
    ensures
        signature is Some <==> dictionary_signature(fields@) is Some,
        signature matches Some(v) ==> dictionary_signature(fields@) == Some(v@),
{
    if names_sig(&fields.field_type) || names_sig(&fields.kind) {
        match &fields.contents {
            Some(PdfValue::Text(text)) => contents::trimmed_signature(text),
            _ => None,
        }
    } else {
        None
    }
}

/// The first signature that the dictionaries from `from` on hold.
pub open spec fn first_signature(dictionaries: Seq<Option<SignatureFieldsModel>>, from: int) -> Option<Seq<u8>>
    decreases dictionaries.len() - from,
{
    if from >= dictionaries.len() {
        None
    } else if dictionaries[from] is Some && dictionary_signature(dictionaries[from]->0) is Some {
        dictionary_signature(dictionaries[from]->0)
    } else {
        first_signature(dictionaries, from + 1)
    }
}

/// An optional dictionary's entries as mathematical values.
pub open spec fn optional_fields(fields: Option<SignatureFields>) -> Option<SignatureFieldsModel> {
    match fields {
        Some(f) => Some(f@),
        None => None,
    }
}

/// Some dictionaries' entries as mathematical values.
pub open spec fn field_models(fields: Seq<Option<SignatureFields>>) -> Seq<Option<SignatureFieldsModel>> {
    fields.map_values(|f: Option<SignatureFields>| optional_fields(f))
}

/// Finds the first signature that some dictionaries hold.
pub fn find_signature(dictionaries: &[Option<SignatureFields>]) -> (signature: Option<Vec<u8>>)
    ensures
        signature is Some <==> first_signature(field_models(dictionaries@), 0) is Some,
        signature matches Some(v) ==> first_signature(field_models(dictionaries@), 0) == Some(v@),
{
    let ghost models = field_models(dictionaries@);
    let mut i: usize = 0;
    while i < dictionaries.len()
        invariant
            i <= dictionaries@.len(),
            models == field_models(dictionaries@),
            first_signature(models, 0) == first_signature(models, i as int),
        decreases dictionaries@.len() - i,
    {
        assert(models[i as int] == optional_fields(dictionaries@[i as int]));
        if let Some(fields) = &dictionaries[i] {
            let signature = signature_of_fields(fields);
            if signature.is_some() {
                return signature;
            }
        }
        i = i + 1;
    }
    None
}

/// The entries of a dictionary that tell whether it holds a signature.
pub open spec fn signature_fields(entries: Option<Entries>) -> Option<SignatureFieldsModel> {
    match entries {
        Some(e) => Some(
            SignatureFieldsModel {
                field_type: pdf_document::entry_of(e, scan::ascii("FT"@)),
                kind: pdf_document::entry_of(e, scan::ascii("Type"@)),
                contents: pdf_document::entry_of(e, scan::ascii("Contents"@)),
            },
        ),
        None => None,
    }
}

/// The signature that a document holds in one of its dictionaries, in the order of the objects.
pub open spec fn document_signature(model: PdfModel) -> Option<Seq<u8>> {
    first_signature(model.objects.map_values(|e: Option<Entries>| signature_fields(e)), 0)
}

fn read_signature_fields(document: &lopdf::Document) -> (found: Vec<Option<SignatureFields>>)
    ensures
        field_models(found@) == pdf_document::document_model(*document).objects.map_values(
            |e: Option<Entries>| signature_fields(e),
        ),
{
    proof {
        reveal_strlit("FT");
        reveal_strlit("Type");
        reveal_strlit("Contents");
    }
    let dictionaries: Vec<Option<&lopdf::Dictionary>> = pdf_document::object_dictionaries(document);
    let ghost objects = pdf_document::document_model(*document).objects;
    let mut found: Vec<Option<SignatureFields>> = Vec::new();
    let mut i: usize = 0;
    while i < dictionaries.len()
        invariant
            i <= dictionaries@.len(),
            found@.len() == i,
            objects == dictionaries@.map_values(
                |d: Option<&lopdf::Dictionary>| pdf_document::optional_entries(d),
            ),
            forall|j: int|
                0 <= j < i ==> optional_fields(#[trigger] found@[j]) == signature_fields(objects[j]),
            vstd::utf8::is_ascii_chars("FT"@),
            vstd::utf8::is_ascii_chars("Type"@),
            vstd::utf8::is_ascii_chars("Contents"@),
        decreases dictionaries@.len() - i,
    {
        let fields: Option<SignatureFields> = match dictionaries[i] {
            Some(dictionary) => Some(
                SignatureFields {
                    field_type: pdf_document::entry(dictionary, scan::ascii_bytes("FT")),
                    kind: pdf_document::entry(dictionary, scan::ascii_bytes("Type")),
                    contents: pdf_document::entry(dictionary, scan::ascii_bytes("Contents")),
                },
            ),
            None => None,
        };
        assert(objects[i as int] == pdf_document::optional_entries(dictionaries@[i as int]));
        found.push(fields);
        i = i + 1;
    }
    assert(field_models(found@) =~= objects.map_values(|e: Option<Entries>| signature_fields(e)));
    found
}

/// The signature that a PDF carries out of which the document `loaded` comes: the blob that stands
/// inline after `/Contents` without its padding, where enough of it is left, else the one that a
/// dictionary of the document holds.
pub open spec fn signature_in(pdf: Seq<u8>, loaded: Option<PdfModel>) -> Option<Seq<u8>> {
    match contents::inline_signature(pdf) {
        Some(signature) => Some(signature),
        None => match loaded {
            Some(model) => document_signature(model),
            None => None,
        },
    }
}

/// The signature that a PDF carries.
pub open spec fn pdf_signature(pdf: Seq<u8>) -> Option<Seq<u8>> {
    signature_in(pdf, pdf_document::pdf_model(pdf))
}

/// The file carries the signature, or none, where one of the documents comes out of it that may.
pub open spec fn may_carry(pdf: Seq<u8>, signature: Option<Seq<u8>>) -> bool {
    exists|loaded: Option<PdfModel>|
        pdf_document::may_hold(pdf, loaded) && signature == #[trigger] signature_in(pdf, loaded)
}

/// There is no doubt about the signature that the file carries: it stands inline, or the document
/// always comes out the same.
pub open spec fn signature_is_certain(pdf: Seq<u8>) -> bool {
    contents::inline_signature(pdf) is Some || pdf_bytes::reads_alike(pdf)
}

/// The signature stands inline, or the document can be loaded to look for it.
pub open spec fn can_be_searched(pdf: Seq<u8>) -> bool {
    contents::inline_signature(pdf) is Some || pdf_bytes::is_loadable(pdf)
}

/// Whether the signature stands inline or the document can be loaded to look for it.
pub fn searchable(pdf_bytes: &[u8]) -> (yes: bool)
    ensures
        yes == can_be_searched(pdf_bytes@),
{
    contents::read_inline_signature(pdf_bytes).is_some() || pdf_bytes::can_be_loaded(pdf_bytes)
}

proof fn lemma_first_signature(dictionaries: Seq<Option<SignatureFieldsModel>>, from: int)
    ensures
        first_signature(dictionaries, from) matches Some(signature) ==> signature.len()
            > contents::MIN_SIGNATURE_LEN && signature.last() != 0,
    decreases dictionaries.len() - from,
{
    if from < dictionaries.len() {
        lemma_first_signature(dictionaries, from + 1);
        if let Some(fields) = dictionaries[from] {
            if let Some(PdfValueModel::Text(text)) = fields.contents {
                contents::lemma_without_padding(text);
            }
        }
    }
}

/// What the file has a name for is among what it may carry.
pub proof fn lemma_may_carry(pdf: Seq<u8>)
    ensures
        may_carry(pdf, pdf_signature(pdf)),
{
    assert(pdf_document::may_hold(pdf, pdf_document::pdf_model(pdf)));
    assert(signature_in(pdf, pdf_document::pdf_model(pdf)) == pdf_signature(pdf));
}

/// A signature, whatever document comes out of the file, is longer than a few bytes and has no
/// padding.
pub proof fn law_signature_has_no_padding(pdf: Seq<u8>, signature: Seq<u8>)
    requires
        may_carry(pdf, Some(signature)),
    ensures
        signature.len() > contents::MIN_SIGNATURE_LEN,
        signature.last() != 0,
{
    let loaded = choose|loaded: Option<PdfModel>|
        pdf_document::may_hold(pdf, loaded) && Some(signature) == #[trigger] signature_in(pdf, loaded);
    if let Some(blob) = contents::inline_blob(pdf) {
        contents::lemma_without_padding(blob);
    }
    if let Some(model) = loaded {
        lemma_first_signature(model.objects.map_values(|e: Option<Entries>| signature_fields(e)), 0);
    }
}

/// Where there is no doubt about the signature, it is the one that the file has a name for.
pub proof fn law_signature_is_certain(pdf: Seq<u8>, signature: Option<Seq<u8>>)
    requires
        signature_is_certain(pdf),
    ensures
        may_carry(pdf, signature) <==> signature == pdf_signature(pdf),
{
    lemma_may_carry(pdf);
}

/// Extracts the raw DER bytes of the CMS blob from the `/Contents` field of a PDF: first by a
/// fast scan over the bytes, then by a walk over the dictionaries of the document.
pub fn extract_signature_bytes(pdf_bytes: &[u8]) -> (signature: Option<Vec<u8>>)
    requires
        can_be_searched(pdf_bytes@),
    ensures
        may_carry(pdf_bytes@, scan::optional_bytes(signature)),
        signature_is_certain(pdf_bytes@) ==> scan::optional_bytes(signature) == pdf_signature(
            pdf_bytes@,
        ),
        signature matches Some(v) ==> v@.len() > contents::MIN_SIGNATURE_LEN && v@.last() != 0,
{
    let inline = contents::read_inline_signature(pdf_bytes);
    if inline.is_some() {
        proof {
            law_signature_is_certain(pdf_bytes@, scan::optional_bytes(inline));
            law_signature_has_no_padding(pdf_bytes@, inline->0@);
        }
        return inline;
    }
    let document = pdf_document::load_document(pdf_bytes);
    let ghost loaded = pdf_document::loaded_model(document);
    let signature: Option<Vec<u8>> = match document {
        Some(document) => {
            let fields = read_signature_fields(&document);
            find_signature(&fields)
        },
        None => None,
    };
    proof {
        assert(pdf_document::may_hold(pdf_bytes@, loaded));
        assert(scan::optional_bytes(signature) == signature_in(pdf_bytes@, loaded));
        if signature is Some {
            law_signature_has_no_padding(pdf_bytes@, signature->0@);
        }
    }
    signature
}

/// What a nullifier is made from: the signature, or the whole file where there is none.
pub open spec fn nullifier_input(signature: Option<Seq<u8>>, pdf: Seq<u8>) -> Seq<u8> {
    match signature {
        Some(s) => s,
        None => pdf,
    }
}

/// The nullifier of a PDF that carries the signature, or none: the SHA-256 digest of the signature.
pub open spec fn nullifier_of(signature: Option<Seq<u8>>, pdf: Seq<u8>) -> Seq<u8> {
    hashes::sha256_digest(nullifier_input(signature, pdf))
}

/// The nullifier of a PDF.
pub open spec fn pdf_nullifier(pdf: Seq<u8>) -> Seq<u8> {
    nullifier_of(pdf_signature(pdf), pdf)
}

/// Derives the nullifier: the SHA-256 digest of the CMS blob, or of the whole file where there is
/// none.
pub fn derive_nullifier(pdf_bytes: &[u8]) -> (nullifier: [u8; 32])
    requires
        can_be_searched(pdf_bytes@),
    ensures
        exists|signature: Option<Seq<u8>>| #[trigger]
            may_carry(pdf_bytes@, signature) && nullifier@ == nullifier_of(signature, pdf_bytes@),
        signature_is_certain(pdf_bytes@) ==> nullifier@ == pdf_nullifier(pdf_bytes@),
        signature_is_certain(pdf_bytes@) && pdf_signature(pdf_bytes@) is Some ==> nullifier@
            == hashes::sha256_digest(pdf_signature(pdf_bytes@)->0),
        signature_is_certain(pdf_bytes@) && pdf_signature(pdf_bytes@) is None ==> nullifier@
            == hashes::sha256_digest(pdf_bytes@),
{
    let signature: Option<Vec<u8>> = extract_signature_bytes(pdf_bytes);
    assert(may_carry(pdf_bytes@, scan::optional_bytes(signature)));
    match signature {
        Some(signature) => hashes::sha256(&signature),
        None => hashes::sha256(pdf_bytes),
    }
}

/// The string that a document's date is read from: the one under `/CreationDate`, or where that
/// key is missing the one under `/ModDate`.
pub open spec fn date_text(creation: Option<PdfValueModel>, modification: Option<PdfValueModel>) -> Option<Seq<u8>> {
    let chosen = if creation is Some {
        creation
    } else {
        modification
    };
    match chosen {
        Some(PdfValueModel::Text(text)) => Some(text),
        _ => None,
    }
}

/// The timestamp of the date that a string holds. One that cannot be cut into the fields of a date
/// holds none.
pub open spec fn date_timestamp(date: Option<Seq<u8>>) -> Option<u64> {
    match date {
        Some(text) => if dates::is_cuttable(text) {
            dates::text_timestamp(text)
        } else {
            None
        },
        None => None,
    }
}

/// Picks the string that a document's date is read from.
pub fn choose_date(creation: Option<PdfValue>, modification: Option<PdfValue>) -> (date: Option<Vec<u8>>)
    ensures
        date is Some <==> date_text(
            pdf_document::optional_value(creation),
            pdf_document::optional_value(modification),
        ) is Some,
        date matches Some(v) ==> date_text(
            pdf_document::optional_value(creation),
            pdf_document::optional_value(modification),
        ) == Some(v@),
{
    let chosen = match creation {
        Some(value) => Some(value),
        None => modification,
    };
    match chosen {
        Some(PdfValue::Text(text)) => Some(text),
        _ => None,
    }
}

/// The entries of the document's information dictionary.
pub open spec fn info_entries(model: PdfModel) -> Option<Entries> {
    match pdf_document::entry_of(model.trailer, scan::ascii("Info"@)) {
        Some(PdfValueModel::Reference(number, generation)) => if model.dictionaries.contains_key(
            (number, generation),
        ) {
            Some(model.dictionaries[(number, generation)])
        } else {
            None
        },
        _ => None,
    }
}

/// The string that the date of a document is read from.
pub open spec fn document_date(loaded: Option<PdfModel>) -> Option<Seq<u8>> {
    match loaded {
        Some(model) => match info_entries(model) {
            Some(info) => date_text(
                pdf_document::entry_of(info, scan::ascii("CreationDate"@)),
                pdf_document::entry_of(info, scan::ascii("ModDate"@)),
            ),
            None => None,
        },
        None => None,
    }
}

/// The string that the date of a PDF is read from.
pub open spec fn pdf_date_text(pdf: Seq<u8>) -> Option<Seq<u8>> {
    document_date(pdf_document::pdf_model(pdf))
}

fn read_date_text(document: &lopdf::Document) -> (date: Option<Vec<u8>>)
    ensures
        scan::optional_bytes(date) == document_date(
            Some(pdf_document::document_model(*document)),
        ),
{
    proof {
        reveal_strlit("Info");
        reveal_strlit("CreationDate");
        reveal_strlit("ModDate");
    }
    let trailer = pdf_document::trailer(document);
    match pdf_document::entry(trailer, scan::ascii_bytes("Info")) {
        Some(PdfValue::Reference(number, generation)) => {
            match pdf_document::dictionary_at(document, number, generation) {
                Some(info) => choose_date(
                    pdf_document::entry(info, scan::ascii_bytes("CreationDate")),
                    pdf_document::entry(info, scan::ascii_bytes("ModDate")),
                ),
                None => None,
            }
        },
        _ => None,
    }
}

/// Extracts the document's date from `/Info`, `/CreationDate` (or `/ModDate`).
pub fn extract_pdf_date(pdf_bytes: &[u8]) -> (timestamp: Option<u64>)
    requires
        pdf_bytes::is_loadable(pdf_bytes@),
    ensures
        exists|loaded: Option<PdfModel>| #[trigger]
            pdf_document::may_hold(pdf_bytes@, loaded) && timestamp == date_timestamp(
                document_date(loaded),
            ),
        pdf_bytes::reads_alike(pdf_bytes@) ==> timestamp == date_timestamp(
            pdf_date_text(pdf_bytes@),
        ),
{
    let document = pdf_document::load_document(pdf_bytes);
    assert(pdf_document::may_hold(pdf_bytes@, pdf_document::loaded_model(document)));
    let date: Option<Vec<u8>> = match &document {
        Some(document) => read_date_text(document),
        None => None,
    };
    match date {
        Some(date) => if dates::can_cut(&date) {
            dates::parse_pdf_date(&date)
        } else {
            None
        },
        None => None,
    }
}

/// There is nothing but white space in the text.
pub open spec fn is_blank(text: Seq<char>) -> bool {
    forall|i: int| 0 <= i < text.len() ==> decimal::is_whitespace(#[trigger] text[i])
}

/// Whether there is nothing but white space in the text.
pub fn blank(text: &str) -> (yes: bool)
    ensures
        yes == is_blank(text@),
{
    let chars: Vec<char> = text::chars_of(text);
    let mut i: usize = 0;
    while i < chars.len()
        invariant
            i <= chars@.len(),
            chars@ == text@,
            forall|j: int| 0 <= j < i ==> decimal::is_whitespace(#[trigger] chars@[j]),
        decreases chars@.len() - i,
    {
        if !decimal::whitespace(chars[i]) {
            return false;
        }
        i = i + 1;
    }
    true
}

/// The numbers of the pages, from one on; their count is kept in 32 bits.
pub open spec fn page_numbers(count: nat) -> Seq<u32> {
    Seq::new((count % 0x1_0000_0000) as nat, |i: int| (i + 1) as u32)
}

/// Counts the pages, from one on.
pub fn number_pages(count: usize) -> (numbers: Vec<u32>)
    ensures
        numbers@ == page_numbers(count as nat),
{
    let n: u64 = count as u64 % 0x1_0000_0000;
    let mut numbers: Vec<u32> = Vec::new();
    let mut i: u64 = 0;
    while i < n
        invariant
            i <= n < 0x1_0000_0000,
            numbers@.len() == i,
            forall|j: int| 0 <= j < i ==> #[trigger] numbers@[j] == (j + 1) as u32,
        decreases n - i,
    {
        i = i + 1;
        numbers.push(i as u32);
    }
    assert(numbers@ =~= page_numbers(count as nat));
    numbers
}

/// The content streams of the pages, in order.
pub open spec fn page_streams(model: PdfModel) -> Seq<Seq<u8>> {
    Seq::new(model.pages.len(), |i: int| model.contents[model.pages[i]])
}

/// The text that some content streams show one after the other.
pub open spec fn streams_text(streams: Seq<Seq<u8>>) -> Seq<char>
    decreases streams.len(),
{
    if streams.len() == 0 {
        seq![]
    } else {
        streams_text(streams.drop_last()) + content_stream::shown_text(
            text::utf8_lossy(streams.last()),
        )
    }
}

/// The text of a document's pages as the document gives it, where that is not blank. A document
/// that declares more pages than can be numbered gives none.
pub open spec fn plain_text(model: PdfModel) -> Option<Seq<char>> {
    let numbers = page_numbers(model.pages.len());
    if pdf_document::has_modest_pages(model) && model.texts.contains_key(numbers) && !is_blank(
        model.texts[numbers],
    ) {
        Some(model.texts[numbers])
    } else {
        None
    }
}

/// The text of a document: what its pages give as their text, or where that is blank what their
/// content streams show.
pub open spec fn document_text(model: PdfModel) -> Seq<char> {
    match plain_text(model) {
        Some(text) => text,
        None => streams_text(page_streams(model)),
    }
}

/// The text of what comes out of a file: none where that is no document.
pub open spec fn loaded_text(loaded: Option<PdfModel>) -> Seq<char> {
    match loaded {
        Some(model) => document_text(model),
        None => seq![],
    }
}

/// The text of a PDF.
pub open spec fn pdf_text(pdf: Seq<u8>) -> Seq<char> {
    loaded_text(pdf_document::pdf_model(pdf))
}

/// Some byte strings as mathematical values.
pub open spec fn byte_strings(streams: Seq<Vec<u8>>) -> Seq<Seq<u8>> {
    streams.map_values(|s: Vec<u8>| s@)
}

/// Keeps what the document gives as its text, unless it is blank.
pub fn keep_unless_blank(extracted: Option<String>) -> (text: Option<String>)
    ensures
        text == (match extracted {
            Some(t) => if is_blank(t@) {
                None
            } else {
                Some(t)
            },
            None => None,
        }),
{
    match extracted {
        Some(t) => if blank(t.as_str()) {
            None
        } else {
            Some(t)
        },
        None => None,
    }
}

fn read_plain_text(document: &lopdf::Document, ids: &[(u32, u16)]) -> (text: Option<String>)
    requires
        ids@ == pdf_document::document_model(*document).pages,
    ensures
        text is Some <==> plain_text(pdf_document::document_model(*document)) is Some,
        text matches Some(t) ==> plain_text(pdf_document::document_model(*document)) == Some(t@),
{
    if !pdf_document::pages_are_modest(document) {
        return None;
    }
    let numbers: Vec<u32> = number_pages(ids.len());
    keep_unless_blank(pdf_document::text_of_pages(document, &numbers))
}

fn read_streams(document: &lopdf::Document, ids: &[(u32, u16)]) -> (streams: Vec<Vec<u8>>)
    requires
        ids@ == pdf_document::document_model(*document).pages,
    ensures
        byte_strings(streams@) == page_streams(pdf_document::document_model(*document)),
{
    let ghost model = pdf_document::document_model(*document);
    let mut streams: Vec<Vec<u8>> = Vec::new();
    let mut i: usize = 0;
    while i < ids.len()
        invariant
            i <= ids@.len(),
            streams@.len() == i,
            model == pdf_document::document_model(*document),
            ids@ == model.pages,
            forall|j: int| 0 <= j < i ==> (#[trigger] streams@[j])@ == model.contents[model.pages[j]],
        decreases ids@.len() - i,
    {
        streams.push(pdf_document::page_content(document, ids[i]));
        i = i + 1;
    }
    assert(byte_strings(streams@) =~= page_streams(model));
    streams
}

/// Puts together the text that some content streams show.
pub fn text_of_streams(streams: &[Vec<u8>]) -> (text: String)
    ensures
        text@ == streams_text(byte_strings(streams@)),
{
    let ghost all = byte_strings(streams@);
    let mut text: String = String::new();
    let mut i: usize = 0;
    assert(all.take(0).len() == 0);
    while i < streams.len()
        invariant
            i <= streams@.len(),
            all == byte_strings(streams@),
            text@ == streams_text(all.take(i as int)),
        decreases streams@.len() - i,
    {
        proof {
            assert(all[i as int] == streams@[i as int]@);
            assert(all.take(i + 1).drop_last() =~= all.take(i as int));
        }
        content_stream::extract_tj_from_stream(&streams[i], &mut text);
        i = i + 1;
    }
    assert(all.take(i as int) =~= all);
    text
}

/// Extracts the visible text from all pages: the text that the document itself gives, or what
/// its content streams show where that fails or is blank.
pub fn extract_pdf_text(pdf_bytes: &[u8]) -> (text: String)
    requires
        pdf_bytes::is_loadable(pdf_bytes@),
    ensures
        exists|loaded: Option<PdfModel>| #[trigger]
            pdf_document::may_hold(pdf_bytes@, loaded) && text@ == loaded_text(loaded),
        pdf_bytes::reads_alike(pdf_bytes@) ==> text@ == pdf_text(pdf_bytes@),
{
    let document = pdf_document::load_document(pdf_bytes);
    assert(pdf_document::may_hold(pdf_bytes@, pdf_document::loaded_model(document)));
    match document {
        Some(document) => {
            let ids: Vec<(u32, u16)> = pdf_document::page_ids(&document);
            match read_plain_text(&document, &ids) {
                Some(text) => text,
                None => {
                    let streams: Vec<Vec<u8>> = read_streams(&document, &ids);
                    text_of_streams(&streams)
                },
            }
        },
        None => String::new(),
    }
}

} // verus!
