//! PDF documents: their dictionaries, pages and page contents.
use vstd::prelude::*;

use crate::pdf_bytes;
use crate::scan;

verus! {

/// `lopdf::Document`, a document in memory.
#[verifier::external_type_specification]
#[verifier::external_body]
pub struct ExDocument(lopdf::Document);

/// `lopdf::Dictionary`, one of a document's dictionaries.
#[verifier::external_type_specification]
#[verifier::external_body]
pub struct ExDictionary(lopdf::Dictionary);

/// What is read of an entry of a dictionary.
pub enum PdfValue {
    Name(Vec<u8>),
    Text(Vec<u8>),
    /// The number and the generation of an object.
    Reference(u32, u16),
    /// Any other value.
    Other,
}

/// What is read of an entry of a dictionary, as a mathematical value.
pub enum PdfValueModel {
    Name(Seq<u8>),
    Text(Seq<u8>),
    Reference(u32, u16),
    Other,
}

impl View for PdfValue {
    type V = PdfValueModel;

    open spec fn view(&self) -> PdfValueModel {
        match *self {
            PdfValue::Name(name) => PdfValueModel::Name(name@),
            PdfValue::Text(text) => PdfValueModel::Text(text@),
            PdfValue::Reference(number, generation) => PdfValueModel::Reference(number, generation),
            PdfValue::Other => PdfValueModel::Other,
        }
    }
}

/// An optional entry as a mathematical value.
pub open spec fn optional_value(value: Option<PdfValue>) -> Option<PdfValueModel> {
    match value {
        Some(v) => Some(v@),
        None => None,
    }
}

/// The entries of a dictionary by their keys.
pub type Entries = Map<Seq<u8>, PdfValueModel>;

/// What a document holds.
pub struct PdfModel {
    /// The objects in the order of their identifiers; nothing stands for one that is not a
    /// dictionary.
    pub objects: Seq<Option<Entries>>,
    /// The trailer.
    pub trailer: Entries,
    /// The dictionaries by identifier, references from object to object being followed.
    pub dictionaries: Map<(u32, u16), Entries>,
    /// The identifiers of the pages, in the order of the pages.
    pub pages: Seq<(u32, u16)>,
    /// The content streams of each page, decompressed and put together.
    pub contents: Map<(u32, u16), Seq<u8>>,
    /// For each of the objects, the entries of the array under its key `Kids`; nothing stands for
    /// an entry that is not a reference.
    pub kids: Seq<Seq<Option<(u32, u16)>>>,
    /// The number under the key `Count` of each dictionary that has one.
    pub counts: Map<(u32, u16), i64>,
    /// The text of some pages, given by their numbers.
    pub texts: Map<Seq<u32>, Seq<char>>,
}

/// The document that the bytes of a file hold.
pub uninterp spec fn pdf_model(pdf: Seq<u8>) -> Option<PdfModel>;

/// What a document holds.
pub uninterp spec fn document_model(document: lopdf::Document) -> PdfModel;

/// What a dictionary holds.
pub uninterp spec fn dictionary_entries(dictionary: lopdf::Dictionary) -> Entries;

/// What a dictionary holds under a key.
pub open spec fn entry_of(entries: Entries, key: Seq<u8>) -> Option<PdfValueModel> {
    if entries.contains_key(key) {
        Some(entries[key])
    } else {
        None
    }
}

/// An optional dictionary's entries.
pub open spec fn optional_entries(dictionary: Option<&lopdf::Dictionary>) -> Option<Entries> {
    match dictionary {
        Some(d) => Some(dictionary_entries(*d)),
        None => None,
    }
}

/// What an optional document holds.
pub open spec fn loaded_model(document: Option<lopdf::Document>) -> Option<PdfModel> {
    match document {
        Some(d) => Some(document_model(d)),
        None => None,
    }
}

/// The document `loaded`, or that there is none, may come out of the file: of a file that always
/// reads alike, only what it has a name for.
pub open spec fn may_hold(pdf: Seq<u8>, loaded: Option<PdfModel>) -> bool {
    pdf_bytes::reads_alike(pdf) ==> loaded == pdf_model(pdf)
}

/// `lopdf::Document::load_from` on the bytes: which document comes out, and whether one does,
/// depends on the bytes alone, but for encrypted files with packed objects, which are taken apart
/// in no fixed order; of these nothing is said. The parser bounds the nesting of arrays,
/// dictionaries and strings itself. It follows the length of a stream from object to object
/// without a bound; files in which it might go too far for a stack of four megabytes are left out.
/// That memory suffices for what the file holds is not claimed.
#[verifier::external_body]
pub(crate) fn load_document(pdf: &[u8]) -> (document: Option<lopdf::Document>)
    requires
        pdf_bytes::is_loadable(pdf@),
    ensures
        pdf_bytes::reads_alike(pdf@) ==> loaded_model(document) == pdf_model(pdf@),
{
    lopdf::Document::load_from(std::io::Cursor::new(pdf)).ok()
}

/// The field `objects` of `lopdf::Document`, each object by `lopdf::Object::as_dict`.
#[verifier::external_body]
pub(crate) fn object_dictionaries(document: &lopdf::Document) -> (found: Vec<Option<&lopdf::Dictionary>>)
    ensures
        found@.map_values(|d: Option<&lopdf::Dictionary>| optional_entries(d)) == document_model(*document).objects,
{
    document.objects.values().map(|object| object.as_dict().ok()).collect()
}

/// The field `trailer` of `lopdf::Document`.
#[verifier::external_body]
pub(crate) fn trailer(document: &lopdf::Document) -> (found: &lopdf::Dictionary)
    ensures
        dictionary_entries(*found) == document_model(*document).trailer,
{
    &document.trailer
}

/// `lopdf::Document::get_object` and `lopdf::Object::as_dict` on the object that it gives.
#[verifier::external_body]
pub(crate) fn dictionary_at(document: &lopdf::Document, number: u32, generation: u16) -> (found: Option<
    &lopdf::Dictionary,
>)
    ensures
        found is Some <==> document_model(*document).dictionaries.contains_key((number, generation)),
        found matches Some(d) ==> dictionary_entries(*d) == document_model(*document).dictionaries[(
            number,
            generation,
        )],
{
    document.get_object((number, generation)).ok()?.as_dict().ok()
}

/// `lopdf::Dictionary::get`, with names, strings and references told from other objects.
#[verifier::external_body]
pub(crate) fn entry(dictionary: &lopdf::Dictionary, key: &[u8]) -> (value: Option<PdfValue>)
    ensures
        optional_value(value) == entry_of(dictionary_entries(*dictionary), key@),
{
    match dictionary.get(key).ok()? {
        lopdf::Object::Name(name) => Some(PdfValue::Name(name.clone())),
        lopdf::Object::String(text, _) => Some(PdfValue::Text(text.clone())),
        lopdf::Object::Reference(id) => Some(PdfValue::Reference(id.0, id.1)),
        _ => Some(PdfValue::Other),
    }
}

/// `lopdf::Document::page_iter`: the identifiers of the pages.
#[verifier::external_body]
pub(crate) fn page_ids(document: &lopdf::Document) -> (ids: Vec<(u32, u16)>)
    ensures
        ids@ == document_model(*document).pages,
{
    let mut ids = Vec::new();
    for id in document.page_iter() {
        ids.push(id);
    }
    ids
}

/// `lopdf::Document::get_page_content`. That memory suffices for what the streams expand to is not
/// claimed.
#[verifier::external_body]
pub(crate) fn page_content(document: &lopdf::Document, id: (u32, u16)) -> (content: Vec<u8>)
    ensures
        content@ == document_model(*document).contents[id],
{
    document.get_page_content(id)
}

/// Some lists of optional identifiers as mathematical values.
pub open spec fn id_lists(lists: Seq<Vec<Option<(u32, u16)>>>) -> Seq<Seq<Option<(u32, u16)>>> {
    lists.map_values(|l: Vec<Option<(u32, u16)>>| l@)
}

/// `lopdf::Dictionary::get_deref` for the key `Kids` of each object that is a dictionary, the
/// entries of the array by `lopdf::Object::as_reference`.
#[verifier::external_body]
pub(crate) fn object_kids(document: &lopdf::Document) -> (found: Vec<Vec<Option<(u32, u16)>>>)
    ensures
        id_lists(found@) == document_model(*document).kids,
{
    document.objects.values().map(|object| {
        object.as_dict().and_then(|d| d.get_deref(b"Kids", document))
            .and_then(lopdf::Object::as_array)
            .map(|kids| kids.iter().map(|kid| kid.as_reference().ok()).collect())
            .unwrap_or_default()
    }).collect()
}

/// `lopdf::Dictionary::get_deref` for the key `Count` of the dictionary that
/// `lopdf::Document::get_dictionary` gives.
#[verifier::external_body]
pub(crate) fn count_at(document: &lopdf::Document, id: (u32, u16)) -> (count: Option<i64>)
    ensures
        count is Some <==> document_model(*document).counts.contains_key(id),
        count matches Some(n) ==> document_model(*document).counts[id] == n,
{
    document.get_dictionary(id).ok()?.get_deref(b"Count", document).ok()?.as_i64().ok()
}

/// At most this many pages may be declared below one node of the page tree: the highest number
/// that a page can have.
pub const MAX_DECLARED_PAGES: u64 = 4_294_967_295;

/// The dictionary is a node of the page tree.
pub open spec fn is_node(entries: Entries) -> bool {
    entry_of(entries, scan::ascii("Type"@)) == Some(PdfValueModel::Name(scan::ascii("Pages"@)))
}

/// How many pages an entry of `Kids` declares: a node of the page tree as many as its `Count`
/// says, anything else one.
pub open spec fn declared_by(model: PdfModel, kid: Option<(u32, u16)>) -> nat {
    match kid {
        Some(id) => if model.dictionaries.contains_key(id) && is_node(model.dictionaries[id]) {
            if model.counts.contains_key(id) && model.counts[id] > 0 {
                model.counts[id] as nat
            } else {
                0
            }
        } else {
            1
        },
        None => 1,
    }
}

/// How many pages the first `n` of some entries of `Kids` declare together.
pub open spec fn declared_pages(model: PdfModel, kids: Seq<Option<(u32, u16)>>, n: int) -> nat
    decreases n,
{
    if n <= 0 {
        0
    } else {
        declared_pages(model, kids, n - 1) + declared_by(model, kids[n - 1])
    }
}

/// No dictionary's `Kids` declare too many pages.
pub open spec fn has_modest_pages(model: PdfModel) -> bool {
    forall|i: int|
        0 <= i < model.kids.len() ==> declared_pages(
            model,
            #[trigger] model.kids[i],
            model.kids[i].len() as int,
        ) <= MAX_DECLARED_PAGES
}

/// `lopdf::Document::extract_text`. The call sets memory aside for the pages that the nodes of the
/// page tree declare; documents that declare more than can be numbered are left out. That memory
/// suffices for the pages that are declared and for what the fonts and streams expand to is not
/// claimed.
#[verifier::external_body]
pub(crate) fn text_of_pages(document: &lopdf::Document, numbers: &[u32]) -> (text: Option<String>)
    requires
        has_modest_pages(document_model(*document)),
    ensures
        text is Some <==> document_model(*document).texts.contains_key(numbers@),
        text matches Some(t) ==> t@ == document_model(*document).texts[numbers@],
{
    document.extract_text(numbers).ok()
}

proof fn lemma_declared_pages(model: PdfModel, kids: Seq<Option<(u32, u16)>>, n: int, m: int)
    requires
        n <= m,
    ensures
        declared_pages(model, kids, n) <= declared_pages(model, kids, m),
    decreases m,
{
    if n < m && m > 0 {
        lemma_declared_pages(model, kids, n, m - 1);
    }
}

fn count_declared_by(document: &lopdf::Document, kid: Option<(u32, u16)>) -> (count: u64)
    ensures
        count == declared_by(document_model(*document), kid),
{
    proof {
        reveal_strlit("Type");
        reveal_strlit("Pages");
    }
    let id: (u32, u16) = match kid {
        Some(id) => id,
        None => {
            return 1;
        },
    };
    let dictionary = match dictionary_at(document, id.0, id.1) {
        Some(dictionary) => dictionary,
        None => {
            return 1;
        },
    };
    let node: bool = match entry(dictionary, scan::ascii_bytes("Type")) {
        Some(PdfValue::Name(name)) => scan::same_bytes(&name, scan::ascii_bytes("Pages")),
        _ => false,
    };
    if !node {
        return 1;
    }
    match count_at(document, id) {
        Some(count) => if count > 0 {
            count as u64
        } else {
            0
        },
        None => 0,
    }
}

fn are_modest(document: &lopdf::Document, kids: &[Option<(u32, u16)>]) -> (yes: bool)
    ensures
        yes == (declared_pages(document_model(*document), kids@, kids@.len() as int)
            <= MAX_DECLARED_PAGES),
{
    let mut total: u64 = 0;
    let mut i: usize = 0;
    while i < kids.len()
        invariant
            i <= kids@.len(),
            total == declared_pages(document_model(*document), kids@, i as int),
            total <= MAX_DECLARED_PAGES,
        decreases kids@.len() - i,
    {
        let declared: u64 = count_declared_by(document, kids[i]);
        proof {
            lemma_declared_pages(
                document_model(*document),
                kids@,
                i + 1,
                kids@.len() as int,
            );
        }
        if declared > MAX_DECLARED_PAGES - total {
            return false;
        }
        total = total + declared;
        i = i + 1;
    }
    true
}

/// Whether no dictionary's `Kids` declare too many pages.
pub(crate) fn pages_are_modest(document: &lopdf::Document) -> (yes: bool)
    ensures
        yes == has_modest_pages(document_model(*document)),
{
    let lists: Vec<Vec<Option<(u32, u16)>>> = object_kids(document);
    let ghost model = document_model(*document);
    let mut i: usize = 0;
    while i < lists.len()
        invariant
            i <= lists@.len(),
            model == document_model(*document),
            model.kids == id_lists(lists@),
            forall|j: int|
                0 <= j < i ==> declared_pages(
                    model,
                    #[trigger] model.kids[j],
                    model.kids[j].len() as int,
                ) <= MAX_DECLARED_PAGES,
        decreases lists@.len() - i,
    {
        assert(model.kids[i as int] == lists@[i as int]@);
        if !are_modest(document, &lists[i]) {
            return false;
        }
        i = i + 1;
    }
    true
}

} // verus!
