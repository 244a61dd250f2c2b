use lopdf::{
    Dictionary, Document, EncryptionState, EncryptionVersion, Object, Permissions, Stream,
    StringFormat,
};
use proofpass::byte_range::{collect_covered, ends_can_be_added, extract_byte_range};
use proofpass::content_stream::extract_tj_from_stream;
use proofpass::contents::{read_inline_blob, trimmed_signature};
use proofpass::dates::{can_cut, parse_pdf_date};
use proofpass::pdf_bytes::{can_be_loaded, MAX_LOOKUPS};
use proofpass::pdf_document::PdfValue;
use proofpass::pdf_utils::{
    choose_date, derive_nullifier, extract_pdf_date, extract_pdf_text, extract_signature_bytes,
    find_signature, SignatureFields,
};
use proofpass::program;
use proofpass::text::check_accredited_investor_phrase;
use sha2::Digest;

#[test]
fn test_phrase_check() {
    let good = "The investor has a net worth in excess of $1,000,000, \
                excluding the value of their primary residence.";
    assert!(check_accredited_investor_phrase(good));

    let bad = "net worth over 1 million";
    assert!(!check_accredited_investor_phrase(bad));
}

#[test]
fn test_byte_range_parse() {
    let pdf_snippet = b"...stuff.../ByteRange [0 1000 2000 500] more stuff...";
    let ranges = extract_byte_range(pdf_snippet);
    assert_eq!(ranges, Some([0usize, 1000, 2000, 500]));
}

#[test]
fn the_phrase_needs_both_parts() {
    assert!(!check_accredited_investor_phrase("excluding the value of their primary residence"));
    assert!(!check_accredited_investor_phrase("1,000,000"));
    assert!(check_accredited_investor_phrase(
        "1,000,000excluding the value of their primary residence"
    ));
    assert!(check_accredited_investor_phrase(
        "net worth with their spouse in excess of $1,000,000, excluding the value of their primary residence"
    ));
    assert!(!check_accredited_investor_phrase(""));
}

#[test]
fn byte_ranges_that_are_none() {
    assert_eq!(extract_byte_range(b"/ByteRange [1 2 3]"), None);
    assert_eq!(extract_byte_range(b"/ByteRange [1 2 3 4 5]"), None);
    assert_eq!(extract_byte_range(b"/ByteRange 1 2 3 4"), None);
    assert_eq!(extract_byte_range(b"/ByteRange [1 2 3 4"), None);
    assert_eq!(extract_byte_range(b"[1 2 3 4]"), None);
    assert_eq!(extract_byte_range(b"/ByteRange [1 2 \xff 3 4]"), None);
}

#[test]
fn byte_ranges_pass_over_other_words() {
    assert_eq!(extract_byte_range(b"/ByteRange\n[ 1 x\t+2 -7 3\n4 ]"), Some([1, 2, 3, 4]));
    assert_eq!(
        extract_byte_range(b"/ByteRange [1 99999999999999999999999999 2 3 4]"),
        Some([1, 2, 3, 4])
    );
    assert_eq!(
        extract_byte_range("/ByteRange [1\u{a0}2\u{3000}3 4]".as_bytes()),
        Some([1, 2, 3, 4])
    );
}

#[test]
fn covered_bytes_are_put_together() {
    let pdf = b"0123456789";
    assert_eq!(collect_covered(pdf, &[0, 3, 7, 3]), Some(b"012789".to_vec()));
    assert_eq!(collect_covered(pdf, &[5, 5, 0, 0]), Some(b"56789".to_vec()));
    assert_eq!(collect_covered(pdf, &[0, 11, 0, 1]), None);
    assert_eq!(collect_covered(pdf, &[0, 1, 9, 2]), None);
    assert!(ends_can_be_added(pdf, &[0, 3, 7, 3]));
    assert!(!ends_can_be_added(pdf, &[usize::MAX, 1, 0, 0]));
    assert!(!ends_can_be_added(pdf, &[0, 1, usize::MAX, 1]));
    assert!(ends_can_be_added(pdf, &[0, 11, usize::MAX, 1]));
}

fn inline_pdf(blob: &[u8]) -> Vec<u8> {
    format!("%PDF-1.7 /Type/Sig/Contents<{}>/Next", hex::encode(blob)).into_bytes()
}

#[test]
fn an_inline_blob_is_read_back() {
    let blob: Vec<u8> = (1..=40).collect();
    assert_eq!(read_inline_blob(&inline_pdf(&blob)), Some(blob.clone()));
    assert_eq!(extract_signature_bytes(&inline_pdf(&blob)), Some(blob));
    assert_eq!(read_inline_blob(b"/Contents <0A0b0C0d0E0f>"), Some(vec![10, 11, 12, 13, 14, 15]));
}

#[test]
fn inline_blobs_that_are_none() {
    assert_eq!(read_inline_blob(b"/Contents <0102030405>"), None);
    assert_eq!(read_inline_blob(b"/Contents <0102030405060>"), None);
    assert_eq!(read_inline_blob(b"/Contents <01020304050g>"), None);
    assert_eq!(read_inline_blob(b"/Contents 010203040506"), None);
    assert_eq!(read_inline_blob(b"/Contents <010203040506"), None);
    assert_eq!(read_inline_blob(b"<010203040506>"), None);
    let long = vec![1u8; 200];
    assert_eq!(read_inline_blob(&inline_pdf(&long)), None);
}

#[test]
fn padding_is_cut_off() {
    let mut blob: Vec<u8> = (1..=33).collect();
    let bare = blob.clone();
    blob.extend_from_slice(&[0; 20]);
    assert_eq!(extract_signature_bytes(&inline_pdf(&blob)), Some(bare.clone()));
    assert_eq!(trimmed_signature(&blob), Some(bare));
    assert_eq!(trimmed_signature(&[5u8; 32]), None);
    assert_eq!(trimmed_signature(&[0u8; 64]), None);
    let mut short: Vec<u8> = (1..=32).collect();
    short.extend_from_slice(&[0; 8]);
    assert_eq!(extract_signature_bytes(&inline_pdf(&short)), None);
}

#[test]
fn the_nullifier_is_the_digest_of_the_signature() {
    let blob: Vec<u8> = (1..=40).collect();
    let expected: [u8; 32] = sha2::Sha256::digest(&blob).into();
    assert_eq!(derive_nullifier(&inline_pdf(&blob)), expected);

    let unsigned = b"no signature here";
    let expected: [u8; 32] = sha2::Sha256::digest(unsigned).into();
    assert_eq!(derive_nullifier(unsigned), expected);
    assert_eq!(
        hex::encode(derive_nullifier(b"abc")),
        "ba7816bf8f01cfea414140de5dae2223b00361a396177a9cb410ff61f20015ad"
    );
}

fn saved(mut document: Document) -> Vec<u8> {
    let mut bytes = Vec::new();
    document.save_to(&mut bytes).unwrap();
    bytes
}

fn dictionary(entries: Vec<(&str, Object)>) -> Dictionary {
    let mut dict = Dictionary::new();
    for (key, value) in entries {
        dict.set(key, value);
    }
    dict
}

fn name(text: &str) -> Object {
    Object::Name(text.as_bytes().to_vec())
}

fn string(bytes: &[u8]) -> Object {
    Object::String(bytes.to_vec(), StringFormat::Hexadecimal)
}

fn literal(text: &str) -> Object {
    Object::String(text.as_bytes().to_vec(), StringFormat::Literal)
}

/// A document of the given pages, each with its content stream.
fn paged(pages: &[&[u8]]) -> Document {
    let mut document = Document::with_version("1.5");
    let tree = document.new_object_id();
    let font = document.add_object(dictionary(vec![
        ("Type", name("Font")),
        ("Subtype", name("Type1")),
        ("BaseFont", name("Courier")),
        ("Encoding", name("WinAnsiEncoding")),
    ]));
    let resources = document.add_object(dictionary(vec![(
        "Font",
        Object::Dictionary(dictionary(vec![("F1", Object::Reference(font))])),
    )]));
    let mut kids = Vec::new();
    for content in pages {
        let stream = document.add_object(Stream::new(Dictionary::new(), content.to_vec()));
        let page = document.add_object(dictionary(vec![
            ("Type", name("Page")),
            ("Parent", Object::Reference(tree)),
            ("Contents", Object::Reference(stream)),
        ]));
        kids.push(Object::Reference(page));
    }
    let count = kids.len() as i64;
    document.objects.insert(
        tree,
        Object::Dictionary(dictionary(vec![
            ("Type", name("Pages")),
            ("Kids", Object::Array(kids)),
            ("Count", Object::Integer(count)),
            ("Resources", Object::Reference(resources)),
        ])),
    );
    let catalog = document.add_object(dictionary(vec![
        ("Type", name("Catalog")),
        ("Pages", Object::Reference(tree)),
    ]));
    document.trailer.set("Root", Object::Reference(catalog));
    document
}

#[test]
fn a_signature_is_found_in_the_dictionaries() {
    let long: Vec<u8> = (0..220u32).map(|i| (i % 200 + 1) as u8).collect();
    let mut padded = long.clone();
    padded.extend_from_slice(&[0; 30]);
    let mut document = Document::with_version("1.5");
    document.add_object(dictionary(vec![("Type", name("Other")), ("Contents", string(&[7; 300]))]));
    document.add_object(dictionary(vec![("Type", name("Sig")), ("Contents", string(&[0; 300]))]));
    document.add_object(dictionary(vec![("FT", name("Sig")), ("Contents", string(&padded))]));
    document.add_object(dictionary(vec![("Type", name("Sig")), ("Contents", string(&[8; 300]))]));
    assert_eq!(extract_signature_bytes(&saved(document)), Some(long.clone()));

    let mut document = Document::with_version("1.5");
    document.add_object(dictionary(vec![("Type", name("Sig")), ("Contents", name("Name"))]));
    assert_eq!(extract_signature_bytes(&saved(document)), None);
    assert_eq!(extract_signature_bytes(b"not a document"), None);
}

#[test]
fn the_first_signature_among_fields_is_taken() {
    let sig = || Some(PdfValue::Name(b"Sig".to_vec()));
    let text = |b: u8| Some(PdfValue::Text(vec![b; 40]));
    let fields = vec![
        None,
        Some(SignatureFields { field_type: None, kind: None, contents: text(1) }),
        Some(SignatureFields {
            field_type: Some(PdfValue::Text(b"Sig".to_vec())),
            kind: Some(PdfValue::Name(b"Sign".to_vec())),
            contents: text(2),
        }),
        Some(SignatureFields { field_type: sig(), kind: None, contents: Some(PdfValue::Other) }),
        Some(SignatureFields { field_type: None, kind: sig(), contents: text(3) }),
        Some(SignatureFields { field_type: sig(), kind: None, contents: text(4) }),
    ];
    assert_eq!(find_signature(&fields), Some(vec![3; 40]));
    assert_eq!(find_signature(&fields[..4]), None);
}

#[test]
fn dates_become_timestamps() {
    assert_eq!(parse_pdf_date(b"D:20240115103000Z"), Some(1_705_314_600));
    assert_eq!(program::parse_pdf_date(b"D:20240115103000Z"), Some(1_705_314_600));
    assert_eq!(parse_pdf_date(b"20240229000000"), Some(1_709_164_800));
    assert_eq!(parse_pdf_date(b"D:19700101000000"), Some(0));
    assert_eq!(parse_pdf_date(b"D:D:19700101000001"), Some(1));
    assert_eq!(program::parse_pdf_date(b"D:D:19700101000001"), None);
    assert_eq!(parse_pdf_date(b"D:19691231235959"), Some(u64::MAX));
}

#[test]
fn dates_that_are_none() {
    assert_eq!(parse_pdf_date(b"D:20230229000000"), None);
    assert_eq!(parse_pdf_date(b"D:20241301000000"), None);
    assert_eq!(parse_pdf_date(b"D:20240101240000"), None);
    assert_eq!(parse_pdf_date(b"D:20240101006000"), None);
    assert_eq!(parse_pdf_date(b"D:20240101000060"), None);
    assert_eq!(parse_pdf_date(b"D:2024010100000"), None);
    assert_eq!(parse_pdf_date(b"D:2024-101000000"), None);
    assert_eq!(parse_pdf_date(b"\xff20240101000000"), None);
    assert_eq!(program::parse_pdf_date(b""), None);
}

#[test]
fn a_sign_before_a_number_of_a_date_is_taken() {
    assert_eq!(parse_pdf_date(b"+202+1+1+1+1+1"), parse_pdf_date(b"02020101010101"));
    assert!(parse_pdf_date(b"+202+1+1+1+1+1").is_some());
    assert!(parse_pdf_date(b"-2020101010101").is_some());
}

#[test]
fn dates_are_cut_between_characters() {
    assert!(can_cut(b"D:20240115103000Z"));
    assert!(can_cut(b"short"));
    assert!(!can_cut("202\u{e9}0115103000".as_bytes()));
    assert!(can_cut("x02401\u{e9}103000".as_bytes()));
}

#[test]
fn the_date_of_a_document() {
    let mut document = paged(&[]);
    let info = document.add_object(dictionary(vec![
        ("ModDate", literal("D:20200101000000")),
        ("CreationDate", literal("D:20240115103000Z")),
    ]));
    document.trailer.set("Info", Object::Reference(info));
    let pdf = saved(document);
    assert_eq!(extract_pdf_date(&pdf), Some(1_705_314_600));

    let mut document = paged(&[]);
    let info = document.add_object(dictionary(vec![("ModDate", literal("D:20200101000000"))]));
    document.trailer.set("Info", Object::Reference(info));
    assert_eq!(extract_pdf_date(&saved(document)), Some(1_577_836_800));

    let mut document = paged(&[]);
    let info = document.add_object(dictionary(vec![
        ("CreationDate", name("D:20240115103000Z")),
        ("ModDate", literal("D:20200101000000")),
    ]));
    document.trailer.set("Info", Object::Reference(info));
    assert_eq!(extract_pdf_date(&saved(document)), None);

    assert_eq!(extract_pdf_date(&saved(paged(&[]))), None);
    assert_eq!(extract_pdf_date(b"not a document"), None);

    let mut document = paged(&[]);
    let info = document.add_object(dictionary(vec![(
        "CreationDate",
        string("202\u{e9}0115103000".as_bytes()),
    )]));
    document.trailer.set("Info", Object::Reference(info));
    assert_eq!(extract_pdf_date(&saved(document)), None);
}

#[test]
fn a_date_is_chosen_by_its_key() {
    let text = |s: &str| Some(PdfValue::Text(s.as_bytes().to_vec()));
    assert_eq!(choose_date(text("a"), text("b")), Some(b"a".to_vec()));
    assert_eq!(choose_date(None, text("b")), Some(b"b".to_vec()));
    assert_eq!(choose_date(Some(PdfValue::Other), text("b")), None);
    assert_eq!(choose_date(None, None), None);
}

fn shown(stream: &[u8]) -> String {
    let mut out = String::from("+");
    extract_tj_from_stream(stream, &mut out);
    out
}

#[test]
fn content_streams_show_text() {
    assert_eq!(shown(b"BT (Hello) Tj ET"), "+Hello ");
    assert_eq!(shown(b"[(Hel) 20 (lo)] TJ"), "+Hel lo lo ");
    assert_eq!(shown(b"[(a)(b)]TJ x"), "+a b b ");
    assert_eq!(shown(b"[(A)]TJ [(B)] TJ"), "+A B B ");
    assert_eq!(shown(b"[(A)] TJ[(B)]TJ[(C)]TJ"), "+A B C C ");
    assert_eq!(shown(b"(one) Tj (two) Tj"), "+one two ");
    assert_eq!(shown(b"(open Tj"), "+");
    assert_eq!(shown(b""), "+");
}

#[test]
fn content_streams_with_characters_of_several_bytes() {
    assert_eq!(shown("[(a)]TJ\u{e9}".as_bytes()), "+a a ");
    assert_eq!(shown("[(a)]TJ\u{e9}b[(c)]TJ".as_bytes()), "+a c c ");
    assert_eq!(shown("[(\u{e9})] TJ\u{e9}b".as_bytes()), "+\u{e9} \u{e9} ");
}

#[test]
fn bytes_that_are_not_text_are_replaced() {
    assert_eq!(shown(b"(a\xffb) Tj"), "+a\u{fffd}b ");
}

#[test]
fn the_text_of_a_document() {
    let pdf = saved(paged(&[
        b"BT /F1 12 Tf (net worth in excess of $1,000,000, ) Tj ET",
        b"BT /F1 12 Tf (excluding the value of their primary residence) Tj ET",
    ]));
    let text = extract_pdf_text(&pdf);
    assert_eq!(
        text,
        "net worth in excess of $1,000,000, \nexcluding the value of their primary residence\n"
    );
    assert!(check_accredited_investor_phrase(&text));
}

#[test]
fn the_text_of_a_document_whose_pages_give_none() {
    let pdf = saved(paged(&[b"BT (first) Tj ET", b"BT [(sec) 5 (ond)] TJ ET"]));
    assert_eq!(extract_pdf_text(&pdf), "first sec ond ond ");
    assert_eq!(extract_pdf_text(b"not a document"), "");
    let pdf = saved(paged(&["[(a)]TJ\u{e9}b".as_bytes()]));
    assert_eq!(extract_pdf_text(&pdf), "a a ");
}

#[test]
fn a_page_tree_may_not_declare_too_many_pages() {
    let nested = |count: i64| {
        let mut document = paged(&[b"BT /F1 12 Tf (text) Tj ET"]);
        let inner = document.add_object(dictionary(vec![
            ("Type", name("Pages")),
            ("Kids", Object::Array(vec![])),
            ("Count", Object::Integer(count)),
        ]));
        let outer = document.add_object(dictionary(vec![
            ("Type", name("Pages")),
            ("Kids", Object::Array(vec![Object::Reference(inner)])),
        ]));
        let catalog = document.add_object(dictionary(vec![
            ("Type", name("Catalog")),
            ("Pages", Object::Reference(outer)),
        ]));
        document.trailer.set("Root", Object::Reference(catalog));
        saved(document)
    };
    assert_eq!(extract_pdf_text(&nested(1)), "");
    assert_eq!(extract_pdf_text(&nested(262_145)), "");
    assert_eq!(extract_pdf_text(&nested(4_294_967_296)), "");
    assert_eq!(extract_pdf_text(&nested(1 << 62)), "");
    assert_eq!(extract_pdf_text(&nested(-5)), "");

    let declared = |count: i64| {
        let mut document = paged(&[b"BT /F1 12 Tf (text) Tj ET"]);
        let inner = document.add_object(dictionary(vec![
            ("Type", name("Pages")),
            ("Kids", Object::Array(vec![])),
            ("Count", Object::Integer(count)),
        ]));
        let tree = document.catalog().unwrap().get(b"Pages").unwrap().as_reference().unwrap();
        let kids = document.get_dictionary_mut(tree).unwrap().get_mut(b"Kids").unwrap();
        kids.as_array_mut().unwrap().push(Object::Reference(inner));
        saved(document)
    };
    assert_eq!(extract_pdf_text(&declared(1_000)), "text\n");
    assert_eq!(extract_pdf_text(&declared(1 << 62)), "text ");
}

#[test]
fn encrypted_files_are_read_with_the_empty_password() {
    let signature = vec![7u8; 250];
    let encrypted = |user_password: &str| {
        let mut document = paged(&[b"BT /F1 12 Tf (secret) Tj ET"]);
        document.add_object(dictionary(vec![
            ("Type", name("Sig")),
            ("Contents", string(&signature)),
        ]));
        let info =
            document.add_object(dictionary(vec![("CreationDate", literal("D:20240115103000Z"))]));
        document.trailer.set("Info", Object::Reference(info));
        document.trailer.set("ID", Object::Array(vec![string(&[1; 16]), string(&[2; 16])]));
        let state = EncryptionState::try_from(EncryptionVersion::V2 {
            document: &document,
            owner_password: "owner",
            user_password,
            key_length: 128,
            permissions: Permissions::all(),
        })
        .unwrap();
        document.encrypt(&state).unwrap();
        saved(document)
    };
    let open = encrypted("");
    assert!(can_be_loaded(&open));
    assert_eq!(extract_signature_bytes(&open), Some(signature.clone()));
    let nullifier: [u8; 32] = sha2::Sha256::digest(&signature).into();
    assert_eq!(derive_nullifier(&open), nullifier);
    assert_eq!(extract_pdf_date(&open), Some(1_705_314_600));
    assert_eq!(extract_pdf_text(&open), "secret\n");

    let closed = encrypted("user");
    assert!(can_be_loaded(&closed));
    assert_eq!(extract_signature_bytes(&closed), None);
    let whole: [u8; 32] = sha2::Sha256::digest(&closed).into();
    assert_eq!(derive_nullifier(&closed), whole);
    assert_eq!(extract_pdf_date(&closed), None);
    assert_eq!(extract_pdf_text(&closed), "");
}

#[test]
fn files_that_only_mention_encryption() {
    assert!(can_be_loaded(b"trailer << /Encrypt 5 0 R >>"));
    let pdf = b"no signature /Encrypt";
    assert_eq!(extract_signature_bytes(pdf), None);
    assert_eq!(extract_pdf_date(pdf), None);
    assert_eq!(extract_pdf_text(pdf), "");
    let blob: Vec<u8> = (1..=40).collect();
    let mut signed = inline_pdf(&blob);
    signed.extend_from_slice(b"/Encrypt");
    assert_eq!(extract_signature_bytes(&signed), Some(blob));
}

/// A file of the given objects, numbered from one on.
fn file_of(objects: &[String]) -> Vec<u8> {
    let mut pdf = b"%PDF-1.5\n".to_vec();
    let mut offsets = Vec::new();
    for (i, object) in objects.iter().enumerate() {
        offsets.push(pdf.len());
        pdf.extend_from_slice(format!("{} 0 obj {} endobj\n", i + 1, object).as_bytes());
    }
    let start = pdf.len();
    pdf.extend_from_slice(format!("xref\n1 {}\n", objects.len()).as_bytes());
    for offset in &offsets {
        pdf.extend_from_slice(format!("{:010} 00000 n \n", offset).as_bytes());
    }
    let trailer =
        format!("trailer<</Size {}/Root 1 0 R>>\nstartxref\n{}\n%%EOF\n", objects.len() + 1, start);
    pdf.extend_from_slice(trailer.as_bytes());
    pdf
}

/// A file of `n` streams, each of which gives the next as its length.
fn chained(n: usize) -> Vec<u8> {
    let objects: Vec<String> = (1..=n)
        .map(|i| format!("<</Length {} 0 R>>stream\nx\nendstream", i + 1))
        .collect();
    file_of(&objects)
}

#[test]
fn lengths_may_lead_from_object_to_object_so_often() {
    let longest = chained(MAX_LOOKUPS + 1);
    assert!(can_be_loaded(&longest));
    assert_eq!(extract_signature_bytes(&longest), None);
    assert!(!can_be_loaded(&chained(MAX_LOOKUPS + 2)));
    assert!(!can_be_loaded(&chained(5_000)));
    let mut packed = longest;
    packed.extend_from_slice(b"/W [1 2 1]");
    assert!(!can_be_loaded(&packed));
}

/// A file of `n` streams, each of which gives as its length an object that is packed into the next.
fn packed_chain(n: usize) -> Vec<u8> {
    let mut pdf = b"%PDF-1.5\n".to_vec();
    let mut table = Vec::new();
    let mut entry = |kind: u8, second: usize, third: u16| {
        table.push(kind);
        table.extend_from_slice(&(second as u32).to_be_bytes());
        table.extend_from_slice(&third.to_be_bytes());
    };
    for i in 1..=n {
        entry(1, pdf.len(), 0);
        let object = format!("{} 0 obj <</Length {} 0 R>>stream\nx\nendstream endobj\n", i, n + i);
        pdf.extend_from_slice(object.as_bytes());
    }
    for i in 1..=n {
        entry(2, i + 1, 0);
    }
    let start = pdf.len();
    let head = format!(
        "{} 0 obj <</Type/XRef/Size {}/W [1 4 2]/Index [1 {}]/Root 1 0 R/Length {}>>stream\n",
        2 * n + 1,
        2 * n + 1,
        2 * n,
        table.len()
    );
    pdf.extend_from_slice(head.as_bytes());
    pdf.extend_from_slice(&table);
    let end = format!("\nendstream endobj\nstartxref\n{}\n%%EOF\n", start);
    pdf.extend_from_slice(end.as_bytes());
    pdf
}

#[test]
fn lengths_may_lead_through_packed_objects() {
    let longest = packed_chain(MAX_LOOKUPS);
    assert!(can_be_loaded(&longest));
    let document = Document::load_mem(&longest).unwrap();
    assert_eq!(document.objects.len(), MAX_LOOKUPS);
    assert_eq!(extract_signature_bytes(&longest), None);
    assert!(!can_be_loaded(&packed_chain(MAX_LOOKUPS + 1)));
}

#[test]
fn a_long_way_may_end_in_the_deepest_nesting() {
    let mut objects: Vec<String> = (1..=24)
        .map(|i| format!("<</Length {} 0 R>>stream\nx\nendstream", i + 1))
        .collect();
    let text = format!("{}{}", "(".repeat(100), ")".repeat(100));
    objects.push(format!("{}{}{}", "[".repeat(98), text, "]".repeat(98)));
    let pdf = file_of(&objects);
    assert!(can_be_loaded(&pdf));
    assert_eq!(extract_signature_bytes(&pdf), None);
    let last = objects.len() - 1;
    objects[last] = format!("{}{}{}", "[<</A".repeat(49), text, ">>]".repeat(49));
    let pdf = file_of(&objects);
    assert!(can_be_loaded(&pdf));
    assert_eq!(extract_signature_bytes(&pdf), None);
}

#[test]
fn lengths_that_are_numbers_do_not_count() {
    let mut objects = Vec::new();
    for i in 0..500 {
        objects.push(format!("<</Length {} 0 R>>stream\nxyz\nendstream", 2 * i + 2));
        objects.push("3".to_string());
    }
    let signature = vec![7u8; 250];
    objects.push(format!("<</Type/Sig/Contents <{}>>>", hex::encode(&signature)));
    let mut pdf = file_of(&objects);
    assert!(can_be_loaded(&pdf));
    assert_eq!(extract_signature_bytes(&pdf), Some(signature));
    pdf.extend_from_slice(b"/W[3[250 333]5[400]] /Widths [600 600]");
    assert!(can_be_loaded(&pdf));
    pdf.extend_from_slice(b"/#57 [1 2 1]");
    assert!(!can_be_loaded(&pdf));
}

#[test]
fn offsets_that_point_into_a_number_are_not_trusted() {
    let mut objects = Vec::new();
    for i in 0..MAX_LOOKUPS + 10 {
        objects.push(format!("<</Length {} 0 R>>stream\nxyz\nendstream", 2 * i + 2));
        objects.push("3".to_string());
    }
    let pdf = file_of(&objects);
    assert!(can_be_loaded(&pdf));
    let place = pdf.windows(7).position(|w| w == b"51 0 ob").unwrap() + 1;
    let mut misled = pdf.clone();
    misled.extend_from_slice(format!("\n{:010} 00000 n \n", place).as_bytes());
    assert!(!can_be_loaded(&misled));
    let mut harmless = pdf.clone();
    harmless.extend_from_slice(format!("\n{:010} 00000 n \n", place - 1).as_bytes());
    assert!(can_be_loaded(&harmless));
    let mut shifted = b"junk".to_vec();
    shifted.extend_from_slice(&harmless);
    assert!(can_be_loaded(&shifted));
}

#[test]
fn lengths_that_look_like_references() {
    let many = |text: &str| can_be_loaded(text.repeat(MAX_LOOKUPS + 1).as_bytes());
    assert!(many("/Length 12/Length 5>>/Length1 77 /L"));
    let with_head = |text: &str| {
        let heads = "\n7 0 obj <<".repeat(MAX_LOOKUPS + 1);
        can_be_loaded([text.repeat(MAX_LOOKUPS + 1), heads].concat().as_bytes())
    };
    assert!(with_head("/Length 8 0 R "));
    assert!(!with_head("/Length 7 0 R "));
    assert!(!with_head("/L#65ngth % comment\n 007 0 R "));
    assert!(!with_head("/Length 00000000007 0 R "));
    assert!(with_head("/Length 7>>"));
}
