pub mod attestation_laws;
pub mod bn254;
pub mod byte_range;
pub mod certificates;
pub mod chain;
pub mod cms_data;
pub mod content_laws;
pub mod content_stream;
pub mod contents;
pub mod dates;
pub mod decimal;
pub mod gate;
pub mod gate_laws;
pub mod hashes;
pub mod ledger;
pub mod pdf_bytes;
pub mod pdf_document;
pub mod pdf_signature;
pub mod pdf_utils;
pub mod program;
pub mod proof_encoding;
pub mod reading_laws;
pub mod rsa_keys;
pub mod scan;
pub mod signature_laws;
pub mod text;
