use vstd::prelude::*;

use crate::docs::Document;
use crate::model::Entry;

verus! {

/// The compression envelope that wraps an encoded tag stream.
#[derive(PartialEq, Eq, Structural, Clone, Copy, Debug)]
pub enum Envelope {
    Gzip,
    Zlib,
    Raw,
}

/// True when the two leading bytes are the gzip magic pair.
pub open spec fn is_gzip_magic(b0: u8, b1: u8) -> bool {
    b0 == 0x1f && b1 == 0x8b
}

/// True when the two leading bytes form one of the four zlib header pairs.
pub open spec fn is_zlib_magic(b0: u8, b1: u8) -> bool {
    b0 == 0x78 && (b1 == 0x01 || b1 == 0x5e || b1 == 0x9c || b1 == 0xda)
}

/// Classifies a two-byte prefix into the envelope the decoder should assume.
pub fn classify_prefix(b0: u8, b1: u8) -> (e: Envelope)
    ensures
        e == Envelope::Gzip <==> is_gzip_magic(b0, b1),
        e == Envelope::Zlib <==> (is_zlib_magic(b0, b1) && !is_gzip_magic(b0, b1)),
        e == Envelope::Raw <==> (!is_gzip_magic(b0, b1) && !is_zlib_magic(b0, b1)),
{
    if b0 == 0x1f && b1 == 0x8b {
        Envelope::Gzip
    } else if b0 == 0x78 && (b1 == 0x01 || b1 == 0x5e || b1 == 0x9c || b1 == 0xda) {
        Envelope::Zlib
    } else {
        Envelope::Raw
    }
}

/// The envelope the two leading bytes announce: the gzip magic pair, one of
/// the four zlib header pairs, or — for every other pair — a raw stream.
pub open spec fn spec_classify(b0: u8, b1: u8) -> Envelope {
    if is_gzip_magic(b0, b1) {
        Envelope::Gzip
    } else if is_zlib_magic(b0, b1) {
        Envelope::Zlib
    } else {
        Envelope::Raw
    }
}

/// Why an ingest failed. No partial document ever comes out of a failure.
#[derive(PartialEq, Eq, Structural, Clone, Copy, Debug)]
pub enum IngestError {
    /// The source could not be opened or read — including a stream too
    /// short to hold the two-byte signature.
    Io,
    /// Decompression or decode failed; carries the envelope that was
    /// attempted, as the sniffing step chose it.
    Codec(Envelope),
}

/// Sniffs a byte stream's compression envelope without consuming it.
///
/// The caller hands the whole stream (or any prefix of at least two bytes)
/// and keeps it untouched for the decode step, which re-reads from byte
/// zero. A stream too short for the two-byte signature is a read error.
pub fn classify(bytes: &[u8]) -> (r: Result<Envelope, IngestError>)
    ensures
        bytes@.len() >= 2 ==> r == Result::<Envelope, IngestError>::Ok(
            spec_classify(bytes@[0], bytes@[1]),
        ),
        bytes@.len() < 2 ==> r == Result::<Envelope, IngestError>::Err(IngestError::Io),
{
    if bytes.len() < 2 {
        Err(IngestError::Io)
    } else {
        Ok(classify_prefix(bytes[0], bytes[1]))
    }
}

/// Derives the display title of a freshly ingested document: the file's
/// base name where one is known, the fixed fallback otherwise.
pub fn derive_title(file_name: Option<String>) -> (t: String)
    ensures
        file_name matches Some(s) ==> t@ == s@,
        file_name is None ==> t@ == "Untitled"@,
{
    match file_name {
        Some(s) => s,
        None => "Untitled".to_owned(),
    }
}

/// Completes an ingest once the codec has run: a decoded root compound is
/// wrapped as a document under `title`; a codec failure is reported tagged
/// with the envelope that was attempted, and no document is produced.
pub fn finish_ingest(envelope: Envelope, decoded: Option<Vec<Entry>>, title: String) -> (r: Result<
    Document,
    IngestError,
>)
    ensures
        decoded matches Some(entries) ==> (r matches Ok(d) && d.title == title && d.root == entries
            && d.ui.slots@.len() == 0),
        decoded is None ==> r == Result::<Document, IngestError>::Err(
            IngestError::Codec(envelope),
        ),
{
    match decoded {
        Some(entries) => Ok(Document::new(title, entries)),
        None => Err(IngestError::Codec(envelope)),
    }
}

} // verus!
