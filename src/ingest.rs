use vstd::prelude::*;

use crate::text::{append_joined, joined, views};
use crate::embedding::{calculate_content_hash, hex_of, sha256_of};
use crate::store::Document;
use vstd::utf8::encode_utf8;

verus! {

/// The kinds of file that text is extracted from.
#[derive(Clone, Copy, Debug, PartialEq, Eq, Structural)]
pub enum FileKind {
    PlainText,
    Pdf,
    Docx,
    Csv,
    Unsupported,
}

/// `s` in lowercase, as `str::to_lowercase` gives it.
pub uninterp spec fn lower_of(s: Seq<char>) -> Seq<char>;

/// Relies on `str::to_lowercase`: the result depends on the characters alone.
#[verifier::external_body]
fn lowercase(s: &str) -> (r: String)
    ensures
        r@ == lower_of(s@),
{
    s.to_lowercase()
}

/// The kind of file that a lowercase extension names.
pub open spec fn kind_of(ext: Seq<char>) -> FileKind {
    if ext == "txt"@ || ext == "md"@ {
        FileKind::PlainText
    } else if ext == "pdf"@ {
        FileKind::Pdf
    } else if ext == "docx"@ {
        FileKind::Docx
    } else if ext == "csv"@ {
        FileKind::Csv
    } else {
        FileKind::Unsupported
    }
}

/// The kind of file that the lowercase extension `lowered` names.
pub fn classify_extension(lowered: &String) -> (r: FileKind)
    ensures
        r == kind_of(lowered@),
{
    if *lowered == String::from_str("txt") || *lowered == String::from_str("md") {
        FileKind::PlainText
    } else if *lowered == String::from_str("pdf") {
        FileKind::Pdf
    } else if *lowered == String::from_str("docx") {
        FileKind::Docx
    } else if *lowered == String::from_str("csv") {
        FileKind::Csv
    } else {
        FileKind::Unsupported
    }
}

/// The kind of file that the extension `ext` names, in any case, with the
/// extension in lowercase.
pub fn file_kind(ext: &str) -> (r: (FileKind, String))
    ensures
        r.1@ == lower_of(ext@),
        r.0 == kind_of(lower_of(ext@)),
{
    let lowered = lowercase(ext);
    let kind = classify_extension(&lowered);
    (kind, lowered)
}

/// The text that extraction yields from what reading the file gave: plain text
/// passes on, including a failure to read it; a PDF, Word or CSV file that could
/// not be read yields a sentence saying so; an unsupported file yields a
/// sentence naming its extension `lowered`.
pub open spec fn extraction(
    kind: FileKind,
    lowered: Seq<char>,
    outcome: Result<String, String>,
) -> Result<Seq<char>, Seq<char>> {
    match kind {
        FileKind::Unsupported => Ok("Unsupported file type: "@ + lowered),
        _ => match outcome {
            Ok(t) => Ok(t@),
            Err(e) => match kind {
                FileKind::PlainText => Err(e@),
                FileKind::Pdf => Ok("Could not extract text from PDF"@),
                FileKind::Docx => Ok("Could not extract text from DOCX: "@ + e@),
                _ => Ok("Could not extract text from CSV: "@ + e@),
            },
        },
    }
}

/// Decides the text of a document from what reading it gave; see `extraction`.
pub fn extracted_text(kind: FileKind, lowered: &str, outcome: Result<String, String>) -> (r: Result<
    String,
    String,
>)
    ensures
        r is Ok <==> extraction(kind, lowered@, outcome) is Ok,
        r is Ok ==> r->Ok_0@ == extraction(kind, lowered@, outcome)->Ok_0,
        r is Err ==> r->Err_0@ == extraction(kind, lowered@, outcome)->Err_0,
{
    if kind == FileKind::Unsupported {
        let mut s = String::from_str("Unsupported file type: ");
        s.append(lowered);
        return Ok(s);
    }
    match outcome {
        Ok(t) => Ok(t),
        Err(e) => match kind {
            FileKind::PlainText => Err(e),
            FileKind::Pdf => Ok(String::from_str("Could not extract text from PDF")),
            FileKind::Docx => {
                let mut s = String::from_str("Could not extract text from DOCX: ");
                s.append(e.as_str());
                Ok(s)
            },
            _ => {
                let mut s = String::from_str("Could not extract text from CSV: ");
                s.append(e.as_str());
                Ok(s)
            },
        },
    }
}

/// Each record's fields joined by " | ", one line each.
pub open spec fn table_lines(rows: Seq<Vec<String>>) -> Seq<char>
    decreases rows.len(),
{
    if rows.len() == 0 {
        seq![]
    } else {
        table_lines(rows.drop_last()) + joined(views(rows.last()@), " | "@) + "\n"@
    }
}

/// The text of a table: the header line, when there is one, then one line per
/// record, each with its fields joined by " | ".
pub fn extract_csv_text(header: &Option<Vec<String>>, records: &Vec<Vec<String>>) -> (r: String)
    ensures
        r@ == match header {
            Some(h) => joined(views(h@), " | "@) + "\n"@,
            None => Seq::<char>::empty(),
        } + table_lines(records@),
{
    let mut s = String::new();
    match header {
        Some(h) => {
            append_joined(&mut s, h, " | ");
            s.append("\n");
            assert(views(h@) =~= Seq::new(h@.len(), |i: int| h@[i]@));
        },
        None => {},
    }
    let ghost start = s@;
    for i in 0..records.len()
        invariant
            s@ == start + table_lines(records@.take(i as int)),
    {
        append_joined(&mut s, &records[i], " | ");
        s.append("\n");
        proof {
            let next = records@.take(i as int + 1);
            assert(next.drop_last() =~= records@.take(i as int));
            assert(views(records@[i as int]@) =~= Seq::new(
                records@[i as int]@.len(),
                |j: int| records@[i as int]@[j]@,
            ));
            assert(s@ =~= start + table_lines(next));
        }
    }
    assert(records@.take(records@.len() as int) =~= records@);
    s
}

/// The runs of each paragraph concatenated, one line per paragraph.
pub open spec fn paragraph_lines(paragraphs: Seq<Vec<String>>) -> Seq<char>
    decreases paragraphs.len(),
{
    if paragraphs.len() == 0 {
        seq![]
    } else {
        paragraph_lines(paragraphs.drop_last()) + joined(views(paragraphs.last()@), ""@) + "\n"@
    }
}

/// The text of a word-processor document given the text runs of each
/// paragraph: the runs of a paragraph concatenated, and a line break after each
/// paragraph.
pub fn extract_docx_text(paragraphs: &Vec<Vec<String>>) -> (r: String)
    ensures
        r@ == paragraph_lines(paragraphs@),
{
    let mut s = String::new();
    for i in 0..paragraphs.len()
        invariant
            s@ == paragraph_lines(paragraphs@.take(i as int)),
    {
        append_joined(&mut s, &paragraphs[i], "");
        s.append("\n");
        proof {
            let next = paragraphs@.take(i as int + 1);
            assert(next.drop_last() =~= paragraphs@.take(i as int));
            assert(views(paragraphs@[i as int]@) =~= Seq::new(
                paragraphs@[i as int]@.len(),
                |j: int| paragraphs@[i as int]@[j]@,
            ));
        }
    }
    assert(paragraphs@.take(paragraphs@.len() as int) =~= paragraphs@);
    s
}

/// Builds the record of a new document: its title is `title` if given, else the
/// file's name, else "Unknown"; its type is the file's extension, else
/// "unknown"; its hash is the content hash of `content`; both of its times are `now`.
pub fn new_document(
    id: String,
    title: Option<String>,
    file_name: Option<String>,
    extension: Option<String>,
    content: String,
    file_path: String,
    now: i64,
) -> (r: Document)
    ensures
        r.id == id,
        r.title@ == match title {
            Some(t) => t@,
            None => match file_name {
                Some(n) => n@,
                None => "Unknown"@,
            },
        },
        r.content == content,
        r.file_path == Some(file_path),
        r.file_type@ == match extension {
            Some(e) => e@,
            None => "unknown"@,
        },
        r.content_hash@ == hex_of(sha256_of(encode_utf8(content@))),
        r.created_at == now,
        r.updated_at == now,
{
    let title = match title {
        Some(t) => t,
        None => match file_name {
            Some(n) => n,
            None => String::from_str("Unknown"),
        },
    };
    let file_type = match extension {
        Some(e) => e,
        None => String::from_str("unknown"),
    };
    let content_hash = calculate_content_hash(content.as_str());
    Document {
        id,
        title,
        content,
        file_path: Some(file_path),
        file_type,
        content_hash,
        created_at: now,
        updated_at: now,
    }
}

/// The outcome of ingesting a document.
#[derive(Clone, Debug)]
pub struct ProcessingResult {
    pub success: bool,
    pub message: String,
    pub chunks_created: usize,
    pub processing_time_ms: u64,
}

/// Reports a successful ingestion of the document titled `title`.
pub fn processing_result(title: &str, chunks_created: usize, processing_time_ms: u64) -> (r:
    ProcessingResult)
    ensures
        r.success,
        r.message@ == "Successfully processed document: "@ + title@,
        r.chunks_created == chunks_created,
        r.processing_time_ms == processing_time_ms,
{
    let mut message = String::from_str("Successfully processed document: ");
    message.append(title);
    ProcessingResult { success: true, message, chunks_created, processing_time_ms }
}

} // verus!
