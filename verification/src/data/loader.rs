//! Loading a dataset from a file's name and contents: the format is told
//! by the extension of the name.

use crate::data::csv_loader::{
    csv_file_outcome, csv_headers, csv_needs, csv_number_texts, csv_records, load_csv,
    read_csv_headers, read_csv_records, NumberTable,
};
use crate::data::failure::{outcome, LoadError, LoadFailure};
use crate::data::json_loader::{json_text_outcome, load_json};
use crate::data::model::{series_match, SpectralDataset, SpectrumModel};
use crate::data::parquet_loader::{load_parquet, parquet_outcome, ParquetFile};
use crate::lexing::texts_of;
use crate::text::{ascii_lower, same_text, to_ascii_lower};
use vstd::prelude::*;
use vstd::utf8::{decode_utf8, valid_utf8};

verus! {

/// The formats that are read.
#[derive(Clone, Copy, Debug, PartialEq, Eq, Structural)]
pub enum FileFormat {
    /// Columnar binary.
    Parquet,
    /// Record-array text.
    Json,
    /// Delimited text.
    Csv,
}

/// The extension of a path as `std::path::Path` gives it, if the path has
/// one.
pub uninterp spec fn path_extension(path: Seq<char>) -> Option<Seq<char>>;

/// The extension of a path, by `Path::extension`. The result depends on
/// the path alone.
#[verifier::external_body]
fn extension_of(path: &str) -> (r: Option<String>)
    ensures
        r is Some == path_extension(path@) is Some,
        r is Some ==> r->0@ == path_extension(path@)->0,
{
    std::path::Path::new(path).extension().and_then(|e| e.to_str()).map(|e| e.to_owned())
}

/// Reads bytes as text with `std::str::from_utf8`: the text that the bytes
/// encode, where they are valid UTF-8.
#[verifier::external_body]
fn utf8_text(bytes: &[u8]) -> (r: Option<&str>)
    ensures
        r is Some == valid_utf8(bytes@),
        r is Some ==> r->0@ == decode_utf8(bytes@),
{
    std::str::from_utf8(bytes).ok()
}

/// The extension by which the format is told: that of the path in lower
/// case, or the empty text where the path has none.
pub open spec fn format_extension(path: Seq<char>) -> Seq<char> {
    match path_extension(path) {
        Some(e) => ascii_lower(e),
        None => Seq::empty(),
    }
}

/// The format that an extension in lower case names.
pub open spec fn extension_format(extension: Seq<char>) -> Option<FileFormat> {
    if extension == "parquet"@ || extension == "pq"@ {
        Some(FileFormat::Parquet)
    } else if extension == "json"@ {
        Some(FileFormat::Json)
    } else if extension == "csv"@ {
        Some(FileFormat::Csv)
    } else {
        None
    }
}

/// Tells the format from an extension in lower case.
pub fn format_for_extension(extension: &str) -> (r: Option<FileFormat>)
    ensures
        r == extension_format(extension@),
{
    if same_text(extension, "parquet") || same_text(extension, "pq") {
        Some(FileFormat::Parquet)
    } else if same_text(extension, "json") {
        Some(FileFormat::Json)
    } else if same_text(extension, "csv") {
        Some(FileFormat::Csv)
    } else {
        None
    }
}

/// The extension of a path in lower case; empty where it has none.
pub fn lower_extension(path: &str) -> (r: String)
    ensures
        r@ == format_extension(path@),
{
    match extension_of(path) {
        Some(e) => to_ascii_lower(e.as_str()),
        None => {
            let r = String::new();
            assert(r@ =~= Seq::<char>::empty());
            r
        },
    }
}

/// The message for a text file that is not valid UTF-8.
pub open spec fn not_utf8() -> Seq<char> {
    "stream did not contain valid UTF-8"@
}

/// What a columnar file gives, from what its reader made of it: the
/// failure with which the reader refused the file as a whole, or what the
/// file gives.
pub open spec fn columnar_outcome(columnar: Result<ParquetFile, String>) -> Result<
    Seq<SpectrumModel>,
    LoadFailure,
> {
    match columnar {
        Err(message) => Err(LoadFailure::ParseFailure(message@)),
        Ok(file) => parquet_outcome(file),
    }
}

/// What loading a file gives, from its name, its contents and what the
/// caller read from them: an extension that names no format fails the load
/// at once and is named in the failure; else what the format's loader
/// gives. Record-array text must be valid UTF-8.
pub open spec fn file_outcome(
    path: Seq<char>,
    contents: Seq<u8>,
    numbers: Map<Seq<char>, u64>,
    columnar: Result<ParquetFile, String>,
) -> Result<Seq<SpectrumModel>, LoadFailure> {
    match extension_format(format_extension(path)) {
        None => Err(LoadFailure::UnsupportedFormat(format_extension(path))),
        Some(FileFormat::Parquet) => columnar_outcome(columnar),
        Some(FileFormat::Json) => if valid_utf8(contents) {
            json_text_outcome(decode_utf8(contents))
        } else {
            Err(LoadFailure::IoFailure(not_utf8()))
        },
        Some(FileFormat::Csv) => csv_file_outcome(contents, numbers),
    }
}

/// Loads a dataset from a file's name and contents. `numbers` holds the
/// texts of `number_texts` that are numbers; it is read for delimited
/// text only. `columnar` is what the reader of columnar files made of the
/// file, the message of its error where it refused the file; it is read
/// for a columnar file only, in place of the contents.
pub fn load_file(
    path: &str,
    contents: &[u8],
    numbers: &NumberTable,
    columnar: &Result<ParquetFile, String>,
) -> (r: Result<SpectralDataset, LoadError>)
    ensures
        outcome(r) == file_outcome(path@, contents@, numbers@, *columnar),
        r matches Ok(dataset) ==> dataset.wf() && series_match(dataset@),
{
    let extension = lower_extension(path);
    match format_for_extension(extension.as_str()) {
        None => Err(LoadError::UnsupportedFormat(extension)),
        Some(FileFormat::Parquet) => match columnar {
            Ok(file) => load_parquet(file),
            Err(message) => Err(LoadError::ParseFailure(message.clone())),
        },
        Some(FileFormat::Json) => match utf8_text(contents) {
            Some(text) => load_json(text),
            None => Err(LoadError::IoFailure("stream did not contain valid UTF-8".to_owned())),
        },
        Some(FileFormat::Csv) => load_csv(contents, numbers),
    }
}

/// Whether loading the file asks whether `t` is a number: only a file of
/// delimited text with a header row that can be read asks.
pub open spec fn file_needs(path: Seq<char>, contents: Seq<u8>, t: Seq<char>) -> bool {
    &&& extension_format(format_extension(path)) == Some(FileFormat::Csv)
    &&& csv_headers(contents) is Ok
    &&& csv_needs(csv_headers(contents)->Ok_0, csv_records(contents), t)
}

/// The texts that loading the file asks about. Whoever reads numbers from
/// text enters those that are numbers in the table for `load_file`.
pub fn number_texts(path: &str, contents: &[u8]) -> (r: Vec<String>)
    ensures
        forall|t: Seq<char>|
            #![trigger texts_of(r@).contains(t)]
            #![trigger file_needs(path@, contents@, t)]
            texts_of(r@).contains(t) <==> file_needs(path@, contents@, t),
{
    let extension = lower_extension(path);
    match format_for_extension(extension.as_str()) {
        Some(FileFormat::Csv) => match read_csv_headers(contents) {
            Ok(headers) => {
                let records = read_csv_records(contents);
                csv_number_texts(&headers, &records)
            },
            Err(_) => Vec::new(),
        },
        _ => Vec::new(),
    }
}

} // verus!
