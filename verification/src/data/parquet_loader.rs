//! The loader for columnar files: the two series as list columns `x` and
//! `y` of 32- or 64-bit floating-point numbers, every other column as
//! metadata.
//!
//! Reading the file is left to the caller, who hands in what was read as
//! plain values: the record batches, each with its columns cell by cell.

use crate::data::csv_loader::find_header;
use crate::data::failure::{
    gather, gather_all, lemma_gather_failure_stays, lemma_gather_length, outcome, series_outcome,
    LoadError, LoadFailure,
};
use crate::data::model::{
    series_match, Metadata, SpectralDataset, Spectrum, SpectrumModel,
};
use crate::data::text_map::TextMap;
use crate::data::value::{MetadataValue, Scalar};
use crate::data::widen::{widen, widened};
use crate::lexing::{first_index, lemma_first_index, texts_of};
use crate::text::same_text;
use vstd::prelude::*;

verus! {

/// The type of a column, as far as the loader tells types apart.
#[derive(Clone, Copy, Debug, PartialEq, Eq, Structural)]
pub enum ColumnKind {
    Utf8,
    LargeUtf8,
    Int32,
    Int64,
    Float32,
    Float64,
    Boolean,
    List,
    LargeList,
    Other,
}

/// What one cell of a column holds.
#[derive(Debug)]
pub enum Cell {
    Null,
    Text(String),
    Integer(i64),
    /// The bits of a floating-point number: of a 32-bit one in the low
    /// half.
    Bits(u64),
    Boolean(bool),
    /// A list of floating-point numbers by their bits, those of a 32-bit
    /// number in the low half; none where an entry is null.
    List(Vec<Option<u64>>),
    /// A cell of any other type.
    Other,
}

/// One column of a record batch.
#[derive(Debug)]
pub struct Column {
    pub name: String,
    pub kind: ColumnKind,
    /// The debug rendering of the column's type.
    pub type_text: String,
    /// The type of the items of a list column; of the kinds only the two
    /// floating-point ones are told apart here.
    pub item_kind: ColumnKind,
    /// The debug rendering of the type of the items of a list column.
    pub item_type_text: String,
    pub cells: Vec<Cell>,
}

/// One record batch of a columnar file: so many rows of every column.
#[derive(Debug)]
pub struct Batch {
    pub rows: usize,
    pub columns: Vec<Column>,
}

/// What was read of a columnar file: the names of the columns of its
/// schema, the record batches up to the first error of the reader, and the
/// message of that error if there was one.
#[derive(Debug)]
pub struct ParquetFile {
    pub columns: Vec<String>,
    pub batches: Vec<Batch>,
    pub failure: Option<String>,
}

/// The cell of a column at place `r`; a column that is too short counts as
/// null there.
pub open spec fn cell_at(col: Column, r: int) -> Cell {
    if 0 <= r < col.cells@.len() {
        col.cells@[r]
    } else {
        Cell::Null
    }
}

/// The double that an entry of a series stands for: of a 32-bit number the
/// widened one.
pub open spec fn entry_double(kind: ColumnKind, bits: u64) -> u64 {
    if kind is Float32 {
        widened(bits as u32)
    } else {
        bits
    }
}

/// What one entry of a list gives: its double, or the failure where it is
/// null.
pub open spec fn entry_result(kind: ColumnKind, entry: Option<u64>, row: usize) -> Result<
    u64,
    LoadFailure,
> {
    match entry {
        Some(bits) => Ok(entry_double(kind, bits)),
        None => Err(LoadFailure::NullInNumericColumn(row)),
    }
}

/// What each entry of a list gives.
pub open spec fn entry_results(kind: ColumnKind, entries: Seq<Option<u64>>, row: usize) -> Seq<
    Result<u64, LoadFailure>,
> {
    Seq::new(entries.len(), |j: int| entry_result(kind, entries[j], row))
}

/// The failure of a series whose column or cell is of a type that holds
/// no list of floating-point numbers: it names the type that was found.
pub open spec fn wrong_type(row: usize, name: Seq<char>, found: Seq<char>) -> LoadFailure {
    LoadFailure::MalformedValue { row, column: name, index: 0, raw_text: found }
}

/// The series in the cell of a column at place `r` of its batch, for the
/// row `row` of the file: a null cell fails; a column that is no list, or
/// a list of anything but floating-point numbers, fails with the rendering
/// of the type that was found; a null entry fails; else the doubles of the
/// entries.
pub open spec fn parquet_series(col: Column, r: int, row: usize, name: Seq<char>) -> Result<
    Seq<u64>,
    LoadFailure,
> {
    if cell_at(col, r) is Null {
        Err(LoadFailure::NullInNumericColumn(row))
    } else if !(col.kind is List || col.kind is LargeList) {
        Err(wrong_type(row, name, col.type_text@))
    } else if !(col.item_kind is Float32 || col.item_kind is Float64) {
        Err(wrong_type(row, name, col.item_type_text@))
    } else {
        match cell_at(col, r) {
            Cell::List(entries) => gather_all(entry_results(col.item_kind, entries@, row)),
            _ => Err(wrong_type(row, name, col.type_text@)),
        }
    }
}

/// Reads the series in the cell of a list column at place `r` of its
/// batch, for the row `row` of the file.
#[verifier::loop_isolation(false)]
pub fn extract_f64_list(column: &Column, r: usize, row: usize, name: &str) -> (res: Result<
    Vec<u64>,
    LoadError,
>)
    ensures
        series_outcome(res) == parquet_series(*column, r as int, row, name@),
{
    if r >= column.cells.len() {
        return Err(LoadError::NullInNumericColumn(row));
    }
    let cell = &column.cells[r];
    if let Cell::Null = cell {
        return Err(LoadError::NullInNumericColumn(row));
    }
    let found = if !(column.kind == ColumnKind::List || column.kind == ColumnKind::LargeList) {
        Some(&column.type_text)
    } else if !(column.item_kind == ColumnKind::Float32 || column.item_kind
        == ColumnKind::Float64) {
        Some(&column.item_type_text)
    } else {
        None
    };
    if let Some(text) = found {
        return Err(
            LoadError::MalformedValue {
                row,
                column: name.to_owned(),
                index: 0,
                raw_text: text.clone(),
            },
        );
    }
    let entries = match cell {
        Cell::List(entries) => entries,
        _ => {
            return Err(
                LoadError::MalformedValue {
                    row,
                    column: name.to_owned(),
                    index: 0,
                    raw_text: column.type_text.clone(),
                },
            );
        },
    };
    let ghost results = entry_results(column.item_kind, entries@, row);
    let mut series: Vec<u64> = Vec::new();
    let mut j: usize = 0;
    while j < entries.len()
        invariant
            j <= entries.len(),
            gather(results, j as int) == Ok::<Seq<u64>, LoadFailure>(series@),
        decreases entries.len() - j,
    {
        proof {
            assert(results[j as int] == entry_result(column.item_kind, entries@[j as int], row));
            lemma_gather_failure_stays(results, j + 1, results.len() as int);
        }
        match entries[j] {
            Some(bits) => {
                if column.item_kind == ColumnKind::Float32 {
                    series.push(widen(bits as u32));
                } else {
                    series.push(bits);
                }
            },
            None => {
                return Err(LoadError::NullInNumericColumn(row));
            },
        }
        j += 1;
    }
    Ok(series)
}

/// The cell value in a metadata column at place `r`, by the column's
/// type: a null cell is null; text is a string; a 32- or 64-bit integer an
/// integer; a 32- or 64-bit floating-point number a double; a truth value
/// a truth value; a cell of any other type the rendering of that type, and
/// so is a cell that does not hold what the column's type says.
pub open spec fn parquet_cell(col: Column, r: int) -> Scalar {
    match cell_at(col, r) {
        Cell::Null => Scalar::Null,
        Cell::Text(s) => if col.kind is Utf8 || col.kind is LargeUtf8 {
            Scalar::Text(s@)
        } else {
            Scalar::Text(col.type_text@)
        },
        Cell::Integer(v) => if col.kind is Int32 || col.kind is Int64 {
            Scalar::Integer(v)
        } else {
            Scalar::Text(col.type_text@)
        },
        Cell::Bits(b) => if col.kind is Float32 {
            Scalar::Float(widened(b as u32))
        } else if col.kind is Float64 {
            Scalar::Float(b)
        } else {
            Scalar::Text(col.type_text@)
        },
        Cell::Boolean(b) => if col.kind is Boolean {
            Scalar::Bool(b)
        } else {
            Scalar::Text(col.type_text@)
        },
        _ => Scalar::Text(col.type_text@),
    }
}

/// Reads the cell value in a metadata column at place `r`.
pub fn extract_metadata_value(column: &Column, r: usize) -> (res: MetadataValue)
    ensures
        res@ == parquet_cell(*column, r as int),
{
    if r >= column.cells.len() {
        return MetadataValue::Null;
    }
    let kind = column.kind;
    match &column.cells[r] {
        Cell::Null => MetadataValue::Null,
        Cell::Text(s) => if kind == ColumnKind::Utf8 || kind == ColumnKind::LargeUtf8 {
            MetadataValue::String(s.clone())
        } else {
            MetadataValue::String(column.type_text.clone())
        },
        Cell::Integer(v) => if kind == ColumnKind::Int32 || kind == ColumnKind::Int64 {
            MetadataValue::Integer(*v)
        } else {
            MetadataValue::String(column.type_text.clone())
        },
        Cell::Bits(b) => if kind == ColumnKind::Float32 {
            MetadataValue::Float(widen(*b as u32))
        } else if kind == ColumnKind::Float64 {
            MetadataValue::Float(*b)
        } else {
            MetadataValue::String(column.type_text.clone())
        },
        Cell::Boolean(b) => if kind == ColumnKind::Boolean {
            MetadataValue::Bool(*b)
        } else {
            MetadataValue::String(column.type_text.clone())
        },
        _ => MetadataValue::String(column.type_text.clone()),
    }
}

/// The names of the columns.
pub open spec fn column_names(cols: Seq<Column>) -> Seq<Seq<char>> {
    Seq::new(cols.len(), |c: int| cols[c].name@)
}

/// The metadata that the first `n` columns give at place `r`: every column
/// but the two series, under its name, a later column of one name
/// replacing an earlier one.
pub open spec fn parquet_metadata(cols: Seq<Column>, x: int, y: int, r: int, n: int) -> Map<
    Seq<char>,
    Scalar,
>
    decreases n,
{
    if n <= 0 {
        Map::empty()
    } else {
        let before = parquet_metadata(cols, x, y, r, n - 1);
        let k = n - 1;
        if k == x || k == y {
            before
        } else {
            before.insert(cols[k].name@, parquet_cell(cols[k], r))
        }
    }
}

/// The row at place `r` of a batch that follows `base` rows of earlier
/// batches, or why there is none: a series that cannot be read, `x` before
/// `y`, or two series of different lengths. A failure names the row by its
/// place in the file, `base + r`.
pub open spec fn parquet_row(cols: Seq<Column>, x: int, y: int, r: int, base: int) -> Result<
    SpectrumModel,
    LoadFailure,
> {
    let row = (base + r) as usize;
    match parquet_series(cols[x], r, row, "x"@) {
        Err(e) => Err(e),
        Ok(xs) => match parquet_series(cols[y], r, row, "y"@) {
            Err(e) => Err(e),
            Ok(ys) => if xs.len() != ys.len() {
                Err(
                    LoadFailure::ShapeMismatch {
                        row,
                        x_len: xs.len() as usize,
                        y_len: ys.len() as usize,
                    },
                )
            } else {
                Ok(
                    SpectrumModel {
                        x: xs,
                        y: ys,
                        metadata: parquet_metadata(cols, x, y, r, cols.len() as int),
                    },
                )
            },
        },
    }
}

/// What every row of a batch gives, where `base` rows of earlier batches
/// come before it.
pub open spec fn parquet_rows(cols: Seq<Column>, rows: nat, x: int, y: int, base: int) -> Seq<
    Result<SpectrumModel, LoadFailure>,
> {
    Seq::new(rows, |r: int| parquet_row(cols, x, y, r, base))
}

/// What one batch gives, where `base` rows of earlier batches come before
/// it: without a column `x`, or else `y`, a failure; else the rows, or the
/// first failure among them.
pub open spec fn batch_outcome(batch: Batch, base: int) -> Result<Seq<SpectrumModel>, LoadFailure> {
    let cols = batch.columns@;
    let x = first_index(column_names(cols), "x"@);
    let y = first_index(column_names(cols), "y"@);
    if x >= cols.len() {
        Err(LoadFailure::MissingRequiredColumn("x"@))
    } else if y >= cols.len() {
        Err(LoadFailure::MissingRequiredColumn("y"@))
    } else {
        gather_all(parquet_rows(cols, batch.rows as nat, x, y, base))
    }
}

/// What the first `n` batches give: their rows one batch after the other,
/// each batch with the rows gathered so far as its base, or the first
/// failure.
pub open spec fn batches_outcome(batches: Seq<Batch>, n: int) -> Result<
    Seq<SpectrumModel>,
    LoadFailure,
>
    decreases n,
{
    if n <= 0 {
        Ok(Seq::empty())
    } else {
        match batches_outcome(batches, n - 1) {
            Err(e) => Err(e),
            Ok(rows) => match batch_outcome(batches[n - 1], rows.len() as int) {
                Err(e) => Err(e),
                Ok(more) => Ok(rows + more),
            },
        }
    }
}

/// What a columnar file gives, from what was read of it: without a column
/// `x` in its schema, or else `y`, the load fails before any row is read;
/// then the first failure of a batch that was read; else the failure of
/// the reading; else the rows.
pub open spec fn parquet_outcome(file: ParquetFile) -> Result<Seq<SpectrumModel>, LoadFailure> {
    if first_index(texts_of(file.columns@), "x"@) >= file.columns@.len() {
        Err(LoadFailure::MissingRequiredColumn("x"@))
    } else if first_index(texts_of(file.columns@), "y"@) >= file.columns@.len() {
        Err(LoadFailure::MissingRequiredColumn("y"@))
    } else {
        match batches_outcome(file.batches@, file.batches@.len() as int) {
            Err(e) => Err(e),
            Ok(rows) => match file.failure {
                Some(message) => Err(LoadFailure::ParseFailure(message@)),
                None => Ok(rows),
            },
        }
    }
}

/// Once a batch has failed, later batches change nothing.
pub proof fn lemma_batches_failure_stays(batches: Seq<Batch>, n: int, m: int)
    requires
        0 <= n <= m,
    ensures
        batches_outcome(batches, n) is Err ==> batches_outcome(batches, m) == batches_outcome(
            batches,
            n,
        ),
    decreases m - n,
{
    if n < m {
        lemma_batches_failure_stays(batches, n, m - 1);
    }
}

/// The place of the column called `name`, if there is one.
fn find_column(columns: &Vec<Column>, name: &str) -> (r: Option<usize>)
    ensures
        match r {
            Some(c) => c == first_index(column_names(columns@), name@) && c < columns@.len(),
            None => first_index(column_names(columns@), name@) >= columns@.len(),
        },
{
    let ghost names = column_names(columns@);
    let mut c: usize = 0;
    while c < columns.len()
        invariant
            c <= columns.len(),
            names == column_names(columns@),
            forall|k: int| 0 <= k < c ==> names[k] != name@,
        decreases columns.len() - c,
    {
        if same_text(columns[c].name.as_str(), name) {
            proof {
                lemma_first_index(names, name@, c as int);
            }
            return Some(c);
        }
        c += 1;
    }
    proof {
        lemma_first_index(names, name@, c as int);
    }
    None
}

/// The metadata of the row at place `r` of a batch.
fn row_metadata(columns: &Vec<Column>, x: usize, y: usize, r: usize) -> (res: Metadata)
    ensures
        res@ == parquet_metadata(columns@, x as int, y as int, r as int, columns@.len() as int),
{
    let mut metadata: Metadata = TextMap::new();
    let mut k: usize = 0;
    while k < columns.len()
        invariant
            k <= columns.len(),
            metadata@ == parquet_metadata(columns@, x as int, y as int, r as int, k as int),
        decreases columns.len() - k,
    {
        if k != x && k != y {
            let value = extract_metadata_value(&columns[k], r);
            metadata.insert(columns[k].name.clone(), value);
        }
        k += 1;
    }
    metadata
}

/// Adds the rows of one batch to `spectra`, or says why it cannot. The
/// rows already in `spectra` are those of the earlier batches.
#[verifier::loop_isolation(false)]
fn read_batch(batch: &Batch, spectra: &mut Vec<Spectrum>) -> (r: Result<(), LoadError>)
    ensures
        match batch_outcome(*batch, old(spectra)@.len() as int) {
            Ok(rows) => r is Ok && final(spectra)@.map_values(|s: Spectrum| s@) == old(
                spectra,
            )@.map_values(|s: Spectrum| s@) + rows,
            Err(e) => r is Err && r->Err_0@ == e,
        },
{
    let x = match find_column(&batch.columns, "x") {
        Some(x) => x,
        None => {
            return Err(LoadError::MissingRequiredColumn("x".to_owned()));
        },
    };
    let y = match find_column(&batch.columns, "y") {
        Some(y) => y,
        None => {
            return Err(LoadError::MissingRequiredColumn("y".to_owned()));
        },
    };
    let n = batch.rows;
    let ghost cols = batch.columns@;
    let ghost base = spectra@.len() as int;
    let ghost rows = parquet_rows(cols, n as nat, x as int, y as int, base);
    let ghost before = spectra@.map_values(|s: Spectrum| s@);
    let mut place: usize = 0;
    proof {
        assert(before + Seq::<SpectrumModel>::empty() =~= before);
    }
    while place < n
        invariant
            place <= n,
            gather(rows, place as int) is Ok,
            spectra@.map_values(|s: Spectrum| s@) == before + gather(rows, place as int)->Ok_0,
        decreases n - place,
    {
        proof {
            assert(rows[place as int] == parquet_row(
                cols,
                x as int,
                y as int,
                place as int,
                base,
            ));
            lemma_gather_failure_stays(rows, place + 1, rows.len() as int);
            lemma_gather_length(rows, place as int);
            assert(spectra@.len() == spectra@.map_values(|s: Spectrum| s@).len());
            assert(before.len() == base);
        }
        let row = spectra.len();
        let xs = match extract_f64_list(&batch.columns[x], place, row, "x") {
            Ok(xs) => xs,
            Err(e) => {
                return Err(e);
            },
        };
        let ys = match extract_f64_list(&batch.columns[y], place, row, "y") {
            Ok(ys) => ys,
            Err(e) => {
                return Err(e);
            },
        };
        let x_len = xs.len();
        let y_len = ys.len();
        let metadata = row_metadata(&batch.columns, x, y, place);
        match Spectrum::new(xs, ys, metadata) {
            Some(spectrum) => {
                proof {
                    let earlier = gather(rows, place as int)->Ok_0;
                    let so_far = spectra@.map_values(|s: Spectrum| s@);
                    assert(spectra@.push(spectrum).map_values(|s: Spectrum| s@) =~= so_far.push(
                        spectrum@,
                    ));
                    assert(so_far.push(spectrum@) =~= before + earlier.push(spectrum@));
                }
                spectra.push(spectrum);
            },
            None => {
                return Err(LoadError::ShapeMismatch { row, x_len, y_len });
            },
        }
        place += 1;
    }
    Ok(())
}

/// Loads a dataset from what was read of a columnar file.
#[verifier::loop_isolation(false)]
pub fn load_parquet(file: &ParquetFile) -> (r: Result<SpectralDataset, LoadError>)
    ensures
        outcome(r) == parquet_outcome(*file),
        r matches Ok(dataset) ==> dataset.wf() && series_match(dataset@),
{
    if find_header(&file.columns, "x").is_none() {
        return Err(LoadError::MissingRequiredColumn("x".to_owned()));
    }
    if find_header(&file.columns, "y").is_none() {
        return Err(LoadError::MissingRequiredColumn("y".to_owned()));
    }
    let mut spectra: Vec<Spectrum> = Vec::new();
    let mut i: usize = 0;
    proof {
        assert(spectra@.map_values(|s: Spectrum| s@) =~= Seq::<SpectrumModel>::empty());
    }
    while i < file.batches.len()
        invariant
            i <= file.batches.len(),
            batches_outcome(file.batches@, i as int) is Ok,
            batches_outcome(file.batches@, i as int)->Ok_0 == spectra@.map_values(
                |s: Spectrum| s@,
            ),
        decreases file.batches.len() - i,
    {
        proof {
            lemma_batches_failure_stays(file.batches@, i + 1, file.batches@.len() as int);
            assert(spectra@.len() == spectra@.map_values(|s: Spectrum| s@).len());
        }
        match read_batch(&file.batches[i], &mut spectra) {
            Ok(()) => {},
            Err(e) => {
                return Err(e);
            },
        }
        i += 1;
    }
    match &file.failure {
        Some(message) => Err(LoadError::ParseFailure(message.clone())),
        None => Ok(SpectralDataset::from_spectra(spectra)),
    }
}

} // verus!
