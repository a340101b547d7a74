//! The loader for delimited text: a header row, then one record per row,
//! the two series each in one field with `;` between their numbers.
//!
//! Reading a number from its text is left to the caller, who hands in a
//! table of the texts that are numbers.

use crate::data::failure::{
    any_below, gather, gather_all, lemma_any_below_find, lemma_any_below_witness,
    lemma_gather_failure_stays, outcome, series_outcome, LoadError, LoadFailure,
};
use crate::data::model::{
    series_match, Metadata, SpectralDataset, Spectrum, SpectrumModel,
};
use crate::data::text_map::TextMap;
use crate::data::value::{MetadataValue, Scalar};
use crate::lexing::{
    decimal_integer, first_index, lemma_first_index, parse_integer, split, split_text, texts_of,
    trim, trimmed,
};
use crate::text::same_text;
use vstd::prelude::*;
use vstd::seq_lib::lemma_seq_contains_after_push;

verus! {

/// The texts that are numbers, each with the bits of its double. A text
/// without an entry is no number.
pub type NumberTable = TextMap<u64>;

/// A record as the texts of its fields, or the text of its error.
pub open spec fn record_view(record: Result<Vec<String>, String>) -> Result<
    Seq<Seq<char>>,
    Seq<char>,
> {
    match record {
        Ok(fields) => Ok(texts_of(fields@)),
        Err(message) => Err(message@),
    }
}

/// The records as the texts of their fields.
pub open spec fn records_view(records: Seq<Result<Vec<String>, String>>) -> Seq<
    Result<Seq<Seq<char>>, Seq<char>>,
> {
    records.map_values(|record: Result<Vec<String>, String>| record_view(record))
}

/// The header row that the `csv` crate reads from the bytes of a file, or
/// the message of its error.
pub uninterp spec fn csv_headers(bytes: Seq<u8>) -> Result<Seq<Seq<char>>, Seq<char>>;

/// The records that the `csv` crate reads after the header row, each as
/// its fields or as the message of its error.
pub uninterp spec fn csv_records(bytes: Seq<u8>) -> Seq<Result<Seq<Seq<char>>, Seq<char>>>;

/// Reads the header row with `csv::Reader::headers`, from a reader with
/// the crate's default settings over the bytes. The result depends on the
/// bytes alone.
#[verifier::external_body]
pub(crate) fn read_csv_headers(bytes: &[u8]) -> (r: Result<Vec<String>, String>)
    ensures
        record_view(r) == csv_headers(bytes@),
{
    match csv::Reader::from_reader(bytes).headers() {
        Ok(record) => Ok(record.iter().map(|field| field.to_string()).collect()),
        Err(e) => Err(e.to_string()),
    }
}

/// Reads every record after the header row with `csv::Reader::records`,
/// from a reader with the crate's default settings over the bytes. The
/// result depends on the bytes alone.
#[verifier::external_body]
pub(crate) fn read_csv_records(bytes: &[u8]) -> (r: Vec<Result<Vec<String>, String>>)
    ensures
        records_view(r@) == csv_records(bytes@),
{
    csv::Reader::from_reader(bytes)
        .into_records()
        .map(|item| match item {
            Ok(record) => Ok(record.iter().map(|field| field.to_string()).collect()),
            Err(e) => Err(e.to_string()),
        })
        .collect()
}

/// The place of the column called `name` among the headers, if there is
/// one: the first such place.
pub open spec fn header_index(headers: Seq<Seq<char>>, name: Seq<char>) -> Option<int> {
    let i = first_index(headers, name);
    if i < headers.len() {
        Some(i)
    } else {
        None
    }
}

/// Finds the column called `name`.
pub fn find_header(headers: &Vec<String>, name: &str) -> (r: Option<usize>)
    ensures
        r is Some == header_index(texts_of(headers@), name@) is Some,
        r matches Some(i) ==> header_index(texts_of(headers@), name@) == Some(i as int) && i
            < headers@.len(),
{
    let mut i: usize = 0;
    while i < headers.len()
        invariant
            i <= headers.len(),
            forall|k: int| 0 <= k < i ==> texts_of(headers@)[k] != name@,
        decreases headers.len() - i,
    {
        if same_text(headers[i].as_str(), name) {
            proof {
                lemma_first_index(texts_of(headers@), name@, i as int);
            }
            return Some(i);
        }
        i += 1;
    }
    proof {
        lemma_first_index(texts_of(headers@), name@, i as int);
    }
    None
}

/// What one token of a series gives: the number that the table holds for
/// the token without its outer white space, or the failure that names the
/// token as it stands.
pub open spec fn token_result(
    token: Seq<char>,
    numbers: Map<Seq<char>, u64>,
    row: usize,
    column: Seq<char>,
    index: int,
) -> Result<u64, LoadFailure> {
    if numbers.contains_key(trimmed(token)) {
        Ok(numbers[trimmed(token)])
    } else {
        Err(
            LoadFailure::MalformedValue {
                row,
                column,
                index: index as usize,
                raw_text: token,
            },
        )
    }
}

/// What each token of a series field gives.
pub open spec fn series_results(
    field: Seq<char>,
    numbers: Map<Seq<char>, u64>,
    row: usize,
    column: Seq<char>,
) -> Seq<Result<u64, LoadFailure>> {
    let tokens = split_text(field, ';');
    Seq::new(tokens.len(), |j: int| token_result(tokens[j], numbers, row, column, j))
}

/// The series that a field holds: the numbers of its tokens, or the
/// failure of the first token that is no number.
pub open spec fn csv_series(
    field: Seq<char>,
    numbers: Map<Seq<char>, u64>,
    row: usize,
    column: Seq<char>,
) -> Result<Seq<u64>, LoadFailure> {
    gather_all(series_results(field, numbers, row, column))
}

/// Reads the series of one field: its tokens between `;`, each a number
/// of the table once its outer white space is off.
pub fn parse_semicolon_floats(s: &str, row: usize, col: &str, numbers: &NumberTable) -> (r: Result<
    Vec<u64>,
    LoadError,
>)
    ensures
        series_outcome(r) == csv_series(s@, numbers@, row, col@),
{
    let tokens = split(s, ';');
    let ghost results = series_results(s@, numbers@, row, col@);
    let mut series: Vec<u64> = Vec::new();
    let mut j: usize = 0;
    while j < tokens.len()
        invariant
            j <= tokens.len(),
            texts_of(tokens@) == split_text(s@, ';'),
            results == series_results(s@, numbers@, row, col@),
            results.len() == tokens.len(),
            gather(results, j as int) == Ok::<Seq<u64>, LoadFailure>(series@),
        decreases tokens.len() - j,
    {
        let token = &tokens[j];
        let key = trim(token.as_str());
        proof {
            assert(texts_of(tokens@)[j as int] == token@);
            assert(results[j as int] == token_result(token@, numbers@, row, col@, j as int));
        }
        match numbers.get(key.as_str()) {
            Some(bits) => {
                series.push(*bits);
            },
            None => {
                proof {
                    lemma_gather_failure_stays(results, j + 1, results.len() as int);
                }
                return Err(
                    LoadError::MalformedValue {
                        row,
                        column: col.to_owned(),
                        index: j,
                        raw_text: token.clone(),
                    },
                );
            },
        }
        j += 1;
    }
    Ok(series)
}

/// The value that a metadata cell holds: null where the cell is empty;
/// else the integer that it is the decimal text of; else the double that
/// the table holds for it; else the truth value that it spells; else its
/// text.
pub open spec fn csv_cell(s: Seq<char>, numbers: Map<Seq<char>, u64>) -> Scalar {
    if s.len() == 0 {
        Scalar::Null
    } else if decimal_integer(s) is Some {
        Scalar::Integer(decimal_integer(s)->0)
    } else if numbers.contains_key(s) {
        Scalar::Float(numbers[s])
    } else if s == "true"@ {
        Scalar::Bool(true)
    } else if s == "false"@ {
        Scalar::Bool(false)
    } else {
        Scalar::Text(s)
    }
}

/// Finds the type of a metadata cell from its text.
pub fn guess_metadata_type(s: &str, numbers: &NumberTable) -> (r: MetadataValue)
    ensures
        r@ == csv_cell(s@, numbers@),
{
    if s.unicode_len() == 0 {
        return MetadataValue::Null;
    }
    if let Some(i) = parse_integer(s) {
        return MetadataValue::Integer(i);
    }
    if let Some(bits) = numbers.get(s) {
        return MetadataValue::Float(*bits);
    }
    if same_text(s, "true") {
        return MetadataValue::Bool(true);
    }
    if same_text(s, "false") {
        return MetadataValue::Bool(false);
    }
    MetadataValue::String(s.to_owned())
}

/// The metadata that the first `n` fields of a record give: every field
/// but the two series, under the header at its place. A field beyond the
/// headers has no name and is left out.
pub open spec fn csv_metadata(
    headers: Seq<Seq<char>>,
    fields: Seq<Seq<char>>,
    x: int,
    y: int,
    numbers: Map<Seq<char>, u64>,
    n: int,
) -> Map<Seq<char>, Scalar>
    decreases n,
{
    if n <= 0 {
        Map::empty()
    } else {
        let before = csv_metadata(headers, fields, x, y, numbers, n - 1);
        let k = n - 1;
        if k == x || k == y || k >= headers.len() {
            before
        } else {
            before.insert(headers[k], csv_cell(fields[k], numbers))
        }
    }
}

/// The text of the field at place `i`; the empty text where the record is
/// shorter.
pub open spec fn field_text(fields: Seq<Seq<char>>, i: int) -> Seq<char> {
    if 0 <= i < fields.len() {
        fields[i]
    } else {
        Seq::empty()
    }
}

/// The row that a record gives, or why it gives none: the record's own
/// error, a token of `x` or of `y` that is no number, or two series of
/// different lengths, whichever comes first.
pub open spec fn csv_row(
    headers: Seq<Seq<char>>,
    record: Result<Seq<Seq<char>>, Seq<char>>,
    x: int,
    y: int,
    numbers: Map<Seq<char>, u64>,
    row: usize,
) -> Result<SpectrumModel, LoadFailure> {
    match record {
        Err(message) => Err(LoadFailure::ParseFailure(message)),
        Ok(fields) => match csv_series(field_text(fields, x), numbers, row, "x"@) {
            Err(e) => Err(e),
            Ok(xs) => match csv_series(field_text(fields, y), numbers, row, "y"@) {
                Err(e) => Err(e),
                Ok(ys) => if xs.len() != ys.len() {
                    Err(
                        LoadFailure::ShapeMismatch {
                            row,
                            x_len: xs.len() as usize,
                            y_len: ys.len() as usize,
                        },
                    )
                } else {
                    Ok(
                        SpectrumModel {
                            x: xs,
                            y: ys,
                            metadata: csv_metadata(
                                headers,
                                fields,
                                x,
                                y,
                                numbers,
                                fields.len() as int,
                            ),
                        },
                    )
                },
            },
        },
    }
}

/// What every record gives.
pub open spec fn csv_rows(
    headers: Seq<Seq<char>>,
    records: Seq<Result<Seq<Seq<char>>, Seq<char>>>,
    x: int,
    y: int,
    numbers: Map<Seq<char>, u64>,
) -> Seq<Result<SpectrumModel, LoadFailure>> {
    Seq::new(records.len(), |i: int| csv_row(headers, records[i], x, y, numbers, i as usize))
}

/// What a table of delimited text gives: a missing `x` column fails the
/// load, then a missing `y` column; else the rows of its records, or the
/// first failure among them.
pub open spec fn csv_outcome(
    headers: Seq<Seq<char>>,
    records: Seq<Result<Seq<Seq<char>>, Seq<char>>>,
    numbers: Map<Seq<char>, u64>,
) -> Result<Seq<SpectrumModel>, LoadFailure> {
    match header_index(headers, "x"@) {
        None => Err(LoadFailure::MissingRequiredColumn("x"@)),
        Some(x) => match header_index(headers, "y"@) {
            None => Err(LoadFailure::MissingRequiredColumn("y"@)),
            Some(y) => gather_all(csv_rows(headers, records, x, y, numbers)),
        },
    }
}

/// The field at place `i`, or the empty text.
fn field_or_empty(fields: &Vec<String>, i: usize) -> (r: &str)
    ensures
        r@ == field_text(texts_of(fields@), i as int),
{
    if i < fields.len() {
        fields[i].as_str()
    } else {
        let empty = "";
        proof {
            reveal_strlit("");
            assert(empty@ =~= Seq::<char>::empty());
        }
        empty
    }
}

/// The metadata of one record.
fn record_metadata(
    headers: &Vec<String>,
    fields: &Vec<String>,
    x: usize,
    y: usize,
    numbers: &NumberTable,
) -> (r: Metadata)
    ensures
        r@ == csv_metadata(texts_of(headers@), texts_of(fields@), x as int, y as int, numbers@, texts_of(fields@).len() as int),
{
    let mut metadata: Metadata = TextMap::new();
    let mut k: usize = 0;
    while k < fields.len()
        invariant
            k <= fields.len(),
            metadata@ == csv_metadata(texts_of(headers@), texts_of(fields@), x as int, y as int, numbers@, k as int),
        decreases fields.len() - k,
    {
        if k != x && k != y && k < headers.len() {
            let value = guess_metadata_type(fields[k].as_str(), numbers);
            metadata.insert(headers[k].clone(), value);
        }
        k += 1;
    }
    metadata
}

/// Builds the dataset from the header row and the records of a file of
/// delimited text, with the table of the texts that are numbers.
#[verifier::loop_isolation(false)]
pub fn dataset_from_csv(
    headers: &Vec<String>,
    records: &Vec<Result<Vec<String>, String>>,
    numbers: &NumberTable,
) -> (r: Result<SpectralDataset, LoadError>)
    ensures
        outcome(r) == csv_outcome(texts_of(headers@), records_view(records@), numbers@),
        r matches Ok(dataset) ==> dataset.wf() && series_match(dataset@),
{
    let x = match find_header(headers, "x") {
        Some(x) => x,
        None => {
            return Err(LoadError::MissingRequiredColumn("x".to_owned()));
        },
    };
    let y = match find_header(headers, "y") {
        Some(y) => y,
        None => {
            return Err(LoadError::MissingRequiredColumn("y".to_owned()));
        },
    };
    let ghost rows = csv_rows(texts_of(headers@), records_view(records@), x as int, y as int, numbers@);
    let mut spectra: Vec<Spectrum> = Vec::new();
    let mut i: usize = 0;
    proof {
        assert(spectra@.map_values(|s: Spectrum| s@) =~= Seq::<SpectrumModel>::empty());
    }
    while i < records.len()
        invariant
            i <= records.len(),
            rows == csv_rows(texts_of(headers@), records_view(records@), x as int, y as int, numbers@),
            rows.len() == records.len(),
            gather(rows, i as int) == Ok::<Seq<SpectrumModel>, LoadFailure>(
                spectra@.map_values(|s: Spectrum| s@),
            ),
        decreases records.len() - i,
    {
        proof {
            assert(rows[i as int] == csv_row(
                texts_of(headers@),
                records_view(records@)[i as int],
                x as int,
                y as int,
                numbers@,
                i,
            ));
            lemma_gather_failure_stays(rows, i + 1, rows.len() as int);
        }
        match &records[i] {
            Err(message) => {
                return Err(LoadError::ParseFailure(message.clone()));
            },
            Ok(fields) => {
                let xs = match parse_semicolon_floats(field_or_empty(fields, x), i, "x", numbers) {
                    Ok(xs) => xs,
                    Err(e) => {
                        return Err(e);
                    },
                };
                let ys = match parse_semicolon_floats(field_or_empty(fields, y), i, "y", numbers) {
                    Ok(ys) => ys,
                    Err(e) => {
                        return Err(e);
                    },
                };
                let x_len = xs.len();
                let y_len = ys.len();
                let metadata = record_metadata(headers, fields, x, y, numbers);
                match Spectrum::new(xs, ys, metadata) {
                    Some(spectrum) => {
                        proof {
                            assert(spectra@.push(spectrum).map_values(|s: Spectrum| s@)
                                =~= spectra@.map_values(|s: Spectrum| s@).push(spectrum@));
                        }
                        spectra.push(spectrum);
                    },
                    None => {
                        return Err(LoadError::ShapeMismatch { row: i, x_len, y_len });
                    },
                }
            },
        }
        i += 1;
    }
    Ok(SpectralDataset::from_spectra(spectra))
}

/// Token `j` of the series field, with its outer white space off, is `t`.
pub open spec fn token_is(field: Seq<char>, j: int, t: Seq<char>) -> bool {
    0 <= j < split_text(field, ';').len() && trimmed(split_text(field, ';')[j]) == t
}

/// Reading the series of `field` asks whether `t` is a number.
pub open spec fn series_needs(field: Seq<char>, t: Seq<char>) -> bool {
    exists|j: int| token_is(field, j, t)
}

/// Field `k` of the record is a metadata cell with text `t`.
pub open spec fn cell_is(fields: Seq<Seq<char>>, x: int, y: int, k: int, t: Seq<char>) -> bool {
    0 <= k < fields.len() && k != x && k != y && fields[k] == t
}

/// Some metadata cell of the record has text `t`.
pub open spec fn cells_need(fields: Seq<Seq<char>>, x: int, y: int, t: Seq<char>) -> bool {
    exists|k: int| cell_is(fields, x, y, k, t)
}

/// Reading the record asks whether `t` is a number: `t` is a token of one
/// of the two series, or the text of a metadata cell.
pub open spec fn record_needs(fields: Seq<Seq<char>>, x: int, y: int, t: Seq<char>) -> bool {
    ||| series_needs(field_text(fields, x), t)
    ||| series_needs(field_text(fields, y), t)
    ||| cells_need(fields, x, y, t)
}

/// Record `i` is read and asks whether `t` is a number.
pub open spec fn row_needs(
    records: Seq<Result<Seq<Seq<char>>, Seq<char>>>,
    x: int,
    y: int,
    i: int,
    t: Seq<char>,
) -> bool {
    0 <= i < records.len() && (records[i] matches Ok(fields) && record_needs(fields, x, y, t))
}

/// Loading the table asks whether `t` is a number.
pub open spec fn csv_needs(
    headers: Seq<Seq<char>>,
    records: Seq<Result<Seq<Seq<char>>, Seq<char>>>,
    t: Seq<char>,
) -> bool {
    &&& header_index(headers, "x"@) is Some
    &&& header_index(headers, "y"@) is Some
    &&& exists|i: int|
        row_needs(
            records,
            header_index(headers, "x"@)->0,
            header_index(headers, "y"@)->0,
            i,
            t,
        )
}

/// The test whether token `a` of the field is `t`.
pub open spec fn token_test(field: Seq<char>, t: Seq<char>) -> spec_fn(int) -> bool {
    |a: int| token_is(field, a, t)
}

/// The test whether field `k` of the record is a metadata cell with text
/// `t`.
pub open spec fn cell_test(fields: Seq<Seq<char>>, x: int, y: int, t: Seq<char>) -> spec_fn(
    int,
) -> bool {
    |k: int| cell_is(fields, x, y, k, t)
}

/// The test whether record `i` asks about `t`.
pub open spec fn row_test(
    records: Seq<Result<Seq<Seq<char>>, Seq<char>>>,
    x: int,
    y: int,
    t: Seq<char>,
) -> spec_fn(int) -> bool {
    |i: int| row_needs(records, x, y, i, t)
}

/// Two tables of numbers that agree on every text of a series give the
/// same series.
pub proof fn lemma_series_agrees(
    field: Seq<char>,
    n1: Map<Seq<char>, u64>,
    n2: Map<Seq<char>, u64>,
    row: usize,
    column: Seq<char>,
)
    requires
        forall|t: Seq<char>|
            #![trigger series_needs(field, t)]
            series_needs(field, t) ==> (n1.contains_key(t) == n2.contains_key(t) && (
            n1.contains_key(t) ==> n1[t] == n2[t])),
    ensures
        csv_series(field, n1, row, column) == csv_series(field, n2, row, column),
{
    let tokens = split_text(field, ';');
    let r1 = series_results(field, n1, row, column);
    let r2 = series_results(field, n2, row, column);
    assert forall|j: int| 0 <= j < tokens.len() implies r1[j] == r2[j] by {
        let t = trimmed(tokens[j]);
        assert(token_is(field, j, t));
        assert(series_needs(field, t));
    }
    assert(r1 =~= r2);
}

/// Two tables of numbers that agree on every metadata cell of a record
/// give the same metadata.
pub proof fn lemma_metadata_agrees(
    headers: Seq<Seq<char>>,
    fields: Seq<Seq<char>>,
    x: int,
    y: int,
    n1: Map<Seq<char>, u64>,
    n2: Map<Seq<char>, u64>,
    n: int,
)
    requires
        n <= fields.len(),
        forall|t: Seq<char>|
            #![trigger record_needs(fields, x, y, t)]
            record_needs(fields, x, y, t) ==> (n1.contains_key(t) == n2.contains_key(t) && (
            n1.contains_key(t) ==> n1[t] == n2[t])),
    ensures
        csv_metadata(headers, fields, x, y, n1, n) == csv_metadata(headers, fields, x, y, n2, n),
    decreases n,
{
    if n > 0 {
        lemma_metadata_agrees(headers, fields, x, y, n1, n2, n - 1);
        let k = n - 1;
        if k != x && k != y {
            let t = fields[k];
            assert(cell_is(fields, x, y, k, t));
            assert(cells_need(fields, x, y, t));
            assert(record_needs(fields, x, y, t));
        }
    }
}

/// The texts of `csv_number_texts` are all that the load asks about: two
/// tables of numbers that agree on them give the same outcome.
pub proof fn lemma_number_texts_suffice(
    headers: Seq<Seq<char>>,
    records: Seq<Result<Seq<Seq<char>>, Seq<char>>>,
    n1: Map<Seq<char>, u64>,
    n2: Map<Seq<char>, u64>,
)
    requires
        forall|t: Seq<char>|
            #![trigger csv_needs(headers, records, t)]
            csv_needs(headers, records, t) ==> (n1.contains_key(t) == n2.contains_key(t) && (
            n1.contains_key(t) ==> n1[t] == n2[t])),
    ensures
        csv_outcome(headers, records, n1) == csv_outcome(headers, records, n2),
{
    if header_index(headers, "x"@) is Some && header_index(headers, "y"@) is Some {
        let x = header_index(headers, "x"@)->0;
        let y = header_index(headers, "y"@)->0;
        let r1 = csv_rows(headers, records, x, y, n1);
        let r2 = csv_rows(headers, records, x, y, n2);
        assert forall|i: int| 0 <= i < records.len() implies r1[i] == r2[i] by {
            if let Ok(fields) = records[i] {
                assert forall|t: Seq<char>|
                    #![trigger record_needs(fields, x, y, t)]
                    record_needs(fields, x, y, t) implies (
                n1.contains_key(t) == n2.contains_key(t) && (n1.contains_key(t) ==> n1[t] == n2[t])) by {
                    assert(row_needs(records, x, y, i, t));
                    assert(csv_needs(headers, records, t));
                }
                let fx = field_text(fields, x);
                let fy = field_text(fields, y);
                assert forall|t: Seq<char>|
                    #![trigger series_needs(fx, t)]
                    series_needs(fx, t) implies (n1.contains_key(t) == n2.contains_key(t) && (
                n1.contains_key(t) ==> n1[t] == n2[t])) by {
                    assert(record_needs(fields, x, y, t));
                }
                assert forall|t: Seq<char>|
                    #![trigger series_needs(fy, t)]
                    series_needs(fy, t) implies (n1.contains_key(t) == n2.contains_key(t) && (
                n1.contains_key(t) ==> n1[t] == n2[t])) by {
                    assert(record_needs(fields, x, y, t));
                }
                lemma_series_agrees(fx, n1, n2, i as usize, "x"@);
                lemma_series_agrees(fy, n1, n2, i as usize, "y"@);
                lemma_metadata_agrees(headers, fields, x, y, n1, n2, fields.len() as int);
            }
        }
        assert(r1 =~= r2);
    }
}

/// Adds to `out` the tokens of a series field, each with its outer white
/// space off.
fn push_series_texts(field: &str, out: &mut Vec<String>)
    ensures
        forall|t: Seq<char>|
            #![trigger texts_of(final(out)@).contains(t)]
            texts_of(final(out)@).contains(t) <==> (texts_of(old(out)@).contains(t) || series_needs(
                field@,
                t,
            )),
{
    let tokens = split(field, ';');
    let ghost before = texts_of(out@);
    let mut j: usize = 0;
    while j < tokens.len()
        invariant
            j <= tokens.len(),
            texts_of(tokens@) == split_text(field@, ';'),
            forall|t: Seq<char>|
                #![trigger texts_of(out@).contains(t)]
                texts_of(out@).contains(t) <==> (before.contains(t) || any_below(
                    token_test(field@, t),
                    j as int,
                )),
        decreases tokens.len() - j,
    {
        let key = trim(tokens[j].as_str());
        let ghost previous = texts_of(out@);
        let ghost key_text = key@;
        out.push(key);
        proof {
            assert(texts_of(tokens@)[j as int] == tokens@[j as int]@);
            assert(texts_of(out@) =~= previous.push(key_text));
            assert forall|t: Seq<char>|
                #![trigger texts_of(out@).contains(t)]
                texts_of(out@).contains(t) <==> (before.contains(t) || any_below(
                    token_test(field@, t),
                    j + 1,
                )) by {
                lemma_seq_contains_after_push(previous, key_text, t);
                assert(token_is(field@, j as int, t) <==> key_text == t);
                let p = token_test(field@, t);
                assert(p(j as int) == token_is(field@, j as int, t));
                assert(any_below(p, j + 1) == (any_below(p, j as int) || p(j as int)));
                assert(previous.contains(t) <==> (before.contains(t) || any_below(p, j as int)));
            }
        }
        j += 1;
    }
    proof {
        assert forall|t: Seq<char>|
            #![trigger series_needs(field@, t)]
            series_needs(field@, t) <==> any_below(
            token_test(field@, t),
            j as int,
        ) by {
            let p = token_test(field@, t);
            if series_needs(field@, t) {
                let a = choose|a: int| token_is(field@, a, t);
                lemma_any_below_witness(p, j as int, a);
            }
            if any_below(p, j as int) {
                let a = lemma_any_below_find(p, j as int);
                assert(token_is(field@, a, t));
            }
        }
    }
}

/// Adds to `out` the metadata cells of a record.
fn push_cell_texts(fields: &Vec<String>, x: usize, y: usize, out: &mut Vec<String>)
    ensures
        forall|t: Seq<char>|
            #![trigger texts_of(final(out)@).contains(t)]
            texts_of(final(out)@).contains(t) <==> (texts_of(old(out)@).contains(t) || cells_need(
                texts_of(fields@),
                x as int,
                y as int,
                t,
            )),
{
    let ghost before = texts_of(out@);
    let mut k: usize = 0;
    while k < fields.len()
        invariant
            k <= fields.len(),
            forall|t: Seq<char>|
                #![trigger texts_of(out@).contains(t)]
                texts_of(out@).contains(t) <==> (before.contains(t) || any_below(
                    cell_test(texts_of(fields@), x as int, y as int, t),
                    k as int,
                )),
        decreases fields.len() - k,
    {
        if k != x && k != y {
            let cell = fields[k].clone();
            let ghost previous = texts_of(out@);
            let ghost cell_text = cell@;
            out.push(cell);
            proof {
                assert(texts_of(out@) =~= previous.push(cell_text));
                assert forall|t: Seq<char>|
                    #![trigger texts_of(out@).contains(t)]
                    texts_of(out@).contains(t) <==> (before.contains(t) || any_below(
                        cell_test(texts_of(fields@), x as int, y as int, t),
                        k + 1,
                    )) by {
                    lemma_seq_contains_after_push(previous, cell_text, t);
                    let p = cell_test(texts_of(fields@), x as int, y as int, t);
                    assert(p(k as int) == cell_is(texts_of(fields@), x as int, y as int, k as int, t));
                    assert(cell_is(texts_of(fields@), x as int, y as int, k as int, t) <==> cell_text == t);
                    assert(any_below(p, k + 1) == (any_below(p, k as int) || p(k as int)));
                    assert(previous.contains(t) <==> (before.contains(t) || any_below(p, k as int)));
                }
            }
        }
        else {
            proof {
                assert forall|t: Seq<char>|
                    #![trigger texts_of(out@).contains(t)]
                    texts_of(out@).contains(t) <==> (before.contains(t) || any_below(
                        cell_test(texts_of(fields@), x as int, y as int, t),
                        k + 1,
                    )) by {
                    let p = cell_test(texts_of(fields@), x as int, y as int, t);
                    assert(p(k as int) == cell_is(texts_of(fields@), x as int, y as int, k as int, t));
                    assert(any_below(p, k + 1) == (any_below(p, k as int) || p(k as int)));
                }
            }
        }
        k += 1;
    }
    proof {
        assert forall|t: Seq<char>|
            #![trigger cells_need(texts_of(fields@), x as int, y as int, t)]
            cells_need(texts_of(fields@), x as int, y as int, t) <==> any_below(
                cell_test(texts_of(fields@), x as int, y as int, t),
                k as int,
            ) by {
            let p = cell_test(texts_of(fields@), x as int, y as int, t);
            if cells_need(texts_of(fields@), x as int, y as int, t) {
                let b = choose|b: int| cell_is(texts_of(fields@), x as int, y as int, b, t);
                lemma_any_below_witness(p, k as int, b);
            }
            if any_below(p, k as int) {
                let b = lemma_any_below_find(p, k as int);
                assert(cell_is(texts_of(fields@), x as int, y as int, b, t));
            }
        }
    }
}

/// The texts that loading the table asks about: the tokens of the two
/// series of every record, and every metadata cell. Whoever reads numbers
/// from text enters those that are numbers in the table for the load.
#[verifier::loop_isolation(false)]
pub fn csv_number_texts(headers: &Vec<String>, records: &Vec<Result<Vec<String>, String>>) -> (r:
    Vec<String>)
    ensures
        forall|t: Seq<char>|
            #![trigger texts_of(r@).contains(t)]
            #![trigger csv_needs(texts_of(headers@), records_view(records@), t)]
            texts_of(r@).contains(t) <==> csv_needs(texts_of(headers@), records_view(records@), t),
{
    let mut out: Vec<String> = Vec::new();
    let x = match find_header(headers, "x") {
        Some(x) => x,
        None => {
            return out;
        },
    };
    let y = match find_header(headers, "y") {
        Some(y) => y,
        None => {
            return out;
        },
    };
    let mut i: usize = 0;
    while i < records.len()
        invariant
            i <= records.len(),
            forall|t: Seq<char>|
                #![trigger texts_of(out@).contains(t)]
                texts_of(out@).contains(t) <==> any_below(
                    row_test(records_view(records@), x as int, y as int, t),
                    i as int,
                ),
        decreases records.len() - i,
    {
        let ghost before = texts_of(out@);
        if let Ok(fields) = &records[i] {
            push_series_texts(field_or_empty(fields, x), &mut out);
            push_series_texts(field_or_empty(fields, y), &mut out);
            push_cell_texts(fields, x, y, &mut out);
            proof {
                assert forall|t: Seq<char>|
                    #![trigger texts_of(out@).contains(t)]
                    texts_of(out@).contains(t) <==> (before.contains(t) || record_needs(
                        texts_of(fields@),
                        x as int,
                        y as int,
                        t,
                    )) by {}
            }
        }
        proof {
            assert forall|t: Seq<char>|
                #![trigger texts_of(out@).contains(t)]
                texts_of(out@).contains(t) <==> any_below(
                    row_test(records_view(records@), x as int, y as int, t),
                    i + 1,
                ) by {
                let p = row_test(records_view(records@), x as int, y as int, t);
                assert(p(i as int) == row_needs(records_view(records@), x as int, y as int, i as int, t));
                assert(any_below(p, i + 1) == (any_below(p, i as int) || p(i as int)));
                assert(before.contains(t) <==> any_below(p, i as int));
            }
        }
        i += 1;
    }
    proof {
        assert forall|t: Seq<char>|
            #![trigger texts_of(out@).contains(t)]
            #![trigger csv_needs(texts_of(headers@), records_view(records@), t)]
            texts_of(out@).contains(t) <==> csv_needs(texts_of(headers@), records_view(records@), t) by {
            let p = row_test(records_view(records@), x as int, y as int, t);
            assert(header_index(texts_of(headers@), "x"@) == Some(x as int));
            assert(header_index(texts_of(headers@), "y"@) == Some(y as int));
            let hx = header_index(texts_of(headers@), "x"@)->0;
            let hy = header_index(texts_of(headers@), "y"@)->0;
            assert(hx == x && hy == y);
            assert(texts_of(out@).contains(t) <==> any_below(p, i as int));
            if csv_needs(texts_of(headers@), records_view(records@), t) {
                let a = choose|a: int| row_needs(records_view(records@), hx, hy, a, t);
                assert(row_needs(records_view(records@), x as int, y as int, a, t));
                assert(p(a));
                lemma_any_below_witness(p, i as int, a);
            }
            if any_below(p, i as int) {
                let a = lemma_any_below_find(p, i as int);
                assert(row_needs(records_view(records@), hx, hy, a, t));
            }
        }
    }
    out
}

/// What a file of delimited text gives, from its bytes: the failure of
/// the `csv` crate on the header row, or what its header row and records
/// give.
pub open spec fn csv_file_outcome(bytes: Seq<u8>, numbers: Map<Seq<char>, u64>) -> Result<
    Seq<SpectrumModel>,
    LoadFailure,
> {
    match csv_headers(bytes) {
        Err(message) => Err(LoadFailure::ParseFailure(message)),
        Ok(headers) => csv_outcome(headers, csv_records(bytes), numbers),
    }
}

/// Loads a dataset from the bytes of a file of delimited text.
pub fn load_csv(bytes: &[u8], numbers: &NumberTable) -> (r: Result<SpectralDataset, LoadError>)
    ensures
        outcome(r) == csv_file_outcome(bytes@, numbers@),
        r matches Ok(dataset) ==> dataset.wf() && series_match(dataset@),
{
    match read_csv_headers(bytes) {
        Err(message) => Err(LoadError::ParseFailure(message)),
        Ok(headers) => {
            let records = read_csv_records(bytes);
            dataset_from_csv(&headers, &records, numbers)
        },
    }
}

} // verus!
