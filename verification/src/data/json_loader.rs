//! The loader for record-array text: a JSON array of flat objects, the two
//! series of each as arrays of numbers under `x` and `y`.

use crate::data::failure::{
    gather, gather_all, lemma_gather_failure_stays, outcome, series_outcome, LoadError,
    LoadFailure,
};
use crate::data::model::{
    series_match, Metadata, SpectralDataset, Spectrum, SpectrumModel,
};
use crate::data::text_map::TextMap;
use crate::data::value::{MetadataValue, Scalar};
use crate::lexing::{first_index, lemma_first_index, lemma_first_index_bounds};
use crate::text::same_text;
use vstd::prelude::*;

verus! {

#[verifier::external_type_specification]
#[verifier::external_body]
pub struct ExJsonValue(serde_json::Value);

/// What a JSON value is, one level deep: of an array its items, of an
/// object its entries in the order in which the object hands them out.
pub enum JsonShape {
    Null,
    Bool(bool),
    /// A number: as a 64-bit integer where it is one that fits, and as the
    /// bits of the double that stands for it.
    Number { integer: Option<i64>, double: Option<u64> },
    Text(Seq<char>),
    Array(Seq<serde_json::Value>),
    Object(Seq<(Seq<char>, serde_json::Value)>),
}

/// What a value of `serde_json` holds.
pub uninterp spec fn json_shape(v: serde_json::Value) -> JsonShape;

/// The compact JSON text of a value, as `serde_json` writes it.
pub uninterp spec fn json_rendering(v: serde_json::Value) -> Seq<char>;

/// What `serde_json` reads from a text: the value, or the message of its
/// error.
pub uninterp spec fn json_parsed(text: Seq<char>) -> Result<serde_json::Value, Seq<char>>;

/// A JSON value that is no array and no object, as plain data.
#[derive(Debug)]
pub enum JsonScalar {
    Null,
    Bool(bool),
    Number { integer: Option<i64>, double: Option<u64> },
    Text(String),
    Composite,
}

/// Whether a plain scalar says what the value is.
pub open spec fn scalar_matches(s: JsonScalar, shape: JsonShape) -> bool {
    match shape {
        JsonShape::Null => s is Null,
        JsonShape::Bool(b) => s == JsonScalar::Bool(b),
        JsonShape::Number { integer, double } => s == (JsonScalar::Number { integer, double }),
        JsonShape::Text(t) => s matches JsonScalar::Text(text) && text@ == t,
        JsonShape::Array(_) => s is Composite,
        JsonShape::Object(_) => s is Composite,
    }
}

/// Parses a text with `serde_json::from_str`. The result depends on the
/// text alone.
#[verifier::external_body]
fn parse_json(text: &str) -> (r: Result<serde_json::Value, String>)
    ensures
        r is Ok == json_parsed(text@) is Ok,
        r matches Ok(v) ==> json_parsed(text@)->Ok_0 == v,
        r matches Err(e) ==> json_parsed(text@)->Err_0 == e@,
{
    serde_json::from_str(text).map_err(|e: serde_json::Error| e.to_string())
}

/// The items of an array, by `Value::as_array`; none for any other value.
#[verifier::external_body]
fn json_items(v: &serde_json::Value) -> (r: Option<&Vec<serde_json::Value>>)
    ensures
        r is Some == json_shape(*v) is Array,
        r is Some ==> r->0@ == json_shape(*v)->Array_0,
{
    v.as_array()
}

/// The entries of an object, by `Value::as_object` and the iterator of
/// the map; none for any other value.
#[verifier::external_body]
fn json_entries(v: &serde_json::Value) -> (r: Option<Vec<(&String, &serde_json::Value)>>)
    ensures
        r is Some == json_shape(*v) is Object,
        r is Some ==> r->0@.len() == json_shape(*v)->Object_0.len(),
        forall|i: int|
            r is Some && 0 <= i < r->0@.len() ==> (#[trigger] r->0@[i]).0@ == json_shape(
                *v,
            )->Object_0[i].0 && *r->0@[i].1 == json_shape(*v)->Object_0[i].1,
{
    v.as_object().map(|m| m.iter().collect())
}

/// What a value is where it is no array and no object: the variant, with
/// `Number::as_i64` and the bits of `Number::as_f64` for a number.
#[verifier::external_body]
fn json_scalar(v: &serde_json::Value) -> (r: JsonScalar)
    ensures
        scalar_matches(r, json_shape(*v)),
{
    match v {
        serde_json::Value::Null => JsonScalar::Null,
        serde_json::Value::Bool(b) => JsonScalar::Bool(*b),
        serde_json::Value::Number(n) => JsonScalar::Number {
            integer: n.as_i64(),
            double: n.as_f64().map(|f| f.to_bits()),
        },
        serde_json::Value::String(s) => JsonScalar::Text(s.clone()),
        _ => JsonScalar::Composite,
    }
}

/// The compact JSON text of a value, by its `Display`.
#[verifier::external_body]
fn json_text(v: &serde_json::Value) -> (r: String)
    ensures
        r@ == json_rendering(*v),
{
    v.to_string()
}

/// The double that a value is, if it is a number.
pub open spec fn json_number(v: serde_json::Value) -> Option<u64> {
    match json_shape(v) {
        JsonShape::Number { integer, double } => double,
        _ => None,
    }
}

/// What one item of a series gives: its number, or the failure that names
/// the item by its text.
pub open spec fn json_element(v: serde_json::Value, row: usize, column: Seq<char>, index: int) -> Result<
    u64,
    LoadFailure,
> {
    match json_number(v) {
        Some(bits) => Ok(bits),
        None => Err(
            LoadFailure::MalformedValue {
                row,
                column,
                index: index as usize,
                raw_text: json_rendering(v),
            },
        ),
    }
}

/// What each item of an array gives as an item of a series.
pub open spec fn json_elements(items: Seq<serde_json::Value>, row: usize, column: Seq<char>) -> Seq<
    Result<u64, LoadFailure>,
> {
    Seq::new(items.len(), |j: int| json_element(items[j], row, column, j))
}

/// The series under a record's field: the field must be there and be an
/// array, and every item of it a number.
pub open spec fn json_series(field: Option<serde_json::Value>, row: usize, column: Seq<char>) -> Result<
    Seq<u64>,
    LoadFailure,
> {
    match field {
        None => Err(LoadFailure::MissingRequiredColumn(column)),
        Some(v) => match json_shape(v) {
            JsonShape::Array(items) => gather_all(json_elements(items, row, column)),
            _ => Err(LoadFailure::MissingRequiredColumn(column)),
        },
    }
}

/// Reads the series under a record's field.
#[verifier::loop_isolation(false)]
pub fn json_array_to_f64(val: Option<&serde_json::Value>, row: usize, col: &str) -> (r: Result<
    Vec<u64>,
    LoadError,
>)
    ensures
        series_outcome(r) == json_series(
            match val {
                Some(v) => Some(*v),
                None => None,
            },
            row,
            col@,
        ),
{
    let items = match val {
        None => {
            return Err(LoadError::MissingRequiredColumn(col.to_owned()));
        },
        Some(v) => match json_items(v) {
            None => {
                return Err(LoadError::MissingRequiredColumn(col.to_owned()));
            },
            Some(items) => items,
        },
    };
    let ghost results = json_elements(items@, row, col@);
    let mut series: Vec<u64> = Vec::new();
    let mut j: usize = 0;
    while j < items.len()
        invariant
            j <= items.len(),
            results == json_elements(items@, row, col@),
            gather(results, j as int) == Ok::<Seq<u64>, LoadFailure>(series@),
        decreases items.len() - j,
    {
        let item = &items[j];
        proof {
            assert(results[j as int] == json_element(*item, row, col@, j as int));
            lemma_gather_failure_stays(results, j + 1, results.len() as int);
        }
        match json_scalar(item) {
            JsonScalar::Number { integer, double: Some(bits) } => {
                series.push(bits);
            },
            _ => {
                return Err(
                    LoadError::MalformedValue {
                        row,
                        column: col.to_owned(),
                        index: j,
                        raw_text: json_text(item),
                    },
                );
            },
        }
        j += 1;
    }
    Ok(series)
}

/// The cell value that a field of a record gives: null, a truth value or
/// a string as it is; a number as an integer where it is one that fits,
/// else as a double; anything else as its JSON text.
pub open spec fn json_cell(v: serde_json::Value) -> Scalar {
    match json_shape(v) {
        JsonShape::Null => Scalar::Null,
        JsonShape::Bool(b) => Scalar::Bool(b),
        JsonShape::Number { integer: Some(i), double } => Scalar::Integer(i),
        JsonShape::Number { integer: None, double: Some(bits) } => Scalar::Float(bits),
        JsonShape::Text(t) => Scalar::Text(t),
        _ => Scalar::Text(json_rendering(v)),
    }
}

/// Turns a field of a record into a cell value.
pub fn json_to_metadata(val: &serde_json::Value) -> (r: MetadataValue)
    ensures
        r@ == json_cell(*val),
{
    match json_scalar(val) {
        JsonScalar::Null => MetadataValue::Null,
        JsonScalar::Bool(b) => MetadataValue::Bool(b),
        JsonScalar::Number { integer: Some(i), double } => MetadataValue::Integer(i),
        JsonScalar::Number { integer: None, double: Some(bits) } => MetadataValue::Float(bits),
        JsonScalar::Text(s) => MetadataValue::String(s),
        _ => MetadataValue::String(json_text(val)),
    }
}

/// The names of the entries of an object.
pub open spec fn entry_names(entries: Seq<(Seq<char>, serde_json::Value)>) -> Seq<Seq<char>> {
    Seq::new(entries.len(), |i: int| entries[i].0)
}

/// The value of the first entry called `name`, if there is one.
pub open spec fn json_field(entries: Seq<(Seq<char>, serde_json::Value)>, name: Seq<char>) -> Option<
    serde_json::Value,
> {
    let i = first_index(entry_names(entries), name);
    if i < entries.len() {
        Some(entries[i].1)
    } else {
        None
    }
}

/// The metadata that the first `n` entries of a record give: every entry
/// but `x` and `y`, a later entry of one name replacing an earlier one.
pub open spec fn json_metadata(entries: Seq<(Seq<char>, serde_json::Value)>, n: int) -> Map<
    Seq<char>,
    Scalar,
>
    decreases n,
{
    if n <= 0 {
        Map::empty()
    } else {
        let before = json_metadata(entries, n - 1);
        let entry = entries[n - 1];
        if entry.0 == "x"@ || entry.0 == "y"@ {
            before
        } else {
            before.insert(entry.0, json_cell(entry.1))
        }
    }
}

/// The row that a record gives, or why it gives none: the record is no
/// object, `x` or `y` is no array of numbers, or the two series differ in
/// length, whichever comes first.
pub open spec fn json_row(v: serde_json::Value, row: usize) -> Result<SpectrumModel, LoadFailure> {
    match json_shape(v) {
        JsonShape::Object(entries) => match json_series(json_field(entries, "x"@), row, "x"@) {
            Err(e) => Err(e),
            Ok(xs) => match json_series(json_field(entries, "y"@), row, "y"@) {
                Err(e) => Err(e),
                Ok(ys) => if xs.len() != ys.len() {
                    Err(
                        LoadFailure::ShapeMismatch {
                            row,
                            x_len: xs.len() as usize,
                            y_len: ys.len() as usize,
                        },
                    )
                } else {
                    Ok(
                        SpectrumModel {
                            x: xs,
                            y: ys,
                            metadata: json_metadata(entries, entries.len() as int),
                        },
                    )
                },
            },
        },
        _ => Err(
            LoadFailure::MalformedValue {
                row,
                column: Seq::empty(),
                index: 0,
                raw_text: json_rendering(v),
            },
        ),
    }
}

/// What every record of the array gives.
pub open spec fn json_rows(items: Seq<serde_json::Value>) -> Seq<Result<SpectrumModel, LoadFailure>> {
    Seq::new(items.len(), |i: int| json_row(items[i], i as usize))
}

/// The message for a document that is no array.
pub open spec fn not_an_array() -> Seq<char> {
    "expected a top-level JSON array"@
}

/// What a JSON document gives: it must be an array; then the rows of its
/// records, or the first failure among them.
pub open spec fn json_outcome(root: serde_json::Value) -> Result<Seq<SpectrumModel>, LoadFailure> {
    match json_shape(root) {
        JsonShape::Array(items) => gather_all(json_rows(items)),
        _ => Err(LoadFailure::ParseFailure(not_an_array())),
    }
}

/// The names of the entries handed out by an object.
pub open spec fn pair_names(entries: Seq<(&String, &serde_json::Value)>) -> Seq<Seq<char>> {
    Seq::new(entries.len(), |i: int| entries[i].0@)
}

/// The value of the first entry called `name`.
fn find_entry<'a>(entries: &Vec<(&'a String, &'a serde_json::Value)>, name: &str) -> (r: Option<
    &'a serde_json::Value,
>)
    ensures
        match r {
            Some(v) => {
                let i = first_index(pair_names(entries@), name@);
                i < entries@.len() && *v == *entries@[i].1
            },
            None => first_index(pair_names(entries@), name@) >= entries@.len(),
        },
{
    let ghost names = pair_names(entries@);
    let mut i: usize = 0;
    while i < entries.len()
        invariant
            i <= entries.len(),
            names == pair_names(entries@),
            forall|k: int| 0 <= k < i ==> names[k] != name@,
        decreases entries.len() - i,
    {
        if same_text(entries[i].0.as_str(), name) {
            proof {
                lemma_first_index(names, name@, i as int);
            }
            return Some(entries[i].1);
        }
        i += 1;
    }
    proof {
        lemma_first_index(names, name@, i as int);
    }
    None
}

/// Builds the dataset from a parsed JSON document.
#[verifier::loop_isolation(false)]
pub fn dataset_from_json(root: &serde_json::Value) -> (r: Result<SpectralDataset, LoadError>)
    ensures
        outcome(r) == json_outcome(*root),
        r matches Ok(dataset) ==> dataset.wf() && series_match(dataset@),
{
    let records = match json_items(root) {
        Some(records) => records,
        None => {
            return Err(LoadError::ParseFailure("expected a top-level JSON array".to_owned()));
        },
    };
    let ghost rows = json_rows(records@);
    let mut spectra: Vec<Spectrum> = Vec::new();
    let mut i: usize = 0;
    proof {
        assert(spectra@.map_values(|s: Spectrum| s@) =~= Seq::<SpectrumModel>::empty());
    }
    while i < records.len()
        invariant
            i <= records.len(),
            gather(rows, i as int) == Ok::<Seq<SpectrumModel>, LoadFailure>(
                spectra@.map_values(|s: Spectrum| s@),
            ),
        decreases records.len() - i,
    {
        let record = &records[i];
        proof {
            assert(rows[i as int] == json_row(*record, i));
            lemma_gather_failure_stays(rows, i + 1, rows.len() as int);
        }
        let entries = match json_entries(record) {
            Some(entries) => entries,
            None => {
                return Err(
                    LoadError::MalformedValue {
                        row: i,
                        column: String::new(),
                        index: 0,
                        raw_text: json_text(record),
                    },
                );
            },
        };
        let ghost shape = json_shape(*record)->Object_0;
        proof {
            assert(entry_names(shape) =~= pair_names(entries@));
        }
        let x_field = find_entry(&entries, "x");
        let y_field = find_entry(&entries, "y");
        proof {
            let ix = first_index(pair_names(entries@), "x"@);
            let iy = first_index(pair_names(entries@), "y"@);
            lemma_first_index_bounds(pair_names(entries@), "x"@);
            lemma_first_index_bounds(pair_names(entries@), "y"@);
            assert(shape.len() == entries@.len());
            if ix < entries@.len() {
                assert(*entries@[ix].1 == shape[ix].1);
            }
            if iy < entries@.len() {
                assert(*entries@[iy].1 == shape[iy].1);
            }
            assert(json_field(shape, "x"@) == match x_field {
                Some(v) => Some(*v),
                None => None,
            });
            assert(json_field(shape, "y"@) == match y_field {
                Some(v) => Some(*v),
                None => None,
            });
        }
        let xs = match json_array_to_f64(x_field, i, "x") {
            Ok(xs) => xs,
            Err(e) => {
                return Err(e);
            },
        };
        let ys = match json_array_to_f64(y_field, i, "y") {
            Ok(ys) => ys,
            Err(e) => {
                return Err(e);
            },
        };
        let mut metadata: Metadata = TextMap::new();
        let mut k: usize = 0;
        while k < entries.len()
            invariant
                k <= entries.len(),
                metadata@ == json_metadata(shape, k as int),
            decreases entries.len() - k,
        {
            let key = entries[k].0;
            if !same_text(key.as_str(), "x") && !same_text(key.as_str(), "y") {
                metadata.insert(key.clone(), json_to_metadata(entries[k].1));
            }
            k += 1;
        }
        let x_len = xs.len();
        let y_len = ys.len();
        match Spectrum::new(xs, ys, metadata) {
            Some(spectrum) => {
                proof {
                    assert(spectra@.push(spectrum).map_values(|s: Spectrum| s@)
                        =~= spectra@.map_values(|s: Spectrum| s@).push(spectrum@));
                }
                spectra.push(spectrum);
            },
            None => {
                return Err(LoadError::ShapeMismatch { row: i, x_len, y_len });
            },
        }
        i += 1;
    }
    Ok(SpectralDataset::from_spectra(spectra))
}

/// What a text of record-array form gives: the failure of `serde_json`, or
/// what the document gives.
pub open spec fn json_text_outcome(text: Seq<char>) -> Result<Seq<SpectrumModel>, LoadFailure> {
    match json_parsed(text) {
        Err(message) => Err(LoadFailure::ParseFailure(message)),
        Ok(root) => json_outcome(root),
    }
}

/// Loads a dataset from a text of record-array form.
pub fn load_json(text: &str) -> (r: Result<SpectralDataset, LoadError>)
    ensures
        outcome(r) == json_text_outcome(text@),
        r matches Ok(dataset) ==> dataset.wf() && series_match(dataset@),
{
    match parse_json(text) {
        Err(message) => Err(LoadError::ParseFailure(message)),
        Ok(root) => dataset_from_json(&root),
    }
}

} // verus!
