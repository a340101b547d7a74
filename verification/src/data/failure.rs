//! The ways a load can fail, and how the rows of a file become a dataset
//! or the first failure.

use crate::data::model::{SpectralDataset, SpectrumModel};
use vstd::prelude::*;

verus! {

/// Why a file could not be loaded. A load fails as a whole: no dataset
/// comes back with part of the rows.
#[derive(Debug, PartialEq, Eq)]
pub enum LoadError {
    /// The file's extension names no format that is read; it is given in
    /// lower case.
    UnsupportedFormat(String),
    /// The file has no usable column of this name.
    MissingRequiredColumn(String),
    /// The two series of a row differ in length.
    ShapeMismatch { row: usize, x_len: usize, y_len: usize },
    /// An entry of a series is no number.
    MalformedValue { row: usize, column: String, index: usize, raw_text: String },
    /// A series, or an entry of it, is null.
    NullInNumericColumn(usize),
    /// The file could not be read.
    IoFailure(String),
    /// The file is not of the format that its extension names.
    ParseFailure(String),
}

/// A `LoadError` with its texts as sequences of characters.
pub enum LoadFailure {
    UnsupportedFormat(Seq<char>),
    MissingRequiredColumn(Seq<char>),
    ShapeMismatch { row: usize, x_len: usize, y_len: usize },
    MalformedValue { row: usize, column: Seq<char>, index: usize, raw_text: Seq<char> },
    NullInNumericColumn(usize),
    IoFailure(Seq<char>),
    ParseFailure(Seq<char>),
}

impl View for LoadError {
    type V = LoadFailure;

    open spec fn view(&self) -> LoadFailure {
        match self {
            LoadError::UnsupportedFormat(s) => LoadFailure::UnsupportedFormat(s@),
            LoadError::MissingRequiredColumn(s) => LoadFailure::MissingRequiredColumn(s@),
            LoadError::ShapeMismatch { row, x_len, y_len } => LoadFailure::ShapeMismatch {
                row: *row,
                x_len: *x_len,
                y_len: *y_len,
            },
            LoadError::MalformedValue { row, column, index, raw_text } => LoadFailure::MalformedValue {
                row: *row,
                column: column@,
                index: *index,
                raw_text: raw_text@,
            },
            LoadError::NullInNumericColumn(row) => LoadFailure::NullInNumericColumn(*row),
            LoadError::IoFailure(s) => LoadFailure::IoFailure(s@),
            LoadError::ParseFailure(s) => LoadFailure::ParseFailure(s@),
        }
    }
}

/// What a load gave: the rows of the dataset, or the failure.
pub open spec fn outcome(r: Result<SpectralDataset, LoadError>) -> Result<
    Seq<SpectrumModel>,
    LoadFailure,
> {
    match r {
        Ok(dataset) => Ok(dataset@),
        Err(e) => Err(e@),
    }
}

/// What reading a series gave: its numbers, or the failure.
pub open spec fn series_outcome(r: Result<Vec<u64>, LoadError>) -> Result<Seq<u64>, LoadFailure> {
    match r {
        Ok(numbers) => Ok(numbers@),
        Err(e) => Err(e@),
    }
}

/// The first `n` results gathered: all their items in order, or the first
/// failure among them.
pub open spec fn gather<T>(results: Seq<Result<T, LoadFailure>>, n: int) -> Result<
    Seq<T>,
    LoadFailure,
>
    decreases n,
{
    if n <= 0 {
        Ok(Seq::empty())
    } else {
        match gather(results, n - 1) {
            Err(e) => Err(e),
            Ok(items) => match results[n - 1] {
                Ok(item) => Ok(items.push(item)),
                Err(e) => Err(e),
            },
        }
    }
}

/// All the results gathered.
pub open spec fn gather_all<T>(results: Seq<Result<T, LoadFailure>>) -> Result<Seq<T>, LoadFailure> {
    gather(results, results.len() as int)
}

/// Once a failure is met, later results change nothing.
pub proof fn lemma_gather_failure_stays<T>(results: Seq<Result<T, LoadFailure>>, n: int, m: int)
    requires
        0 <= n <= m,
    ensures
        gather(results, n) is Err ==> gather(results, m) == gather(results, n),
    decreases m - n,
{
    if n < m {
        lemma_gather_failure_stays(results, n, m - 1);
    }
}

/// Where the first `n` results gather without failure, they give `n`
/// items.
pub proof fn lemma_gather_length<T>(results: Seq<Result<T, LoadFailure>>, n: int)
    requires
        0 <= n <= results.len(),
    ensures
        gather(results, n) matches Ok(items) ==> items.len() == n,
    decreases n,
{
    if n > 0 {
        lemma_gather_length(results, n - 1);
    }
}

/// Whether `p` holds of some number from 0 up to, not including, `n`.
pub open spec fn any_below(p: spec_fn(int) -> bool, n: int) -> bool
    decreases n,
{
    n > 0 && (any_below(p, n - 1) || p(n - 1))
}

/// A number below `n` of which `p` holds shows that there is one.
pub proof fn lemma_any_below_witness(p: spec_fn(int) -> bool, n: int, a: int)
    requires
        0 <= a < n,
        p(a),
    ensures
        any_below(p, n),
    decreases n,
{
    if a < n - 1 {
        lemma_any_below_witness(p, n - 1, a);
    }
}

/// Where `p` holds of some number below `n`, this is such a number.
pub proof fn lemma_any_below_find(p: spec_fn(int) -> bool, n: int) -> (a: int)
    requires
        any_below(p, n),
    ensures
        0 <= a < n,
        p(a),
    decreases n,
{
    if p(n - 1) {
        n - 1
    } else {
        lemma_any_below_find(p, n - 1)
    }
}

} // verus!
