//! A row of measurements, and the dataset: the rows together with the
//! column names and the distinct values of each column.

use crate::data::text_map::{entries_map, lemma_entries_map_at, texts_sorted, TextMap};
pub use crate::data::value::MetadataValue;
use crate::data::value::Scalar;
use crate::data::value_set::{values_sorted, ValueSet};
use vstd::prelude::*;

verus! {

/// The metadata of one row: column name to cell value. A row may lack a
/// column that other rows have.
pub type Metadata = TextMap<MetadataValue>;

/// What a row holds: the two series, as the bits of their doubles, and the
/// metadata.
pub struct SpectrumModel {
    pub x: Seq<u64>,
    pub y: Seq<u64>,
    pub metadata: Map<Seq<char>, Scalar>,
}

/// One row: two series of equal length and the row's metadata.
#[derive(Debug)]
pub struct Spectrum {
    x: Vec<u64>,
    y: Vec<u64>,
    metadata: Metadata,
}

impl View for Spectrum {
    type V = SpectrumModel;

    closed spec fn view(&self) -> SpectrumModel {
        SpectrumModel { x: self.x@, y: self.y@, metadata: self.metadata@ }
    }
}

impl Spectrum {
    /// The two series have the same length.
    pub open spec fn wf(&self) -> bool {
        self@.x.len() == self@.y.len()
    }

    #[verifier::type_invariant]
    closed spec fn inv(self) -> bool {
        self.wf()
    }

    /// The names of the row's metadata columns, in their order.
    pub closed spec fn keys(&self) -> Seq<Seq<char>> {
        self.metadata.keys()
    }

    /// The row's cell values, each at the place of its column.
    pub closed spec fn cells(&self) -> Seq<Scalar> {
        self.metadata.values()
    }

    /// The metadata is the map of the row's columns to its cells.
    pub open spec fn cells_wf(&self) -> bool {
        &&& texts_sorted(self.keys())
        &&& self.keys().len() == self.cells().len()
        &&& self@.metadata == entries_map(self.keys(), self.cells())
    }

    /// A row of the two series and the metadata given; none where the
    /// series differ in length.
    pub fn new(x: Vec<u64>, y: Vec<u64>, metadata: Metadata) -> (r: Option<Spectrum>)
        ensures
            r is Some == (x@.len() == y@.len()),
            r matches Some(s) ==> s@ == (SpectrumModel { x: x@, y: y@, metadata: metadata@ }),
    {
        if x.len() == y.len() {
            Some(Spectrum { x, y, metadata })
        } else {
            None
        }
    }

    /// The first series.
    pub fn x(&self) -> (r: &Vec<u64>)
        ensures
            r@ == self@.x,
            self.wf(),
    {
        proof {
            use_type_invariant(self);
        }
        &self.x
    }

    /// The second series, as long as the first.
    pub fn y(&self) -> (r: &Vec<u64>)
        ensures
            r@ == self@.y,
            self.wf(),
    {
        proof {
            use_type_invariant(self);
        }
        &self.y
    }

    /// The row's metadata.
    pub fn metadata(&self) -> (r: &Metadata)
        ensures
            r@ == self@.metadata,
            r.keys() == self.keys(),
            r.values() == self.cells(),
            self.cells_wf(),
    {
        let r = &self.metadata;
        let _ = r.len();
        r
    }
}

/// In every row the two series have the same length.
pub open spec fn series_match(rows: Seq<SpectrumModel>) -> bool {
    forall|i: int| 0 <= i < rows.len() ==> (#[trigger] rows[i]).x.len() == rows[i].y.len()
}

/// Row `row` has value `v` in column `c`.
pub open spec fn row_has(row: SpectrumModel, c: Seq<char>, v: Scalar) -> bool {
    row.metadata.contains_key(c) && row.metadata[c] == v
}

/// Some row has value `v` in column `c`.
pub open spec fn seen(rows: Seq<SpectrumModel>, c: Seq<char>, v: Scalar) -> bool {
    exists|i: int| 0 <= i < rows.len() && row_has(#[trigger] rows[i], c, v)
}

/// Some row has column `c`.
pub open spec fn has_column(rows: Seq<SpectrumModel>, c: Seq<char>) -> bool {
    exists|i: int| 0 <= i < rows.len() && (#[trigger] rows[i]).metadata.contains_key(c)
}

/// `index` lists value `v` under column `c`.
pub open spec fn listed(index: Map<Seq<char>, Seq<Scalar>>, c: Seq<char>, v: Scalar) -> bool {
    index.contains_key(c) && index[c].contains(v)
}

/// `index` lists under each column exactly the values that some row has
/// there, in their order, and lists no column without a value.
pub open spec fn is_index_of(index: Map<Seq<char>, Seq<Scalar>>, rows: Seq<SpectrumModel>) -> bool {
    &&& forall|c: Seq<char>, v: Scalar|
        #![trigger listed(index, c, v)]
        #![trigger seen(rows, c, v)]
        listed(index, c, v) <==> seen(rows, c, v)
    &&& forall|c: Seq<char>| #[trigger]
        index.contains_key(c) ==> index[c].len() > 0 && values_sorted(index[c])
}

/// The columns that an index lists are the columns that some row has.
pub proof fn lemma_index_columns(index: Map<Seq<char>, Seq<Scalar>>, rows: Seq<SpectrumModel>, c: Seq<char>)
    requires
        is_index_of(index, rows),
    ensures
        index.contains_key(c) <==> has_column(rows, c),
{
    if index.contains_key(c) {
        let v = index[c][0];
        assert(index[c].contains(v));
        assert(listed(index, c, v));
        assert(seen(rows, c, v));
        let i = choose|i: int| 0 <= i < rows.len() && row_has(#[trigger] rows[i], c, v);
        assert(rows[i].metadata.contains_key(c));
    }
    if has_column(rows, c) {
        let i = choose|i: int| 0 <= i < rows.len() && (#[trigger] rows[i]).metadata.contains_key(c);
        let v = rows[i].metadata[c];
        assert(row_has(rows[i], c, v));
        assert(seen(rows, c, v));
        assert(listed(index, c, v));
    }
}

/// Among the first `j` cells of a row, one is value `v` in column `c`.
pub open spec fn cells_have(keys: Seq<Seq<char>>, cells: Seq<Scalar>, j: int, c: Seq<char>, v: Scalar) -> bool {
    exists|k: int| 0 <= k < j && #[trigger] keys[k] == c && cells[k] == v
}

/// All the cells of a row together are what the row has.
proof fn lemma_cells_are_row(keys: Seq<Seq<char>>, cells: Seq<Scalar>, c: Seq<char>, v: Scalar)
    requires
        texts_sorted(keys),
        keys.len() == cells.len(),
    ensures
        cells_have(keys, cells, keys.len() as int, c, v) <==> (entries_map(keys, cells).contains_key(c)
            && entries_map(keys, cells)[c] == v),
{
    let m = entries_map(keys, cells);
    if cells_have(keys, cells, keys.len() as int, c, v) {
        let k = choose|k: int| 0 <= k < keys.len() && #[trigger] keys[k] == c && cells[k] == v;
        lemma_entries_map_at(keys, cells, k);
    }
    if m.contains_key(c) && m[c] == v {
        assert(keys.contains(c));
        let k = choose|k: int| 0 <= k < keys.len() && keys[k] == c;
        lemma_entries_map_at(keys, cells, k);
    }
}

/// The full dataset: the rows, the names of the metadata columns in their
/// order, and for each column its distinct values.
#[derive(Debug)]
pub struct SpectralDataset {
    spectra: Vec<Spectrum>,
    column_names: Vec<String>,
    unique_values: TextMap<ValueSet>,
}

impl View for SpectralDataset {
    type V = Seq<SpectrumModel>;

    /// The rows.
    closed spec fn view(&self) -> Seq<SpectrumModel> {
        self.spectra@.map_values(|s: Spectrum| s@)
    }
}

impl SpectralDataset {
    /// The distinct values of each column, in their order.
    pub closed spec fn index(&self) -> Map<Seq<char>, Seq<Scalar>> {
        self.unique_values@
    }

    /// The column names, in their order.
    pub closed spec fn columns(&self) -> Seq<Seq<char>> {
        self.column_names@.map_values(|s: String| s@)
    }

    /// The two indices say what the rows hold: the columns are those that
    /// some row has, sorted; each column's values are those that some row
    /// has there, sorted; and every row's series are of one length.
    pub open spec fn wf(&self) -> bool {
        &&& is_index_of(self.index(), self@)
        &&& texts_sorted(self.columns())
        &&& forall|c: Seq<char>| self.columns().contains(c) <==> has_column(self@, c)
        &&& series_match(self@)
    }

    #[verifier::type_invariant]
    closed spec fn inv(self) -> bool {
        &&& self.wf()
        &&& self.columns() == self.unique_values.keys()
    }

    /// Builds the column indices from the rows.
    pub fn from_spectra(spectra: Vec<Spectrum>) -> (r: SpectralDataset)
        ensures
            r@ == spectra@.map_values(|s: Spectrum| s@),
            r.wf(),
            series_match(r@),
    {
        let ghost rows = spectra@.map_values(|s: Spectrum| s@);
        let mut unique_values: TextMap<ValueSet> = TextMap::new();
        let mut i: usize = 0;
        while i < spectra.len()
            invariant
                i <= spectra.len(),
                rows == spectra@.map_values(|s: Spectrum| s@),
                is_index_of(unique_values@, rows.take(i as int)),
                forall|a: int| 0 <= a < i ==> (#[trigger] rows[a]).x.len() == rows[a].y.len(),
            decreases spectra.len() - i,
        {
            let spectrum = &spectra[i];
            proof {
                use_type_invariant(spectrum);
                assert(rows[i as int] == spectrum@);
            }
            let metadata = spectrum.metadata();
            let ghost keys = metadata.keys();
            let ghost cells = metadata.values();
            let ghost done = rows.take(i as int);
            let n = metadata.len();
            let mut j: usize = 0;
            while j < n
                invariant
                    j <= n,
                    n == keys.len(),
                    keys == metadata.keys(),
                    cells == metadata.values(),
                    keys.len() == cells.len(),
                    done == rows.take(i as int),
                    forall|c: Seq<char>, v: Scalar| #[trigger]
                        listed(unique_values@, c, v) <==> (seen(done, c, v) || cells_have(
                            keys,
                            cells,
                            j as int,
                            c,
                            v,
                        )),
                    forall|c: Seq<char>| #[trigger]
                        unique_values@.contains_key(c) ==> unique_values@[c].len() > 0
                            && values_sorted(unique_values@[c]),
                decreases n - j,
            {
                let column = metadata.key_at(j);
                let value = metadata.value_at(j);
                let ghost before = unique_values@;
                let mut set = match unique_values.remove(column.as_str()) {
                    Some(set) => set,
                    None => ValueSet::new(),
                };
                let ghost earlier = set@;
                let _ = set.insert(value.clone());
                let ghost after = set@;
                unique_values.insert(column.clone(), set);
                proof {
                    let c0 = column@;
                    let v0 = value@;
                    assert(keys[j as int] == c0 && cells[j as int] == v0);
                    assert(unique_values@ == before.remove(c0).insert(c0, after));
                    assert(after.to_set() == earlier.to_set().insert(v0));
                    assert(after.contains(v0)) by {
                        assert(after.to_set().contains(v0));
                    }
                    assert forall|c: Seq<char>, v: Scalar| #[trigger]
                        listed(unique_values@, c, v) <==> (seen(done, c, v) || cells_have(
                            keys,
                            cells,
                            j + 1,
                            c,
                            v,
                        )) by {
                        let was = listed(before, c, v);
                        assert(was <==> (seen(done, c, v) || cells_have(keys, cells, j as int, c, v)));
                        assert(cells_have(keys, cells, j + 1, c, v) <==> (cells_have(
                            keys,
                            cells,
                            j as int,
                            c,
                            v,
                        ) || (c == c0 && v == v0))) by {
                            if cells_have(keys, cells, j + 1, c, v) {
                                let k = choose|k: int|
                                    0 <= k < j + 1 && #[trigger] keys[k] == c && cells[k] == v;
                                if k < j {
                                    assert(cells_have(keys, cells, j as int, c, v));
                                }
                            }
                            if cells_have(keys, cells, j as int, c, v) {
                                let k = choose|k: int|
                                    0 <= k < j && #[trigger] keys[k] == c && cells[k] == v;
                                assert(0 <= k < j + 1 && keys[k] == c && cells[k] == v);
                            }
                            if c == c0 && v == v0 {
                                assert(keys[j as int] == c && cells[j as int] == v);
                            }
                        }
                        if c == c0 {
                            assert(unique_values@[c] == after);
                            assert(after.contains(v) <==> after.to_set().contains(v));
                            assert(earlier.contains(v) <==> earlier.to_set().contains(v));
                            if before.contains_key(c0) {
                                assert(earlier == before[c0]);
                            } else {
                                assert(earlier.len() == 0);
                            }
                        } else {
                            assert(unique_values@.contains_key(c) == before.contains_key(c));
                            if before.contains_key(c) {
                                assert(unique_values@[c] == before[c]);
                            }
                        }
                    }
                    assert forall|c: Seq<char>| #[trigger]
                        unique_values@.contains_key(c) implies unique_values@[c].len() > 0
                        && values_sorted(unique_values@[c]) by {
                        if c != c0 {
                            assert(before.contains_key(c));
                            assert(unique_values@[c] == before[c]);
                        }
                    }
                }
                j += 1;
            }
            proof {
                let row = rows[i as int];
                assert(row == spectra@[i as int]@);
                assert(row.metadata == entries_map(keys, cells));
                let next = rows.take(i + 1);
                assert forall|c: Seq<char>, v: Scalar|
                    #![trigger listed(unique_values@, c, v)]
                    #![trigger seen(next, c, v)]
                    listed(unique_values@, c, v) <==> seen(next, c, v) by {
                    lemma_cells_are_row(keys, cells, c, v);
                    if seen(done, c, v) {
                        let k = choose|k: int| 0 <= k < done.len() && row_has(#[trigger] done[k], c, v);
                        assert(next[k] == done[k]);
                    }
                    if row_has(row, c, v) {
                        assert(next[i as int] == row);
                    }
                    if seen(next, c, v) {
                        let k = choose|k: int| 0 <= k < next.len() && row_has(#[trigger] next[k], c, v);
                        if k < i {
                            assert(done[k] == next[k]);
                        } else {
                            assert(next[k] == row);
                        }
                    }
                }
            }
            i += 1;
        }
        proof {
            assert(rows.take(i as int) =~= rows);
        }
        let mut column_names: Vec<String> = Vec::new();
        let m = unique_values.len();
        let mut k: usize = 0;
        while k < m
            invariant
                k <= m,
                m == unique_values.keys().len(),
                column_names@.len() == k,
                unique_values.wf(),
                forall|a: int| 0 <= a < k ==> (#[trigger] column_names@[a])@ == unique_values.keys()[a],
            decreases m - k,
        {
            column_names.push(unique_values.key_at(k).clone());
            k += 1;
        }
        proof {
            let names = column_names@.map_values(|s: String| s@);
            let keys = unique_values.keys();
            assert(names =~= keys);
            assert forall|c: Seq<char>| names.contains(c) <==> has_column(rows, c) by {
                lemma_index_columns(unique_values@, rows, c);
                assert(unique_values@.contains_key(c) <==> keys.contains(c));
            }
        }
        SpectralDataset { spectra, column_names, unique_values }
    }

    /// The rows.
    pub fn spectra(&self) -> (r: &Vec<Spectrum>)
        ensures
            r@.map_values(|s: Spectrum| s@) == self@,
            self.wf(),
    {
        proof {
            use_type_invariant(self);
        }
        &self.spectra
    }

    /// The names of the metadata columns, in their order.
    pub fn column_names(&self) -> (r: &Vec<String>)
        ensures
            r@.map_values(|s: String| s@) == self.columns(),
            self.wf(),
    {
        proof {
            use_type_invariant(self);
        }
        &self.column_names
    }

    /// The distinct values of every column.
    pub fn unique_values(&self) -> (r: &TextMap<ValueSet>)
        ensures
            r@ == self.index(),
            r.keys() == self.columns(),
            self.wf(),
    {
        proof {
            use_type_invariant(self);
        }
        &self.unique_values
    }

    /// The number of rows.
    pub fn len(&self) -> (r: usize)
        ensures
            r == self@.len(),
    {
        self.spectra.len()
    }

    /// Whether the dataset has no row.
    pub fn is_empty(&self) -> (r: bool)
        ensures
            r == (self@.len() == 0),
    {
        self.spectra.len() == 0
    }
}

} // verus!
