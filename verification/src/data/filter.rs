//! The filter: a selection of values for some columns, and the rows that
//! pass it.

use crate::data::model::{is_index_of, SpectralDataset, Spectrum, SpectrumModel};
use crate::data::text_map::{lemma_entries_map_at, TextMap};
use crate::data::value::{MetadataValue, Scalar};
use crate::data::value_set::ValueSet;
use vstd::prelude::*;

verus! {

/// The selected values of each constrained column. A column without an
/// entry is unconstrained; a column with an empty selection lets no row
/// pass.
pub type FilterState = TextMap<ValueSet>;

/// The value that a row counts as having in column `c`: its cell, or null
/// where the row lacks the column.
pub open spec fn cell_or_null(row: SpectrumModel, c: Seq<char>) -> Scalar {
    if row.metadata.contains_key(c) {
        row.metadata[c]
    } else {
        Scalar::Null
    }
}

/// Whether `row` passes the selection made for column `c`: never where
/// nothing is selected; always where the selection is all the distinct
/// values of the column; else where the row's value is selected.
pub open spec fn column_passes(
    index: Map<Seq<char>, Seq<Scalar>>,
    c: Seq<char>,
    selection: Seq<Scalar>,
    row: SpectrumModel,
) -> bool {
    &&& selection.len() > 0
    &&& {
        ||| (index.contains_key(c) && selection.to_set() == index[c].to_set())
        ||| selection.contains(cell_or_null(row, c))
    }
}

/// Whether `row` passes every constrained column.
pub open spec fn row_passes(
    index: Map<Seq<char>, Seq<Scalar>>,
    filters: Map<Seq<char>, Seq<Scalar>>,
    row: SpectrumModel,
) -> bool {
    forall|c: Seq<char>| #[trigger]
        filters.contains_key(c) ==> column_passes(index, c, filters[c], row)
}

/// The indices below `n` of the rows that pass, in ascending order.
pub open spec fn visible_upto(
    rows: Seq<SpectrumModel>,
    index: Map<Seq<char>, Seq<Scalar>>,
    filters: Map<Seq<char>, Seq<Scalar>>,
    n: int,
) -> Seq<usize>
    decreases n,
{
    if n <= 0 {
        Seq::empty()
    } else if row_passes(index, filters, rows[n - 1]) {
        visible_upto(rows, index, filters, n - 1).push((n - 1) as usize)
    } else {
        visible_upto(rows, index, filters, n - 1)
    }
}

/// The indices of the rows that pass the filter, in the order of the rows.
pub open spec fn visible_rows(
    rows: Seq<SpectrumModel>,
    index: Map<Seq<char>, Seq<Scalar>>,
    filters: Map<Seq<char>, Seq<Scalar>>,
) -> Seq<usize> {
    visible_upto(rows, index, filters, rows.len() as int)
}

/// The visible indices ascend, and an index is among them exactly if its
/// row passes.
pub proof fn lemma_visible_upto(
    rows: Seq<SpectrumModel>,
    index: Map<Seq<char>, Seq<Scalar>>,
    filters: Map<Seq<char>, Seq<Scalar>>,
    n: int,
)
    requires
        0 <= n <= rows.len(),
        rows.len() <= usize::MAX,
    ensures
        forall|a: int, b: int|
            0 <= a < b < visible_upto(rows, index, filters, n).len() ==> (#[trigger] visible_upto(
                rows,
                index,
                filters,
                n,
            )[a]) < (#[trigger] visible_upto(rows, index, filters, n)[b]),
        forall|i: usize|
            visible_upto(rows, index, filters, n).contains(i) <==> (i < n && row_passes(
                index,
                filters,
                rows[i as int],
            )),
    decreases n,
{
    let s = visible_upto(rows, index, filters, n);
    if n > 0 {
        let t = visible_upto(rows, index, filters, n - 1);
        lemma_visible_upto(rows, index, filters, n - 1);
        let last = (n - 1) as usize;
        assert forall|i: usize| s.contains(i) <==> (i < n && row_passes(
            index,
            filters,
            rows[i as int],
        )) by {
            if row_passes(index, filters, rows[n - 1]) {
                assert(s == t.push(last));
                if s.contains(i) {
                    let k = choose|k: int| 0 <= k < s.len() && s[k] == i;
                    if k < t.len() {
                        assert(t[k] == i);
                    }
                }
                if t.contains(i) {
                    let k = choose|k: int| 0 <= k < t.len() && t[k] == i;
                    assert(s[k] == i);
                }
                if i == last {
                    assert(s[t.len() as int] == i);
                }
            }
        }
        assert forall|a: int, b: int| 0 <= a < b < s.len() implies (#[trigger] s[a]) < (
        #[trigger] s[b]) by {
            if row_passes(index, filters, rows[n - 1]) && b == t.len() {
                assert(t.contains(t[a]));
            }
        }
    }
}

/// Selecting for a column all of its distinct values shows the same rows
/// as leaving the column out of the filter.
pub proof fn lemma_full_selection_is_no_filter(
    rows: Seq<SpectrumModel>,
    index: Map<Seq<char>, Seq<Scalar>>,
    filters: Map<Seq<char>, Seq<Scalar>>,
    c: Seq<char>,
)
    requires
        is_index_of(index, rows),
        index.contains_key(c),
    ensures
        visible_rows(rows, index, filters.insert(c, index[c])) == visible_rows(
            rows,
            index,
            filters.remove(c),
        ),
{
    lemma_full_selection_upto(rows, index, filters, c, rows.len() as int);
}

proof fn lemma_full_selection_upto(
    rows: Seq<SpectrumModel>,
    index: Map<Seq<char>, Seq<Scalar>>,
    filters: Map<Seq<char>, Seq<Scalar>>,
    c: Seq<char>,
    n: int,
)
    requires
        is_index_of(index, rows),
        index.contains_key(c),
        0 <= n <= rows.len(),
    ensures
        visible_upto(rows, index, filters.insert(c, index[c]), n) == visible_upto(
            rows,
            index,
            filters.remove(c),
            n,
        ),
    decreases n,
{
    if n > 0 {
        lemma_full_selection_upto(rows, index, filters, c, n - 1);
        let with = filters.insert(c, index[c]);
        let without = filters.remove(c);
        let row = rows[n - 1];
        assert(index[c].len() > 0);
        assert(column_passes(index, c, with[c], row));
        if row_passes(index, with, row) {
            assert forall|d: Seq<char>| #[trigger] without.contains_key(d) implies column_passes(
                index,
                d,
                without[d],
                row,
            ) by {
                assert(with.contains_key(d));
            }
        }
        if row_passes(index, without, row) {
            assert forall|d: Seq<char>| #[trigger] with.contains_key(d) implies column_passes(
                index,
                d,
                with[d],
                row,
            ) by {
                if d != c {
                    assert(without.contains_key(d));
                }
            }
        }
    }
}

/// With an empty selection for any one column no row is visible.
pub proof fn lemma_empty_selection_hides_all(
    rows: Seq<SpectrumModel>,
    index: Map<Seq<char>, Seq<Scalar>>,
    filters: Map<Seq<char>, Seq<Scalar>>,
    c: Seq<char>,
)
    requires
        filters.contains_key(c),
        filters[c].len() == 0,
    ensures
        visible_rows(rows, index, filters) == Seq::<usize>::empty(),
{
    lemma_empty_selection_upto(rows, index, filters, c, rows.len() as int);
}

proof fn lemma_empty_selection_upto(
    rows: Seq<SpectrumModel>,
    index: Map<Seq<char>, Seq<Scalar>>,
    filters: Map<Seq<char>, Seq<Scalar>>,
    c: Seq<char>,
    n: int,
)
    requires
        filters.contains_key(c),
        filters[c].len() == 0,
    ensures
        visible_upto(rows, index, filters, n) == Seq::<usize>::empty(),
    decreases n,
{
    if n > 0 {
        lemma_empty_selection_upto(rows, index, filters, c, n - 1);
        assert(!column_passes(index, c, filters[c], rows[n - 1]));
    }
}

/// A filter with every value of every column selected: it shows
/// everything.
pub fn init_filter_state(dataset: &SpectralDataset) -> (r: FilterState)
    ensures
        r.wf(),
        r@ == dataset.index(),
{
    let source = dataset.unique_values();
    let mut r: FilterState = TextMap::new();
    let n = source.len();
    let mut k: usize = 0;
    while k < n
        invariant
            k <= n,
            n == source.keys().len(),
            source.wf(),
            r.wf(),
            r@ == source@.restrict(source.keys().take(k as int).to_set()),
        decreases n - k,
    {
        let key = source.key_at(k);
        let set = source.value_at(k);
        r.insert(key.clone(), set.clone());
        proof {
            let keys = source.keys();
            let n1 = k as int;
            assert(keys.take(n1 + 1) =~= keys.take(n1).push(keys[n1]));
            keys.take(n1).lemma_push_to_set_commute(keys[n1]);
            assert(r@ =~= source@.restrict(keys.take(n1 + 1).to_set()));
        }
        k += 1;
    }
    proof {
        let keys = source.keys();
        assert(keys.take(k as int) =~= keys);
        assert(source@.restrict(keys.to_set()) =~= source@);
    }
    r
}

/// Whether one row passes every column of the filter.
fn passes(dataset: &SpectralDataset, filters: &FilterState, row: &Spectrum) -> (r: bool)
    ensures
        r == row_passes(dataset.index(), filters@, row@),
{
    let unique = dataset.unique_values();
    let metadata = row.metadata();
    let n = filters.len();
    let ghost fkeys = filters.keys();
    let ghost fsets = filters.values();
    let mut k: usize = 0;
    while k < n
        invariant
            k <= n,
            n == fkeys.len(),
            filters.wf(),
            fkeys == filters.keys(),
            fsets == filters.values(),
            unique@ == dataset.index(),
            metadata@ == row@.metadata,
            forall|a: int|
                0 <= a < k ==> column_passes(dataset.index(), #[trigger] fkeys[a], fsets[a], row@),
        decreases n - k,
    {
        let column = filters.key_at(k);
        let selected = filters.value_at(k);
        let mut ok = !selected.is_empty();
        if ok {
            let all = match unique.get(column.as_str()) {
                Some(all) => selected.same_as(all),
                None => false,
            };
            if !all {
                ok = match metadata.get(column.as_str()) {
                    Some(value) => selected.contains(value),
                    None => selected.contains(&MetadataValue::Null),
                };
            }
        }
        proof {
            lemma_entries_map_at(fkeys, fsets, k as int);
            assert(ok == column_passes(dataset.index(), fkeys[k as int], fsets[k as int], row@));
        }
        if !ok {
            proof {
                assert(filters@.contains_key(fkeys[k as int]));
            }
            return false;
        }
        k += 1;
    }
    proof {
        assert forall|c: Seq<char>| #[trigger] filters@.contains_key(c) implies column_passes(
            dataset.index(),
            c,
            filters@[c],
            row@,
        ) by {
            assert(fkeys.contains(c));
            let a = choose|a: int| 0 <= a < fkeys.len() && fkeys[a] == c;
            lemma_entries_map_at(fkeys, fsets, a);
        }
    }
    true
}

/// The indices of the rows that pass every constrained column, in the
/// order of the rows.
pub fn filtered_indices(dataset: &SpectralDataset, filters: &FilterState) -> (r: Vec<usize>)
    ensures
        r@ == visible_rows(dataset@, dataset.index(), filters@),
        forall|a: int, b: int| 0 <= a < b < r@.len() ==> (#[trigger] r@[a]) < (#[trigger] r@[b]),
        forall|i: usize|
            r@.contains(i) <==> (i < dataset@.len() && row_passes(
                dataset.index(),
                filters@,
                dataset@[i as int],
            )),
{
    let spectra = dataset.spectra();
    let mut r: Vec<usize> = Vec::new();
    let mut i: usize = 0;
    while i < spectra.len()
        invariant
            i <= spectra.len(),
            spectra@.map_values(|s: Spectrum| s@) == dataset@,
            r@ == visible_upto(dataset@, dataset.index(), filters@, i as int),
        decreases spectra.len() - i,
    {
        let row = &spectra[i];
        proof {
            assert(dataset@[i as int] == row@);
        }
        if passes(dataset, filters, row) {
            r.push(i);
        }
        i += 1;
    }
    proof {
        lemma_visible_upto(dataset@, dataset.index(), filters@, dataset@.len() as int);
    }
    r
}

} // verus!
