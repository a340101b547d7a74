//! The state of a viewing session: the dataset, the filter with the rows
//! it shows, and the column that gives the colours.

use crate::color::{assignment, fallback_gray, Color, ColorMap};
use crate::data::filter::{
    column_passes, filtered_indices, init_filter_state, row_passes, visible_rows, visible_upto,
    FilterState,
};
use crate::data::model::{is_index_of, SpectralDataset, SpectrumModel};
use crate::data::text_map::TextMap;
use crate::data::value::{MetadataValue, Scalar};
use crate::data::value_set::ValueSet;
use vstd::prelude::*;

verus! {

/// The state of a session, apart from how it is shown.
#[derive(Debug)]
pub struct AppState {
    /// The loaded dataset; none until a file is loaded.
    pub dataset: Option<SpectralDataset>,
    /// The selection made for each column.
    pub filters: FilterState,
    /// The rows that pass the filter.
    pub visible_indices: Vec<usize>,
    /// The column whose values give the colours.
    pub color_column: Option<String>,
    /// The colours of that column's values.
    pub color_map: Option<ColorMap>,
    /// A message to show, if any.
    pub status_message: Option<String>,
    /// Whether a file is being loaded.
    pub loading: bool,
}

/// The distinct values of the chosen column, if a column is chosen and the
/// dataset has it.
pub open spec fn chosen_values(index: Map<Seq<char>, Seq<Scalar>>, column: Option<String>) -> Option<
    Seq<Scalar>,
> {
    match column {
        Some(c) => if index.contains_key(c@) {
            Some(index[c@])
        } else {
            None
        },
        None => None,
    }
}

/// Whether a colour map is the one for the chosen column of a dataset: no
/// map where no column of the dataset is chosen, else the column's values
/// with the colours of the palette, and gray for any other value.
pub open spec fn is_map_for(
    map: Option<ColorMap>,
    index: Map<Seq<char>, Seq<Scalar>>,
    column: Option<String>,
    palette: Seq<Color>,
) -> bool {
    match chosen_values(index, column) {
        None => map is None,
        Some(values) => map matches Some(m) && m.wf() && m.column_name() == column->0@
            && m.entries() == assignment(values, palette) && m.fallback() == fallback_gray(),
    }
}

/// With every value of every column selected, every row passes.
pub proof fn lemma_full_filter_shows_all(rows: Seq<SpectrumModel>, index: Map<Seq<char>, Seq<Scalar>>, n: int)
    requires
        is_index_of(index, rows),
        0 <= n <= rows.len(),
    ensures
        visible_upto(rows, index, index, n) == Seq::new(n as nat, |i: int| i as usize),
    decreases n,
{
    if n > 0 {
        lemma_full_filter_shows_all(rows, index, n - 1);
        let row = rows[n - 1];
        assert forall|c: Seq<char>| #[trigger] index.contains_key(c) implies column_passes(
            index,
            c,
            index[c],
            row,
        ) by {}
        assert(row_passes(index, index, row));
        assert(visible_upto(rows, index, index, n) =~= Seq::new(n as nat, |i: int| i as usize));
    } else {
        assert(visible_upto(rows, index, index, n) =~= Seq::new(n as nat, |i: int| i as usize));
    }
}

/// The colour map for a column of a dataset.
fn color_map_for(dataset: &SpectralDataset, column: &Option<String>, palette: &Vec<Color>) -> (r:
    Option<ColorMap>)
    ensures
        is_map_for(r, dataset.index(), *column, palette@),
{
    match column {
        Some(c) => match dataset.unique_values().get(c.as_str()) {
            Some(values) => Some(ColorMap::new(c.as_str(), values, palette)),
            None => None,
        },
        None => None,
    }
}

impl Default for AppState {
    fn default() -> (r: AppState)
        ensures
            r.dataset is None,
            r.filters@ == Map::<Seq<char>, Seq<Scalar>>::empty(),
            r.visible_indices@ == Seq::<usize>::empty(),
            r.color_column is None,
            r.color_map is None,
            r.status_message is None,
            !r.loading,
    {
        AppState {
            dataset: None,
            filters: TextMap::new(),
            visible_indices: Vec::new(),
            color_column: None,
            color_map: None,
            status_message: None,
            loading: false,
        }
    }
}

impl AppState {
    /// The number of colours that the palette for `column` needs: the
    /// number of the column's distinct values, none where the dataset has
    /// no such column.
    pub fn palette_size(dataset: &SpectralDataset, column: &str) -> (r: usize)
        ensures
            r == (if dataset.index().contains_key(column@) {
                dataset.index()[column@].len()
            } else {
                0
            }),
    {
        match dataset.unique_values().get(column) {
            Some(values) => values.len(),
            None => 0,
        }
    }

    /// Takes in a newly loaded dataset: every value of every column is
    /// selected and every row visible, the first column gives the colours,
    /// and no message and no loading are left over.
    pub fn set_dataset(&mut self, dataset: SpectralDataset, palette: &Vec<Color>)
        ensures
            final(self).dataset == Some(dataset),
            final(self).filters@ == dataset.index(),
            final(self).visible_indices@ == Seq::new(dataset@.len(), |i: int| i as usize),
            final(self).visible_indices@ == visible_rows(
                dataset@,
                dataset.index(),
                final(self).filters@,
            ),
            dataset.columns().len() == 0 ==> final(self).color_column is None,
            dataset.columns().len() > 0 ==> final(self).color_column is Some
                && final(self).color_column->0@ == dataset.columns()[0],
            is_map_for(
                final(self).color_map,
                dataset.index(),
                final(self).color_column,
                palette@,
            ),
            final(self).status_message is None,
            !final(self).loading,
    {
        self.filters = init_filter_state(&dataset);
        let n = dataset.len();
        let mut visible: Vec<usize> = Vec::new();
        let mut i: usize = 0;
        while i < n
            invariant
                i <= n,
                visible@ == Seq::new(i as nat, |k: int| k as usize),
            decreases n - i,
        {
            visible.push(i);
            proof {
                assert(visible@ =~= Seq::new((i + 1) as nat, |k: int| k as usize));
            }
            i += 1;
        }
        self.visible_indices = visible;
        let names = dataset.column_names();
        self.color_column = if names.len() > 0 {
            Some(names[0].clone())
        } else {
            None
        };
        self.color_map = color_map_for(&dataset, &self.color_column, palette);
        proof {
            lemma_full_filter_shows_all(dataset@, dataset.index(), dataset@.len() as int);
        }
        self.dataset = Some(dataset);
        self.status_message = None;
        self.loading = false;
    }

    /// Builds the colour map anew from the chosen column.
    pub fn rebuild_color_map(&mut self, dataset: &SpectralDataset, palette: &Vec<Color>)
        ensures
            is_map_for(
                final(self).color_map,
                dataset.index(),
                old(self).color_column,
                palette@,
            ),
            final(self).color_column == old(self).color_column,
            final(self).filters == old(self).filters,
            final(self).visible_indices == old(self).visible_indices,
            final(self).dataset == old(self).dataset,
            final(self).status_message == old(self).status_message,
            final(self).loading == old(self).loading,
    {
        self.color_map = color_map_for(dataset, &self.color_column, palette);
    }

    /// Works out the visible rows anew; without a dataset nothing
    /// changes.
    pub fn refilter(&mut self)
        ensures
            final(self).dataset == old(self).dataset,
            final(self).filters == old(self).filters,
            final(self).color_column == old(self).color_column,
            final(self).color_map == old(self).color_map,
            final(self).status_message == old(self).status_message,
            final(self).loading == old(self).loading,
            match old(self).dataset {
                Some(d) => final(self).visible_indices@ == visible_rows(
                    d@,
                    d.index(),
                    old(self).filters@,
                ),
                None => final(self).visible_indices == old(self).visible_indices,
            },
    {
        if let Some(dataset) = &self.dataset {
            self.visible_indices = filtered_indices(dataset, &self.filters);
        }
    }

    /// Chooses the column that gives the colours and builds the colour map
    /// for it; without a dataset the map stays as it is.
    pub fn set_color_column(&mut self, col: String, palette: &Vec<Color>)
        ensures
            final(self).color_column == Some(col),
            final(self).dataset == old(self).dataset,
            final(self).filters == old(self).filters,
            final(self).visible_indices == old(self).visible_indices,
            final(self).status_message == old(self).status_message,
            final(self).loading == old(self).loading,
            match old(self).dataset {
                Some(d) => is_map_for(final(self).color_map, d.index(), Some(col), palette@),
                None => final(self).color_map == old(self).color_map,
            },
    {
        self.color_column = Some(col);
        if let Some(dataset) = &self.dataset {
            self.color_map = color_map_for(dataset, &self.color_column, palette);
        }
    }

    /// Turns one value of a column's selection on or off, and works out
    /// the visible rows anew. A column without a selection starts from the
    /// empty one.
    pub fn toggle_filter_value(&mut self, column: &str, value: &MetadataValue)
        ensures
            final(self).dataset == old(self).dataset,
            final(self).color_column == old(self).color_column,
            final(self).color_map == old(self).color_map,
            final(self).status_message == old(self).status_message,
            final(self).loading == old(self).loading,
            final(self).filters@.dom() == old(self).filters@.dom().insert(column@),
            forall|c: Seq<char>|
                c != column@ && old(self).filters@.contains_key(c) ==> final(self).filters@[c]
                    == old(self).filters@[c],
            final(self).filters@[column@].to_set() == toggled(
                selection_of(old(self).filters@, column@),
                value@,
            ),
            match old(self).dataset {
                Some(d) => final(self).visible_indices@ == visible_rows(
                    d@,
                    d.index(),
                    final(self).filters@,
                ),
                None => final(self).visible_indices == old(self).visible_indices,
            },
    {
        let mut selected = match self.filters.remove(column) {
            Some(selected) => selected,
            None => ValueSet::new(),
        };
        let ghost before = selected@;
        if selected.contains(value) {
            let _ = selected.remove(value);
        } else {
            let _ = selected.insert(value.clone());
        }
        self.filters.insert(column.to_owned(), selected);
        proof {
            assert(self.filters@.dom() =~= old(self).filters@.dom().insert(column@));
            assert(before.to_set() =~= selection_of(old(self).filters@, column@));
        }
        self.refilter();
    }

    /// Selects every value of a column, and works out the visible rows
    /// anew; nothing changes without a dataset or where the dataset has no
    /// such column.
    pub fn select_all(&mut self, column: &str)
        ensures
            final(self).dataset == old(self).dataset,
            final(self).color_column == old(self).color_column,
            final(self).color_map == old(self).color_map,
            final(self).status_message == old(self).status_message,
            final(self).loading == old(self).loading,
            match old(self).dataset {
                Some(d) => if d.index().contains_key(column@) {
                    &&& final(self).filters@ == old(self).filters@.insert(
                        column@,
                        d.index()[column@],
                    )
                    &&& final(self).visible_indices@ == visible_rows(
                        d@,
                        d.index(),
                        final(self).filters@,
                    )
                } else {
                    &&& final(self).filters == old(self).filters
                    &&& final(self).visible_indices == old(self).visible_indices
                },
                None => final(self).filters == old(self).filters && final(self).visible_indices
                    == old(self).visible_indices,
            },
    {
        if let Some(dataset) = &self.dataset {
            if let Some(all) = dataset.unique_values().get(column) {
                self.filters.insert(column.to_owned(), all.clone());
                self.visible_indices = filtered_indices(dataset, &self.filters);
            }
        }
    }

    /// Selects no value of a column, and works out the visible rows anew:
    /// with a dataset, none is visible.
    pub fn select_none(&mut self, column: &str)
        ensures
            final(self).dataset == old(self).dataset,
            final(self).color_column == old(self).color_column,
            final(self).color_map == old(self).color_map,
            final(self).status_message == old(self).status_message,
            final(self).loading == old(self).loading,
            final(self).filters@ == old(self).filters@.insert(column@, Seq::<Scalar>::empty()),
            match old(self).dataset {
                Some(d) => final(self).visible_indices@ == visible_rows(
                    d@,
                    d.index(),
                    final(self).filters@,
                ) && final(self).visible_indices@.len() == 0,
                None => final(self).visible_indices == old(self).visible_indices,
            },
    {
        self.filters.insert(column.to_owned(), ValueSet::new());
        proof {
            if self.dataset is Some {
                let d = self.dataset->0;
                crate::data::filter::lemma_empty_selection_hides_all(
                    d@,
                    d.index(),
                    self.filters@,
                    column@,
                );
            }
        }
        self.refilter();
    }
}

/// The values selected for a column, as a set; none where the column has
/// no selection.
pub open spec fn selection_of(filters: Map<Seq<char>, Seq<Scalar>>, column: Seq<char>) -> Set<Scalar> {
    if filters.contains_key(column) {
        filters[column].to_set()
    } else {
        Set::empty()
    }
}

/// A selection with one value turned: taken out where it was in, put in
/// where it was not.
pub open spec fn toggled(selection: Set<Scalar>, value: Scalar) -> Set<Scalar> {
    if selection.contains(value) {
        selection.remove(value)
    } else {
        selection.insert(value)
    }
}

} // verus!
