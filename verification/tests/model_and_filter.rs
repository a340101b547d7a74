use rusty_panda::data::filter::{filtered_indices, init_filter_state, FilterState};
use rusty_panda::data::model::{Metadata, SpectralDataset, Spectrum};
use rusty_panda::data::text_map::TextMap;
use rusty_panda::data::value::MetadataValue;
use rusty_panda::data::value_set::ValueSet;

fn bits(values: &[f64]) -> Vec<u64> {
    values.iter().map(|v| v.to_bits()).collect()
}

fn text(s: &str) -> MetadataValue {
    MetadataValue::String(s.to_string())
}

fn row(cells: Vec<(&str, MetadataValue)>) -> Spectrum {
    let mut metadata: Metadata = TextMap::new();
    for (name, value) in cells {
        metadata.insert(name.to_string(), value);
    }
    Spectrum::new(bits(&[1.0, 2.0]), bits(&[3.0, 4.0]), metadata).unwrap()
}

fn set_of(values: Vec<MetadataValue>) -> ValueSet {
    let mut set = ValueSet::new();
    for v in values {
        set.insert(v);
    }
    set
}

fn members(set: &ValueSet) -> Vec<MetadataValue> {
    (0..set.len()).map(|i| set.get(i).clone()).collect()
}

fn sample() -> SpectralDataset {
    SpectralDataset::from_spectra(vec![
        row(vec![("sample", text("A")), ("conc", MetadataValue::Integer(1))]),
        row(vec![("sample", text("B")), ("conc", MetadataValue::Integer(2))]),
        row(vec![("sample", text("A")), ("conc", MetadataValue::Null)]),
        row(vec![("conc", MetadataValue::Integer(1))]),
    ])
}

#[test]
fn a_row_needs_two_series_of_one_length() {
    assert!(Spectrum::new(bits(&[1.0, 2.0, 3.0]), bits(&[4.0, 5.0]), TextMap::new()).is_none());
    assert!(Spectrum::new(bits(&[]), bits(&[4.0]), TextMap::new()).is_none());
    let row = Spectrum::new(bits(&[1.0, 2.0]), bits(&[4.0, 5.0]), TextMap::new()).unwrap();
    assert_eq!(row.x(), &bits(&[1.0, 2.0]));
    assert_eq!(row.y(), &bits(&[4.0, 5.0]));
    assert_eq!(row.metadata().len(), 0);
    let empty = Spectrum::new(Vec::new(), Vec::new(), TextMap::new()).unwrap();
    assert_eq!(empty.x().len(), 0);
}

#[test]
fn every_row_of_a_dataset_has_series_of_one_length() {
    let dataset = sample();
    for spectrum in dataset.spectra() {
        assert_eq!(spectrum.x().len(), spectrum.y().len());
    }
}

#[test]
fn text_map_keeps_its_keys_in_order() {
    let mut map: TextMap<u64> = TextMap::new();
    map.insert("b".to_string(), 2);
    map.insert("a".to_string(), 1);
    map.insert("c".to_string(), 3);
    map.insert("b".to_string(), 20);
    assert_eq!(map.len(), 3);
    assert_eq!(map.key_at(0), "a");
    assert_eq!(map.key_at(1), "b");
    assert_eq!(map.key_at(2), "c");
    assert_eq!(*map.value_at(1), 20);
    assert_eq!(map.get("a"), Some(&1));
    assert_eq!(map.get("b"), Some(&20));
    assert_eq!(map.get("d"), None);
    assert!(map.contains_key("c"));
    assert!(!map.contains_key(""));
    assert_eq!(map.remove("a"), Some(1));
    assert_eq!(map.remove("a"), None);
    assert_eq!(map.len(), 2);
    assert_eq!(map.key_at(0), "b");
}

#[test]
fn value_set_keeps_each_value_once_and_in_order() {
    let mut set = ValueSet::new();
    assert!(set.is_empty());
    assert!(set.insert(text("B")));
    assert!(set.insert(MetadataValue::Integer(5)));
    assert!(set.insert(MetadataValue::Null));
    assert!(set.insert(text("A")));
    assert!(!set.insert(text("B")));
    assert_eq!(set.len(), 4);
    assert_eq!(
        members(&set),
        vec![MetadataValue::Null, MetadataValue::Integer(5), text("A"), text("B")]
    );
    assert!(set.contains(&text("A")));
    assert!(!set.contains(&text("C")));
    assert!(set.remove(&MetadataValue::Integer(5)));
    assert!(!set.remove(&MetadataValue::Integer(5)));
    assert_eq!(members(&set), vec![MetadataValue::Null, text("A"), text("B")]);
    let copy = set.clone();
    assert!(copy.same_as(&set));
    assert!(!copy.same_as(&set_of(vec![text("A"), text("B")])));
    assert!(!copy.same_as(&set_of(vec![MetadataValue::Null, text("A"), text("C")])));
}

#[test]
fn the_dataset_lists_its_columns_in_order() {
    let dataset = sample();
    assert_eq!(dataset.len(), 4);
    assert!(!dataset.is_empty());
    assert_eq!(dataset.column_names(), &vec!["conc".to_string(), "sample".to_string()]);
}

#[test]
fn the_dataset_lists_the_distinct_values_of_each_column() {
    let dataset = sample();
    let unique = dataset.unique_values();
    assert_eq!(unique.len(), 2);
    assert_eq!(
        members(unique.get("conc").unwrap()),
        vec![MetadataValue::Null, MetadataValue::Integer(1), MetadataValue::Integer(2)]
    );
    assert_eq!(members(unique.get("sample").unwrap()), vec![text("A"), text("B")]);
    assert!(unique.get("x").is_none());
}

#[test]
fn an_empty_dataset_has_no_columns() {
    let dataset = SpectralDataset::from_spectra(Vec::new());
    assert_eq!(dataset.len(), 0);
    assert!(dataset.is_empty());
    assert!(dataset.column_names().is_empty());
    assert_eq!(dataset.unique_values().len(), 0);
    let filters = init_filter_state(&dataset);
    assert_eq!(filters.len(), 0);
    assert_eq!(filtered_indices(&dataset, &filters), Vec::<usize>::new());
}

#[test]
fn the_initial_filter_selects_everything() {
    let dataset = sample();
    let filters = init_filter_state(&dataset);
    assert_eq!(filters.len(), 2);
    assert!(filters.get("conc").unwrap().same_as(dataset.unique_values().get("conc").unwrap()));
    assert!(filters.get("sample").unwrap().same_as(dataset.unique_values().get("sample").unwrap()));
    assert_eq!(filtered_indices(&dataset, &filters), vec![0, 1, 2, 3]);
}

#[test]
fn an_empty_filter_constrains_nothing() {
    let dataset = sample();
    let filters: FilterState = TextMap::new();
    assert_eq!(filtered_indices(&dataset, &filters), vec![0, 1, 2, 3]);
}

#[test]
fn a_selection_keeps_the_rows_with_a_selected_value() {
    let dataset = sample();
    let mut filters: FilterState = TextMap::new();
    filters.insert("sample".to_string(), set_of(vec![text("A")]));
    assert_eq!(filtered_indices(&dataset, &filters), vec![0, 2]);
    filters.insert("conc".to_string(), set_of(vec![MetadataValue::Integer(1)]));
    assert_eq!(filtered_indices(&dataset, &filters), vec![0]);
    filters.insert("conc".to_string(), set_of(vec![MetadataValue::Integer(2)]));
    assert_eq!(filtered_indices(&dataset, &filters), Vec::<usize>::new());
}

#[test]
fn a_row_without_the_column_counts_as_null() {
    let dataset = sample();
    let mut filters: FilterState = TextMap::new();
    filters.insert("sample".to_string(), set_of(vec![MetadataValue::Null]));
    assert_eq!(filtered_indices(&dataset, &filters), vec![3]);
    filters.insert("sample".to_string(), set_of(vec![MetadataValue::Null, text("B")]));
    assert_eq!(filtered_indices(&dataset, &filters), vec![1, 3]);
    filters.insert("sample".to_string(), set_of(vec![text("B")]));
    assert_eq!(filtered_indices(&dataset, &filters), vec![1]);
}

#[test]
fn selecting_all_values_of_a_column_is_like_leaving_it_out() {
    let dataset = sample();
    for column in ["conc", "sample"] {
        let mut with: FilterState = TextMap::new();
        with.insert("conc".to_string(), set_of(vec![MetadataValue::Integer(1)]));
        let mut without: FilterState = TextMap::new();
        without.insert("conc".to_string(), set_of(vec![MetadataValue::Integer(1)]));
        without.remove(column);
        with.insert(column.to_string(), dataset.unique_values().get(column).unwrap().clone());
        assert_eq!(filtered_indices(&dataset, &with), filtered_indices(&dataset, &without));
    }
    let mut full: FilterState = TextMap::new();
    full.insert("sample".to_string(), set_of(vec![text("A"), text("B")]));
    assert_eq!(filtered_indices(&dataset, &full), vec![0, 1, 2, 3]);
}

#[test]
fn a_selection_of_the_same_size_as_the_column_still_filters() {
    let dataset = sample();
    let mut filters: FilterState = TextMap::new();
    filters.insert("sample".to_string(), set_of(vec![text("A"), text("C")]));
    assert_eq!(filtered_indices(&dataset, &filters), vec![0, 2]);
}

#[test]
fn an_empty_selection_hides_every_row() {
    let dataset = sample();
    for column in ["conc", "sample", "no such column"] {
        let mut filters = init_filter_state(&dataset);
        filters.insert(column.to_string(), ValueSet::new());
        assert_eq!(filtered_indices(&dataset, &filters), Vec::<usize>::new());
    }
}

#[test]
fn a_selection_for_an_unknown_column_is_tested_against_null() {
    let dataset = sample();
    let mut filters: FilterState = TextMap::new();
    filters.insert("other".to_string(), set_of(vec![text("A")]));
    assert_eq!(filtered_indices(&dataset, &filters), Vec::<usize>::new());
    filters.insert("other".to_string(), set_of(vec![MetadataValue::Null]));
    assert_eq!(filtered_indices(&dataset, &filters), vec![0, 1, 2, 3]);
}
