use rusty_panda::color::{Color, ColorMap};
use rusty_panda::data::model::{Metadata, SpectralDataset, Spectrum};
use rusty_panda::data::text_map::TextMap;
use rusty_panda::data::value::MetadataValue;
use rusty_panda::data::value_set::ValueSet;
use rusty_panda::state::AppState;

const GRAY: Color = Color { r: 160, g: 160, b: 160, a: 255 };

fn opaque(r: u8, g: u8, b: u8) -> Color {
    Color { r, g, b, a: 255 }
}

fn text(s: &str) -> MetadataValue {
    MetadataValue::String(s.to_string())
}

fn set_of(values: Vec<MetadataValue>) -> ValueSet {
    let mut set = ValueSet::new();
    for v in values {
        set.insert(v);
    }
    set
}

fn members(set: &ValueSet) -> Vec<MetadataValue> {
    (0..set.len()).map(|i| set.get(i).clone()).collect()
}

fn row(cells: Vec<(&str, MetadataValue)>) -> Spectrum {
    let mut metadata: Metadata = TextMap::new();
    for (name, value) in cells {
        metadata.insert(name.to_string(), value);
    }
    Spectrum::new(vec![1, 2], vec![3, 4], metadata).unwrap()
}

fn sample() -> SpectralDataset {
    SpectralDataset::from_spectra(vec![
        row(vec![("sample", text("A")), ("operator", text("Bob"))]),
        row(vec![("sample", text("B")), ("operator", text("Alice"))]),
        row(vec![("sample", text("C")), ("operator", text("Bob"))]),
    ])
}

fn palette(n: usize) -> Vec<Color> {
    (0..n).map(|i| opaque(i as u8, 10, 20)).collect()
}

#[test]
fn each_value_gets_the_colour_at_its_place() {
    let values = set_of(vec![text("B"), MetadataValue::Null, text("A")]);
    let colors = vec![opaque(1, 0, 0), opaque(0, 1, 0), opaque(0, 0, 1)];
    let map = ColorMap::new("sample", &values, &colors);
    assert_eq!(map.column(), "sample");
    assert_eq!(map.color_for(&MetadataValue::Null), opaque(1, 0, 0));
    assert_eq!(map.color_for(&text("A")), opaque(0, 1, 0));
    assert_eq!(map.color_for(&text("B")), opaque(0, 0, 1));
}

#[test]
fn a_value_that_is_not_in_the_map_gets_the_gray_fallback() {
    let values = set_of(vec![text("A")]);
    let map = ColorMap::new("sample", &values, &vec![opaque(9, 9, 9)]);
    assert_eq!(map.color_for(&text("B")), GRAY);
    assert_eq!(map.color_for(&MetadataValue::Null), GRAY);
    assert_eq!(map.color_for(&MetadataValue::Date("A".to_string())), GRAY);
    assert_eq!(map.color_for(&text("A")), opaque(9, 9, 9));
}

#[test]
fn no_values_give_an_empty_map() {
    let map = ColorMap::new("sample", &ValueSet::new(), &Vec::new());
    assert!(map.legend_entries().is_empty());
    assert_eq!(map.color_for(&text("A")), GRAY);
    let still_empty = ColorMap::new("sample", &ValueSet::new(), &vec![opaque(1, 2, 3)]);
    assert!(still_empty.legend_entries().is_empty());
}

#[test]
fn a_short_palette_leaves_the_last_values_without_entry() {
    let values = set_of(vec![text("A"), text("B"), text("C")]);
    let map = ColorMap::new("sample", &values, &vec![opaque(1, 1, 1), opaque(2, 2, 2)]);
    assert_eq!(map.legend_entries().len(), 2);
    assert_eq!(map.color_for(&text("B")), opaque(2, 2, 2));
    assert_eq!(map.color_for(&text("C")), GRAY);
}

#[test]
fn the_legend_lists_the_values_in_order() {
    let values = set_of(vec![MetadataValue::Integer(2), MetadataValue::Integer(1)]);
    let map = ColorMap::new("n", &values, &vec![opaque(1, 1, 1), opaque(2, 2, 2)]);
    assert_eq!(
        map.legend_entries(),
        vec![
            (MetadataValue::Integer(1), opaque(1, 1, 1)),
            (MetadataValue::Integer(2), opaque(2, 2, 2)),
        ]
    );
}

#[test]
fn building_a_map_twice_gives_the_same_colours() {
    let colors = vec![opaque(5, 0, 0), opaque(0, 5, 0), opaque(0, 0, 5)];
    let first = ColorMap::new("c", &set_of(vec![text("A"), text("B"), text("C")]), &colors);
    let second = ColorMap::new("c", &set_of(vec![text("C"), text("A"), text("B"), text("A")]), &colors);
    assert_eq!(first.legend_entries(), second.legend_entries());
    for v in [text("A"), text("B"), text("C"), text("D")] {
        assert_eq!(first.color_for(&v), second.color_for(&v));
    }
}

#[test]
fn a_new_state_is_empty() {
    let state = AppState::default();
    assert!(state.dataset.is_none());
    assert_eq!(state.filters.len(), 0);
    assert!(state.visible_indices.is_empty());
    assert!(state.color_column.is_none());
    assert!(state.color_map.is_none());
    assert!(state.status_message.is_none());
    assert!(!state.loading);
}

#[test]
fn set_dataset_shows_everything_and_colours_by_the_first_column() {
    let mut state = AppState::default();
    state.status_message = Some("old".to_string());
    state.loading = true;
    let dataset = sample();
    assert_eq!(AppState::palette_size(&dataset, "operator"), 2);
    assert_eq!(AppState::palette_size(&dataset, "sample"), 3);
    assert_eq!(AppState::palette_size(&dataset, "none"), 0);
    state.set_dataset(dataset, &palette(2));
    assert_eq!(state.visible_indices, vec![0, 1, 2]);
    assert_eq!(state.color_column, Some("operator".to_string()));
    assert_eq!(state.filters.len(), 2);
    assert!(state.status_message.is_none());
    assert!(!state.loading);
    let map = state.color_map.as_ref().unwrap();
    assert_eq!(map.column(), "operator");
    assert_eq!(map.color_for(&text("Alice")), opaque(0, 10, 20));
    assert_eq!(map.color_for(&text("Bob")), opaque(1, 10, 20));
    assert_eq!(state.dataset.as_ref().unwrap().len(), 3);
}

#[test]
fn set_dataset_without_columns_leaves_no_colour_map() {
    let mut state = AppState::default();
    state.set_dataset(SpectralDataset::from_spectra(vec![row(Vec::new())]), &palette(3));
    assert_eq!(state.visible_indices, vec![0]);
    assert!(state.color_column.is_none());
    assert!(state.color_map.is_none());
}

#[test]
fn set_color_column_rebuilds_the_map() {
    let mut state = AppState::default();
    state.set_dataset(sample(), &palette(2));
    state.set_color_column("sample".to_string(), &palette(3));
    let map = state.color_map.as_ref().unwrap();
    assert_eq!(map.column(), "sample");
    assert_eq!(map.color_for(&text("C")), opaque(2, 10, 20));
    state.set_color_column("missing".to_string(), &palette(3));
    assert!(state.color_map.is_none());
    assert_eq!(state.color_column, Some("missing".to_string()));
}

#[test]
fn set_color_column_without_a_dataset_keeps_the_map() {
    let mut state = AppState::default();
    state.set_color_column("sample".to_string(), &palette(3));
    assert_eq!(state.color_column, Some("sample".to_string()));
    assert!(state.color_map.is_none());
}

#[test]
fn rebuild_color_map_follows_the_chosen_column() {
    let mut state = AppState::default();
    let dataset = sample();
    state.color_column = Some("sample".to_string());
    state.rebuild_color_map(&dataset, &palette(3));
    assert_eq!(state.color_map.as_ref().unwrap().color_for(&text("B")), opaque(1, 10, 20));
    state.color_column = None;
    state.rebuild_color_map(&dataset, &palette(3));
    assert!(state.color_map.is_none());
}

#[test]
fn toggling_a_value_turns_it_off_and_on() {
    let mut state = AppState::default();
    state.set_dataset(sample(), &palette(2));
    state.toggle_filter_value("sample", &text("B"));
    assert_eq!(members(state.filters.get("sample").unwrap()), vec![text("A"), text("C")]);
    assert_eq!(state.visible_indices, vec![0, 2]);
    state.toggle_filter_value("sample", &text("B"));
    assert_eq!(members(state.filters.get("sample").unwrap()), vec![text("A"), text("B"), text("C")]);
    assert_eq!(state.visible_indices, vec![0, 1, 2]);
}

#[test]
fn toggling_in_a_column_without_selection_starts_from_nothing() {
    let mut state = AppState::default();
    state.set_dataset(sample(), &palette(2));
    state.toggle_filter_value("other", &MetadataValue::Null);
    assert_eq!(members(state.filters.get("other").unwrap()), vec![MetadataValue::Null]);
    assert_eq!(state.visible_indices, vec![0, 1, 2]);
    state.toggle_filter_value("other", &MetadataValue::Null);
    assert!(state.filters.get("other").unwrap().is_empty());
    assert!(state.visible_indices.is_empty());
}

#[test]
fn select_none_hides_everything_and_select_all_shows_it_again() {
    let mut state = AppState::default();
    state.set_dataset(sample(), &palette(2));
    state.select_none("operator");
    assert!(state.visible_indices.is_empty());
    assert!(state.filters.get("operator").unwrap().is_empty());
    state.select_all("operator");
    assert_eq!(state.visible_indices, vec![0, 1, 2]);
    assert_eq!(state.filters.get("operator").unwrap().len(), 2);
    state.select_all("no such column");
    assert!(state.filters.get("no such column").is_none());
    assert_eq!(state.visible_indices, vec![0, 1, 2]);
}

#[test]
fn without_a_dataset_the_visible_rows_stay() {
    let mut state = AppState::default();
    state.visible_indices = vec![4, 5];
    state.refilter();
    assert_eq!(state.visible_indices, vec![4, 5]);
    state.select_none("a");
    assert_eq!(state.visible_indices, vec![4, 5]);
    assert!(state.filters.get("a").unwrap().is_empty());
    state.select_all("a");
    assert!(state.filters.get("a").unwrap().is_empty());
}

#[test]
fn refilter_follows_a_filter_that_was_changed_in_place() {
    let mut state = AppState::default();
    state.set_dataset(sample(), &palette(2));
    state.filters.insert("sample".to_string(), set_of(vec![text("C")]));
    assert_eq!(state.visible_indices, vec![0, 1, 2]);
    state.refilter();
    assert_eq!(state.visible_indices, vec![2]);
}
