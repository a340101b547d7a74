use rusty_panda::data::csv_loader::{
    csv_number_texts, dataset_from_csv, find_header, guess_metadata_type, load_csv,
    parse_semicolon_floats, NumberTable,
};
use rusty_panda::data::failure::LoadError;
use rusty_panda::data::loader::number_texts;
use rusty_panda::data::text_map::TextMap;
use rusty_panda::data::value::MetadataValue;
use rusty_panda::data::value_set::ValueSet;

fn bits(values: &[f64]) -> Vec<u64> {
    values.iter().map(|v| v.to_bits()).collect()
}

fn text(s: &str) -> MetadataValue {
    MetadataValue::String(s.to_string())
}

fn members(set: &ValueSet) -> Vec<MetadataValue> {
    (0..set.len()).map(|i| set.get(i).clone()).collect()
}

fn strings(items: &[&str]) -> Vec<String> {
    items.iter().map(|s| s.to_string()).collect()
}

fn numbers_of(texts: &[String]) -> NumberTable {
    let mut table: NumberTable = TextMap::new();
    for t in texts {
        if let Ok(number) = t.parse::<f64>() {
            table.insert(t.clone(), number.to_bits());
        }
    }
    table
}

fn load(source: &str) -> Result<rusty_panda::data::model::SpectralDataset, LoadError> {
    let texts = number_texts("data.csv", source.as_bytes());
    load_csv(source.as_bytes(), &numbers_of(&texts))
}

#[test]
fn series_of_three_and_two_numbers_fail_with_their_lengths() {
    let error = load("x,y\n1;2;3,4;5\n").unwrap_err();
    assert_eq!(error, LoadError::ShapeMismatch { row: 0, x_len: 3, y_len: 2 });
    let later = load("x,y\n1,2\n1;2;3,4;5\n").unwrap_err();
    assert_eq!(later, LoadError::ShapeMismatch { row: 1, x_len: 3, y_len: 2 });
}

#[test]
fn a_file_of_delimited_text_gives_its_rows() {
    let source = "sample,x,y,conc\nA,4000.0;3999.0 ; 3998.0,0.12;0.14;0.11,1.5\nB,1;2,3;4,2\n";
    let dataset = load(source).unwrap();
    assert_eq!(dataset.len(), 2);
    assert_eq!(dataset.column_names(), &strings(&["conc", "sample"]));
    assert_eq!(dataset.spectra()[0].x(), &bits(&[4000.0, 3999.0, 3998.0]));
    assert_eq!(dataset.spectra()[0].y(), &bits(&[0.12, 0.14, 0.11]));
    assert_eq!(dataset.spectra()[1].x(), &bits(&[1.0, 2.0]));
    assert_eq!(dataset.spectra()[0].metadata().get("sample"), Some(&text("A")));
    assert_eq!(
        dataset.spectra()[0].metadata().get("conc"),
        Some(&MetadataValue::Float(1.5f64.to_bits()))
    );
    assert_eq!(dataset.spectra()[1].metadata().get("conc"), Some(&MetadataValue::Integer(2)));
    assert_eq!(
        members(dataset.unique_values().get("conc").unwrap()),
        vec![MetadataValue::Integer(2), MetadataValue::Float(1.5f64.to_bits())]
    );
    for spectrum in dataset.spectra() {
        assert_eq!(spectrum.x().len(), spectrum.y().len());
    }
}

#[test]
fn a_header_row_alone_gives_an_empty_dataset() {
    let dataset = load("x,y,s\n").unwrap();
    assert!(dataset.is_empty());
}

#[test]
fn a_missing_series_column_fails_before_any_row() {
    assert_eq!(
        load("a,y\n1;2;3,4;5\n").unwrap_err(),
        LoadError::MissingRequiredColumn("x".to_string())
    );
    assert_eq!(load("x,b\n1,1\n").unwrap_err(), LoadError::MissingRequiredColumn("y".to_string()));
    assert_eq!(load("X,Y\n1,1\n").unwrap_err(), LoadError::MissingRequiredColumn("x".to_string()));
    assert_eq!(load("").unwrap_err(), LoadError::MissingRequiredColumn("x".to_string()));
}

#[test]
fn a_token_that_is_no_number_is_named() {
    assert_eq!(
        load("x,y\n1; two;3,4;5;6\n").unwrap_err(),
        LoadError::MalformedValue {
            row: 0,
            column: "x".to_string(),
            index: 1,
            raw_text: " two".to_string(),
        }
    );
    assert_eq!(
        load("x,y\n1,2\n1;2,3;\n").unwrap_err(),
        LoadError::MalformedValue {
            row: 1,
            column: "y".to_string(),
            index: 1,
            raw_text: String::new(),
        }
    );
    assert_eq!(
        load("x,y\n,1\n").unwrap_err(),
        LoadError::MalformedValue {
            row: 0,
            column: "x".to_string(),
            index: 0,
            raw_text: String::new(),
        }
    );
}

#[test]
fn a_record_that_the_reader_refuses_fails_the_load() {
    let source = "x,y,s\n1,2,A\n1,2\n";
    let error = load(source).unwrap_err();
    let expected = csv::Reader::from_reader(source.as_bytes())
        .records()
        .nth(1)
        .unwrap()
        .unwrap_err()
        .to_string();
    assert_eq!(error, LoadError::ParseFailure(expected));
}

#[test]
fn an_earlier_failure_wins_over_a_later_one() {
    let error = load("x,y,s\n1;2,3,A\n1,2\n").unwrap_err();
    assert_eq!(error, LoadError::ShapeMismatch { row: 0, x_len: 2, y_len: 1 });
}

#[test]
fn a_header_row_that_is_no_text_fails_the_load() {
    let bytes: &[u8] = b"x,\xff\n1,2\n";
    assert!(matches!(load_csv(bytes, &TextMap::new()), Err(LoadError::ParseFailure(_))));
    assert!(number_texts("data.csv", bytes).is_empty());
}

#[test]
fn quoted_fields_are_read_by_the_reader() {
    let dataset = load("x,y,note\n\"1;2\",\"3;4\",\"a, b\"\n").unwrap();
    assert_eq!(dataset.spectra()[0].x(), &bits(&[1.0, 2.0]));
    assert_eq!(dataset.spectra()[0].metadata().get("note"), Some(&text("a, b")));
}

#[test]
fn the_type_of_a_cell_is_guessed_in_order() {
    let texts = strings(&["1.5", "1e3", "inf", "NaN", "true", "abc", " 7", "0x1F", ""]);
    let numbers = numbers_of(&texts);
    assert_eq!(guess_metadata_type("", &numbers), MetadataValue::Null);
    assert_eq!(guess_metadata_type("42", &numbers), MetadataValue::Integer(42));
    assert_eq!(guess_metadata_type("-42", &numbers), MetadataValue::Integer(-42));
    assert_eq!(guess_metadata_type("+7", &numbers), MetadataValue::Integer(7));
    assert_eq!(guess_metadata_type("1.5", &numbers), MetadataValue::Float(1.5f64.to_bits()));
    assert_eq!(guess_metadata_type("1e3", &numbers), MetadataValue::Float(1000.0f64.to_bits()));
    assert_eq!(guess_metadata_type("inf", &numbers), MetadataValue::Float(f64::INFINITY.to_bits()));
    assert_eq!(guess_metadata_type("NaN", &numbers), MetadataValue::Float(f64::NAN.to_bits()));
    assert_eq!(guess_metadata_type("true", &numbers), MetadataValue::Bool(true));
    assert_eq!(guess_metadata_type("false", &numbers), MetadataValue::Bool(false));
    assert_eq!(guess_metadata_type("True", &numbers), text("True"));
    assert_eq!(guess_metadata_type("abc", &numbers), text("abc"));
    assert_eq!(guess_metadata_type(" 7", &numbers), text(" 7"));
    assert_eq!(guess_metadata_type("0x1F", &numbers), text("0x1F"));
}

#[test]
fn an_integer_too_large_for_64_bits_is_a_double() {
    let texts = strings(&["9223372036854775808"]);
    let numbers = numbers_of(&texts);
    assert_eq!(
        guess_metadata_type("9223372036854775808", &numbers),
        MetadataValue::Float(9223372036854775808.0f64.to_bits())
    );
}

#[test]
fn a_series_field_is_cut_at_semicolons() {
    let texts = strings(&["1", "2.5", "-3e2"]);
    let numbers = numbers_of(&texts);
    assert_eq!(
        parse_semicolon_floats("1; 2.5 ;-3e2", 0, "x", &numbers),
        Ok(bits(&[1.0, 2.5, -300.0]))
    );
    assert_eq!(parse_semicolon_floats("1", 0, "x", &numbers), Ok(bits(&[1.0])));
    assert_eq!(
        parse_semicolon_floats("1;;2.5", 3, "y", &numbers),
        Err(LoadError::MalformedValue {
            row: 3,
            column: "y".to_string(),
            index: 1,
            raw_text: String::new(),
        })
    );
    assert_eq!(
        parse_semicolon_floats("4", 3, "y", &numbers),
        Err(LoadError::MalformedValue {
            row: 3,
            column: "y".to_string(),
            index: 0,
            raw_text: "4".to_string(),
        })
    );
}

#[test]
fn find_header_gives_the_first_place_of_a_name() {
    let headers = strings(&["a", "x", "y", "x"]);
    assert_eq!(find_header(&headers, "x"), Some(1));
    assert_eq!(find_header(&headers, "y"), Some(2));
    assert_eq!(find_header(&headers, "X"), None);
    assert_eq!(find_header(&Vec::new(), "x"), None);
}

#[test]
fn the_texts_to_read_are_the_tokens_and_the_cells() {
    let headers = strings(&["s", "x", "y"]);
    let records = vec![Ok(strings(&["A", "1; 2", "3"])), Err("bad".to_string()), Ok(strings(&["1.5", "", "4;5"]))];
    let mut texts = csv_number_texts(&headers, &records);
    texts.sort();
    texts.dedup();
    assert_eq!(texts, strings(&["", "1", "1.5", "2", "3", "4", "5", "A"]));
    assert!(csv_number_texts(&strings(&["s", "y"]), &records).is_empty());
}

#[test]
fn dataset_from_csv_reads_a_table() {
    let headers = strings(&["x", "y", "k"]);
    let records = vec![Ok(strings(&["1;2", "3;4", "7"])), Ok(strings(&["5", "6", ""]))];
    let numbers = numbers_of(&csv_number_texts(&headers, &records));
    let dataset = dataset_from_csv(&headers, &records, &numbers).unwrap();
    assert_eq!(dataset.len(), 2);
    assert_eq!(dataset.spectra()[0].metadata().get("k"), Some(&MetadataValue::Integer(7)));
    assert_eq!(dataset.spectra()[1].metadata().get("k"), Some(&MetadataValue::Null));
    assert_eq!(dataset.spectra()[1].x(), &bits(&[5.0]));
}

#[test]
fn a_record_error_in_the_table_fails_the_load() {
    let headers = strings(&["x", "y"]);
    let records = vec![Ok(strings(&["1", "2"])), Err("broken".to_string())];
    let numbers = numbers_of(&csv_number_texts(&headers, &records));
    assert_eq!(
        dataset_from_csv(&headers, &records, &numbers).unwrap_err(),
        LoadError::ParseFailure("broken".to_string())
    );
}

#[test]
fn a_short_record_reads_its_missing_series_as_empty() {
    let headers = strings(&["k", "x", "y"]);
    let records = vec![Ok(strings(&["A"]))];
    let numbers = numbers_of(&csv_number_texts(&headers, &records));
    assert_eq!(
        dataset_from_csv(&headers, &records, &numbers).unwrap_err(),
        LoadError::MalformedValue {
            row: 0,
            column: "x".to_string(),
            index: 0,
            raw_text: String::new(),
        }
    );
}

#[test]
fn a_text_without_entry_in_the_table_is_no_number() {
    let headers = strings(&["x", "y"]);
    let records = vec![Ok(strings(&["1", "2"]))];
    let empty: NumberTable = TextMap::new();
    assert_eq!(
        dataset_from_csv(&headers, &records, &empty).unwrap_err(),
        LoadError::MalformedValue {
            row: 0,
            column: "x".to_string(),
            index: 0,
            raw_text: "1".to_string(),
        }
    );
}
