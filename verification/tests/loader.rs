use rusty_panda::data::csv_loader::NumberTable;
use rusty_panda::data::failure::LoadError;
use rusty_panda::data::loader::{
    format_for_extension, load_file, lower_extension, number_texts, FileFormat,
};
use rusty_panda::data::text_map::TextMap;

fn numbers_of(texts: &[String]) -> NumberTable {
    let mut table: NumberTable = TextMap::new();
    for t in texts {
        if let Ok(number) = t.parse::<f64>() {
            table.insert(t.clone(), number.to_bits());
        }
    }
    table
}

fn load(path: &str, contents: &[u8]) -> Result<rusty_panda::data::model::SpectralDataset, LoadError> {
    let numbers = numbers_of(&number_texts(path, contents));
    let columnar = Err("not a columnar file".to_string());
    load_file(path, contents, &numbers, &columnar)
}

#[test]
fn the_extension_tells_the_format() {
    assert_eq!(format_for_extension("parquet"), Some(FileFormat::Parquet));
    assert_eq!(format_for_extension("pq"), Some(FileFormat::Parquet));
    assert_eq!(format_for_extension("json"), Some(FileFormat::Json));
    assert_eq!(format_for_extension("csv"), Some(FileFormat::Csv));
    assert_eq!(format_for_extension("txt"), None);
    assert_eq!(format_for_extension(""), None);
    assert_eq!(format_for_extension("CSV"), None);
    assert_eq!(format_for_extension("csv "), None);
}

#[test]
fn the_extension_is_taken_in_lower_case() {
    assert_eq!(lower_extension("data/Run.CSV"), "csv");
    assert_eq!(lower_extension("a.b.Json"), "json");
    assert_eq!(lower_extension("noext"), "");
    assert_eq!(lower_extension(".hidden"), "");
    assert_eq!(lower_extension("dir.d/file"), "");
    assert_eq!(lower_extension("x.PQ"), "pq");
}

#[test]
fn an_unknown_extension_fails_at_once_and_is_named() {
    assert_eq!(
        load("spectra.XLSX", b"whatever").unwrap_err(),
        LoadError::UnsupportedFormat("xlsx".to_string())
    );
    assert_eq!(load("spectra", b"[]").unwrap_err(), LoadError::UnsupportedFormat(String::new()));
    assert_eq!(
        load("spectra.pkl", b"").unwrap_err(),
        LoadError::UnsupportedFormat("pkl".to_string())
    );
}

#[test]
fn the_format_is_told_without_regard_to_case() {
    let json = br#"[{"x":[1,2],"y":[3,4],"s":"A"}]"#;
    assert_eq!(load("a.json", json).unwrap().len(), 1);
    assert_eq!(load("a.JSON", json).unwrap().len(), 1);
    assert_eq!(load("a.JsOn", json).unwrap().len(), 1);
    let csv = b"x,y,s\n1;2,3;4,A\n5,6,B\n";
    assert_eq!(load("b.csv", csv).unwrap().len(), 2);
    assert_eq!(load("b.Csv", csv).unwrap().len(), 2);
}

#[test]
fn record_array_text_must_be_valid_utf8() {
    assert_eq!(
        load("a.json", b"[\xff]").unwrap_err(),
        LoadError::IoFailure("stream did not contain valid UTF-8".to_string())
    );
}

#[test]
fn a_file_that_is_not_of_its_format_fails_to_parse() {
    assert!(matches!(load("a.json", b"x,y\n1,2\n"), Err(LoadError::ParseFailure(_))));
    assert_eq!(
        load("a.parquet", b"x,y\n1,2\n").unwrap_err(),
        LoadError::ParseFailure("not a columnar file".to_string())
    );
    assert_eq!(
        load("a.pq", b"").unwrap_err(),
        LoadError::ParseFailure("not a columnar file".to_string())
    );
}

#[test]
fn only_delimited_text_asks_for_numbers() {
    assert!(number_texts("a.json", b"x,y\n1,2\n").is_empty());
    assert!(number_texts("a.parquet", b"x,y\n1,2\n").is_empty());
    assert!(number_texts("a.txt", b"x,y\n1,2\n").is_empty());
    let mut texts = number_texts("a.CSV", b"x,y,s\n1;2,3;4,A\n");
    texts.sort();
    assert_eq!(texts, vec!["1", "2", "3", "4", "A"]);
}

#[test]
fn shape_mismatch_is_reported_through_load_file() {
    assert_eq!(
        load("m.csv", b"x,y\n1;2;3,4;5\n").unwrap_err(),
        LoadError::ShapeMismatch { row: 0, x_len: 3, y_len: 2 }
    );
    assert_eq!(
        load("m.json", br#"[{"x":[1,2,3],"y":[4,5]}]"#).unwrap_err(),
        LoadError::ShapeMismatch { row: 0, x_len: 3, y_len: 2 }
    );
}
