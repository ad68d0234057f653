use signature_generator::csv_reader::CsvReader;
use signature_generator::csv_reader::LoadError;
use signature_generator::mapping::RowMapping;

fn compare_mapping(map: &RowMapping, expected: &[(&str, &str)]) -> bool {
    if map.len() != expected.len() {
        return false;
    }
    for (key, value) in expected.iter() {
        match map.get(key) {
            Some(v) => {
                if v != *value {
                    return false;
                }
            },
            None => {
                return false;
            },
        }
    }
    true
}

#[test]
fn test_csv_reader_new() {
    let text = "file_name,name\nfile1.html,John Doe\nfile2.html,Jane Doe\n";
    let reader = CsvReader::new(text).unwrap();
    assert_eq!(reader.headers().len(), 2);
    assert_eq!(reader.records().len(), 2);
    assert_eq!(reader.records()[0].get("file_name"), Some("file1.html".to_string()));
    assert_eq!(reader.records()[1].get("name"), Some("Jane Doe".to_string()));
}

#[test]
fn test_csv_reader_records() {
    let text = "file_name,name\nfile1.html,John Doe\nfile2.html,Jane Doe\n";
    let reader = CsvReader::new(text).unwrap();

    let expected_records = vec![
        vec![("file_name", "file1.html"), ("name", "John Doe")],
        vec![("file_name", "file2.html"), ("name", "Jane Doe")],
    ];

    assert_eq!(compare_mapping(&reader.records()[0], &expected_records[0]), true);
    assert_eq!(compare_mapping(&reader.records()[1], &expected_records[1]), true);
}

#[test]
fn test_csv_reader_invalid_header() {
    let text = "invalid_header,name\nfile1.html,John Doe\nfile2.html,Jane Doe\n";
    let result = CsvReader::new(text);
    assert_eq!(result.err(), Some(LoadError::Schema));
}

#[test]
fn test_missing_column_among_many() {
    let text = "id,name,email\n1,John Doe,john@x.com\n";
    assert_eq!(CsvReader::new(text).err(), Some(LoadError::Schema));
}

#[test]
fn test_empty_input_is_schema_error() {
    assert_eq!(CsvReader::new("").err(), Some(LoadError::Schema));
}

#[test]
fn test_header_only_table() {
    let reader = CsvReader::new("file_name,name\n").unwrap();
    assert_eq!(reader.headers().len(), 2);
    assert_eq!(reader.records().len(), 0);
}

#[test]
fn test_unterminated_quote_is_parse_error() {
    let text = "file_name\n\"unfinished\n";
    assert_eq!(CsvReader::new(text).err(), Some(LoadError::Parse));
}

#[test]
fn test_field_count_mismatch_is_parse_error() {
    let text = "file_name,name\nonly_one_field\n";
    assert_eq!(CsvReader::new(text).err(), Some(LoadError::Parse));
}

#[test]
fn test_quoted_fields() {
    let text = "file_name,note\n\"a,b.html\",\"He said \"\"hi\"\"\"\n";
    let reader = CsvReader::new(text).unwrap();
    let rows = reader.records();
    assert_eq!(rows.len(), 1);
    assert_eq!(rows[0].get("file_name"), Some("a,b.html".to_string()));
    assert_eq!(rows[0].get("note"), Some("He said \"hi\"".to_string()));
}

#[test]
fn test_crlf_line_endings() {
    let text = "file_name,name\r\nfile1.html,John Doe\r\nfile2.html,Jane Doe\r\n";
    let reader = CsvReader::new(text).unwrap();
    assert_eq!(reader.records().len(), 2);
    assert_eq!(reader.records()[1].get("file_name"), Some("file2.html".to_string()));
}

#[test]
fn test_mapping_alignment_per_column() {
    let text = "file_name,name,email\nf.html,John Doe,john@x.com\n";
    let reader = CsvReader::new(text).unwrap();
    let rows = reader.records();
    assert_eq!(rows.len(), 1);
    assert_eq!(rows[0].len(), 3);
    assert_eq!(rows[0].get("file_name"), Some("f.html".to_string()));
    assert_eq!(rows[0].get("name"), Some("John Doe".to_string()));
    assert_eq!(rows[0].get("email"), Some("john@x.com".to_string()));
    assert_eq!(rows[0].get("absent"), None);
}

#[test]
fn test_trailing_field_empty() {
    let text = "file_name,phone\nf.html,\n";
    let reader = CsvReader::new(text).unwrap();
    let rows = reader.records();
    assert_eq!(rows[0].get("phone"), Some("".to_string()));
}
