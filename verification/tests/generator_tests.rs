use std::collections::HashMap;

use signature_generator::csv_reader::CsvReader;
use signature_generator::html_generator::HtmlGenerator;
use signature_generator::html_generator::derived_file_name;
use signature_generator::mapping::RowMapping;
use signature_generator::template::RenderError;

fn row(pairs: &[(&str, &str)]) -> RowMapping {
    let owned: Vec<(String, String)> =
        pairs.iter().map(|(k, v)| (k.to_string(), v.to_string())).collect();
    RowMapping::new(owned)
}

#[test]
fn test_html_generator() {
    // the shared signature template: one paragraph per present field
    let template = "<div>\n\
        {{- if name -}}\n<p>{name}</p>\n{{- endif -}}\n\
        {{- if email -}}\n<p>{email}</p>\n{{- endif -}}\n\
        {{- if phone -}}\n<p>{phone}</p>\n{{- endif -}}\n\
        </div>";

    let records = vec![
        row(&[
            ("file_name", "contact1"),
            ("name", "John Smith"),
            ("email", "john@example.com"),
            ("phone", "+1 123-456-7890"),
        ]),
        row(&[
            ("file_name", "contact2"),
            ("name", "Jane Doe"),
            ("email", "jane@example.com"),
            ("phone", "+1 234-567-8901"),
        ]),
    ];

    let expected_contents = vec![
        "<div><p>John Smith</p><p>john@example.com</p><p>+1 123-456-7890</p></div>",
        "<div><p>Jane Doe</p><p>jane@example.com</p><p>+1 234-567-8901</p></div>",
    ];
    let expected_paths = vec!["output_testing/contact1.html", "output_testing/contact2.html"];

    let generator =
        HtmlGenerator::new(template, records.clone(), "output_testing".to_string()).unwrap();

    for (i, record) in records.iter().enumerate() {
        let actual_html = generator.format_html(record).unwrap();
        assert_eq!(actual_html, expected_contents[i]);
    }

    let files = generator.generate().unwrap();
    assert_eq!(files.len(), 2);
    for (i, file) in files.iter().enumerate() {
        assert_eq!(file.path, expected_paths[i]);
        assert_eq!(file.contents, expected_contents[i]);
    }
}

#[test]
fn test_derived_file_name_appends_suffix() {
    assert_eq!(derived_file_name("contact1"), "contact1.html");
}

#[test]
fn test_derived_file_name_keeps_existing_suffix() {
    assert_eq!(derived_file_name("contact1.html"), "contact1.html");
}

#[test]
fn test_end_to_end_two_contacts() {
    let csv = "file_name,name,email,phone\n\
        file1.html,John Doe,john@x.com,\n\
        file2.html,Jane Doe,,+1-555-0100\n";
    let template = "{{- if name -}}<p>{name}</p>{{- endif -}}\
        {{- if email -}}<p>{email}</p>{{- endif -}}\
        {{- if phone -}}<p>{phone}</p>{{- endif -}}";

    let reader = CsvReader::new(csv).unwrap();
    let generator = HtmlGenerator::new(template, reader.records(), "output".to_string()).unwrap();
    let files = generator.generate().unwrap();

    assert_eq!(files.len(), 2);
    assert_eq!(files[0].path, "output/file1.html");
    assert_eq!(files[0].contents, "<p>John Doe</p><p>john@x.com</p>");
    assert_eq!(files[1].path, "output/file2.html");
    assert_eq!(files[1].contents, "<p>Jane Doe</p><p>+1-555-0100</p>");
}

#[test]
fn test_generate_is_idempotent() {
    let csv = "file_name,name\nfile1.html,John Doe\nfile2.html,Jane Doe\n";
    let template = "<p>{name}</p>";

    let reader1 = CsvReader::new(csv).unwrap();
    let gen1 = HtmlGenerator::new(template, reader1.records(), "out".to_string()).unwrap();
    let first = gen1.generate().unwrap();

    let reader2 = CsvReader::new(csv).unwrap();
    let gen2 = HtmlGenerator::new(template, reader2.records(), "out".to_string()).unwrap();
    let second = gen2.generate().unwrap();

    assert_eq!(first.len(), second.len());
    for (a, b) in first.iter().zip(second.iter()) {
        assert_eq!(a.path, b.path);
        assert_eq!(a.contents, b.contents);
    }
}

#[test]
fn test_colliding_file_names_last_row_wins() {
    let csv = "file_name,name\ndup,First Row\ndup.html,Second Row\n";
    let template = "<p>{name}</p>";

    let reader = CsvReader::new(csv).unwrap();
    let generator = HtmlGenerator::new(template, reader.records(), "out".to_string()).unwrap();
    let files = generator.generate().unwrap();

    assert_eq!(files.len(), 2);
    assert_eq!(files[0].path, files[1].path);

    // writes are applied in row order, each overwriting the file before it
    let mut disk: HashMap<String, String> = HashMap::new();
    for file in files.iter() {
        disk.insert(file.path.clone(), file.contents.clone());
    }
    assert_eq!(disk.get("out/dup.html"), Some(&"<p>Second Row</p>".to_string()));
}

#[test]
fn test_missing_file_name_in_mapping_fails() {
    let records = vec![row(&[("name", "John Doe")])];
    let generator = HtmlGenerator::new("<p>{name}</p>", records, "out".to_string()).unwrap();
    assert_eq!(generator.generate().err(), Some(RenderError));
}

#[test]
fn test_render_failure_aborts_generation() {
    let records = vec![row(&[("file_name", "a.html")])];
    let generator = HtmlGenerator::new("<p>{name}</p>", records, "out".to_string()).unwrap();
    assert_eq!(generator.generate().err(), Some(RenderError));
}
