use revision_audit::aggregate::FileRow;
use revision_audit::csv::{
    decimal_digits, format_csv_field, format_field, render_file_csv, render_records,
};

fn row(org: &str, repo: &str, file: &str, safe: usize, partial: usize, unsafe_: usize) -> FileRow {
    FileRow {
        org: org.to_string(),
        repo: repo.to_string(),
        file: file.to_string(),
        safe,
        partial,
        unsafe_,
    }
}

/// Reads a document by the usual rules: commas part fields, line feeds part
/// records, a field that starts with a double quote runs to the next single
/// double quote, and a doubled double quote inside it stands for one.
fn read_document(text: &str) -> Vec<Vec<String>> {
    let chars: Vec<char> = text.chars().collect();
    let mut records = Vec::new();
    let mut i = 0;
    while i < chars.len() {
        let mut fields = Vec::new();
        loop {
            let mut field = String::new();
            if i < chars.len() && chars[i] == '"' {
                i += 1;
                while i < chars.len() {
                    if chars[i] == '"' {
                        if i + 1 < chars.len() && chars[i + 1] == '"' {
                            field.push('"');
                            i += 2;
                        } else {
                            i += 1;
                            break;
                        }
                    } else {
                        field.push(chars[i]);
                        i += 1;
                    }
                }
            } else {
                while i < chars.len() && chars[i] != ',' && chars[i] != '\n' {
                    field.push(chars[i]);
                    i += 1;
                }
            }
            fields.push(field);
            if i < chars.len() && chars[i] == ',' {
                i += 1;
            } else {
                break;
            }
        }
        records.push(fields);
        if i < chars.len() && chars[i] == '\n' {
            i += 1;
        } else {
            break;
        }
    }
    records
}

#[test]
fn test_format_csv_field_normal() {
    assert_eq!(format_csv_field("normal_project"), "normal_project");
    assert_eq!(format_csv_field("project-name"), "project-name");
    assert_eq!(format_csv_field("project_123"), "project_123");
}

#[test]
fn test_format_csv_field_with_comma() {
    assert_eq!(
        format_csv_field("project, with comma"),
        "\"project, with comma\""
    );
    assert_eq!(format_csv_field("a,b,c"), "\"a,b,c\"");
    assert_eq!(
        format_csv_field("comma, at, multiple, places"),
        "\"comma, at, multiple, places\""
    );
}

#[test]
fn test_format_csv_field_with_quotes() {
    assert_eq!(
        format_csv_field("project \"quoted\""),
        "\"project \"\"quoted\"\"\""
    );
    assert_eq!(format_csv_field("\"start quote"), "\"\"\"start quote\"");
    assert_eq!(format_csv_field("end quote\""), "\"end quote\"\"\"");
    assert_eq!(
        format_csv_field("multiple \"quotes\" here"),
        "\"multiple \"\"quotes\"\" here\""
    );
}

#[test]
fn test_format_csv_field_with_newline() {
    assert_eq!(
        format_csv_field("project\nwith\nnewlines"),
        "\"project\nwith\nnewlines\""
    );
    assert_eq!(format_csv_field("line1\nline2"), "\"line1\nline2\"");
}

#[test]
fn test_format_csv_field_combined_special_chars() {
    assert_eq!(
        format_csv_field("project, \"with\" both"),
        "\"project, \"\"with\"\" both\""
    );
    assert_eq!(
        format_csv_field("all: comma, \"quote\", and\nnewline"),
        "\"all: comma, \"\"quote\"\", and\nnewline\""
    );
}

#[test]
fn test_write_file_csv_basic() {
    let file_data = vec![
        row("org1", "repo1", "file1.py", 1, 2, 3),
        row("org2", "repo2", "file2.py", 0, 1, 0),
    ];

    let contents = render_file_csv(&file_data);

    assert!(contents.contains("org,repo,file,safe_usages,partial_usages,unsafe_usages"));
    assert!(contents.contains("org1,repo1,file1.py,1,2,3"));
    assert!(contents.contains("org2,repo2,file2.py,0,1,0"));
}

#[test]
fn test_write_file_csv_with_special_chars() {
    let file_data = vec![
        row("normal_org", "normal_repo", "normal.py", 1, 0, 0),
        row("org, with comma", "repo", "file.py", 0, 1, 0),
        row("org", "repo \"quoted\"", "file.py", 0, 0, 1),
        row("org", "repo", "path/with, comma/file.py", 1, 1, 1),
    ];

    let contents = render_file_csv(&file_data);

    // Check header
    assert!(contents.contains("org,repo,file,safe_usages,partial_usages,unsafe_usages"));

    // Check each entry is properly formatted
    assert!(contents.contains("normal_org,normal_repo,normal.py,1,0,0"));
    assert!(contents.contains("\"org, with comma\",repo,file.py,0,1,0"));
    assert!(contents.contains("org,\"repo \"\"quoted\"\"\",file.py,0,0,1"));
    assert!(contents.contains("org,repo,\"path/with, comma/file.py\",1,1,1"));
}

#[test]
fn the_whole_document_is_header_and_rows() {
    let file_data = vec![
        row("org1", "repo1", "file1.py", 1, 2, 3),
        row("org, x", "repo\n2", "f\"2\".py", 10, 200, 3000),
    ];
    assert_eq!(
        render_file_csv(&file_data),
        "org,repo,file,safe_usages,partial_usages,unsafe_usages\n\
         org1,repo1,file1.py,1,2,3\n\
         \"org, x\",\"repo\n2\",\"f\"\"2\"\".py\",10,200,3000\n"
    );
    assert_eq!(
        render_file_csv(&Vec::new()),
        "org,repo,file,safe_usages,partial_usages,unsafe_usages\n"
    );
}

#[test]
fn fields_without_special_characters_stay_as_they_are() {
    for field in ["", "a", "plain text", "semi;colon", "tab\there", "cr\rhere", "'single'", "\u{e9}"] {
        assert_eq!(format_csv_field(field), field);
    }
}

#[test]
fn fields_of_special_characters_only() {
    assert_eq!(format_csv_field(","), "\",\"");
    assert_eq!(format_csv_field("\""), "\"\"\"\"");
    assert_eq!(format_csv_field("\n"), "\"\n\"");
    assert_eq!(format_csv_field("\"\""), "\"\"\"\"\"\"");
}

#[test]
fn format_of_characters_agrees_with_format_of_strings() {
    for field in ["plain", "a,b", "say \"hi\"", "two\nlines", ""] {
        let chars: Vec<char> = field.chars().collect();
        let formatted: String = format_field(&chars).iter().collect();
        assert_eq!(formatted, format_csv_field(field));
    }
}

#[test]
fn numbers_in_decimal() {
    let text = |n: usize| decimal_digits(n).iter().collect::<String>();
    assert_eq!(text(0), "0");
    assert_eq!(text(7), "7");
    assert_eq!(text(9), "9");
    assert_eq!(text(10), "10");
    assert_eq!(text(42), "42");
    assert_eq!(text(100), "100");
    assert_eq!(text(1234567890), "1234567890");
    assert_eq!(text(usize::MAX), usize::MAX.to_string());
    for n in 0..2000usize {
        assert_eq!(text(n), n.to_string());
    }
}

#[test]
fn a_reader_gets_a_field_back() {
    for field in [
        "project, \"with\" both", "plain", "", ",", "\"", "\"\"", "a\nb", "\n", ",\",\n\"\",",
        "ends with quote\"", "\"starts with quote", "  spaces  ", "multi\nline, \"quoted\"\n",
    ] {
        let text = format!("{},tail\n", format_csv_field(field));
        assert_eq!(read_document(&text), vec![vec![field.to_string(), "tail".to_string()]]);
    }
}

#[test]
fn a_reader_gets_the_table_back() {
    let file_data = vec![
        row("normal_org", "normal_repo", "normal.py", 1, 0, 0),
        row("org, with comma", "repo", "file.py", 0, 1, 0),
        row("org", "repo \"quoted\"", "file.py", 0, 0, 1),
        row("org", "repo", "path/with, comma/file.py", 1, 1, 1),
        row("", "\"", "line\nfeed", 12, 345, 6789),
        row("\n", ",", "\"\"", 0, 0, usize::MAX),
    ];
    let records = read_document(&render_file_csv(&file_data));
    assert_eq!(records.len(), file_data.len() + 1);
    assert_eq!(
        records[0],
        ["org", "repo", "file", "safe_usages", "partial_usages", "unsafe_usages"]
    );
    for (record, row) in records[1..].iter().zip(&file_data) {
        assert_eq!(
            *record,
            [
                row.org.clone(),
                row.repo.clone(),
                row.file.clone(),
                row.safe.to_string(),
                row.partial.to_string(),
                row.unsafe_.to_string(),
            ]
        );
    }
}

#[test]
fn a_table_of_any_records() {
    let chars = |s: &str| s.chars().collect::<Vec<char>>();
    assert_eq!(render_records(&Vec::new()), "");
    let records = vec![
        vec![chars("a"), chars("b,c"), chars("")],
        vec![chars("say \"hi\"")],
        vec![chars(""), chars("two\nlines")],
    ];
    let text = render_records(&records);
    assert_eq!(text, "a,\"b,c\",\n\"say \"\"hi\"\"\"\n,\"two\nlines\"\n");
    let expected: Vec<Vec<String>> = records
        .iter()
        .map(|fields| fields.iter().map(|field| field.iter().collect()).collect())
        .collect();
    assert_eq!(read_document(&text), expected);
}
