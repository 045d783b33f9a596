use rainbow::export::{append_encoded, encode, header, record, records, WriteError};
use rainbow::faker::write_data_to_csv;
use rainbow::table::Row;

fn row(entries: &[(&str, &str)]) -> Row {
    let mut row = Row::new();
    for (key, value) in entries {
        row.insert(key.to_string(), value.to_string());
    }
    row
}

fn people() -> Vec<Row> {
    vec![
        row(&[("FirstName", "John"), ("LastName", "Doe")]),
        row(&[("FirstName", "Jane"), ("LastName", "Smith")]),
    ]
}

#[test]
fn test_write_data_to_csv() {
    let mut first = Row::new();
    first.insert("FirstName".to_string(), "John".to_string());
    first.insert("LastName".to_string(), "Doe".to_string());
    let mut second = Row::new();
    second.insert("FirstName".to_string(), "Jane".to_string());
    second.insert("LastName".to_string(), "Smith".to_string());
    let data = vec![first, second];

    let result = write_data_to_csv(data);

    assert!(result.is_ok());
}

#[test]
fn empty_table_is_refused() {
    assert!(matches!(write_data_to_csv(vec![]), Err(WriteError::EmptyTable)));
    assert!(matches!(records(&vec![]), Err(WriteError::EmptyTable)));
    assert!(matches!(header(&vec![]), Err(WriteError::EmptyTable)));
}

#[test]
fn header_holds_the_keys_of_the_first_row() {
    assert_eq!(header(&people()).unwrap(), vec!["FirstName", "LastName"]);
}

#[test]
fn table_is_written_header_first() {
    let bytes = write_data_to_csv(people()).unwrap();
    assert_eq!(
        String::from_utf8(bytes).unwrap(),
        "FirstName,LastName\nJohn,Doe\nJane,Smith\n"
    );
}

#[test]
fn records_follow_the_header_of_the_first_row() {
    let table = vec![
        row(&[("a", "1"), ("b", "2")]),
        row(&[("b", "4"), ("a", "3")]),
        row(&[("b", "5"), ("c", "6")]),
    ];
    let found = records(&table).unwrap();
    assert_eq!(
        found,
        vec![vec!["a", "b"], vec!["1", "2"], vec!["3", "4"], vec!["", "5"]]
    );
    let text = String::from_utf8(write_data_to_csv(table).unwrap()).unwrap();
    assert_eq!(text, "a,b\n1,2\n3,4\n,5\n");
}

#[test]
fn record_leaves_a_missing_value_empty() {
    let r = row(&[("x", "1")]);
    let names = vec!["y".to_string(), "x".to_string(), "y".to_string()];
    assert_eq!(record(&r, &names), vec!["", "1", ""]);
    assert!(record(&r, &vec![]).is_empty());
}

#[test]
fn values_are_quoted_where_csv_asks_for_it() {
    let table = vec![row(&[
        ("k", "a,b"),
        ("q", "say \"hi\""),
        ("n", "two\nlines"),
        ("p", " plain "),
    ])];
    let text = String::from_utf8(write_data_to_csv(table).unwrap()).unwrap();
    assert_eq!(text, "k,q,n,p\n\"a,b\",\"say \"\"hi\"\"\",\"two\nlines\", plain \n");
}

#[test]
fn rows_without_columns_are_written_as_empty_fields() {
    let table = vec![Row::new(), Row::new()];
    let text = String::from_utf8(write_data_to_csv(table).unwrap()).unwrap();
    assert_eq!(text, "\"\"\n\"\"\n\"\"\n");
}

#[test]
fn encode_writes_records_one_after_the_other() {
    let recs = vec![
        vec!["a".to_string(), "b".to_string()],
        vec!["1".to_string()],
        vec![],
    ];
    assert_eq!(String::from_utf8(encode(&recs).unwrap()).unwrap(), "a,b\n1\n\"\"\n");
    assert!(encode(&vec![]).unwrap().is_empty());
}

#[test]
fn append_encoded_appends_or_reports() {
    let mut document = b"x\n".to_vec();
    assert!(append_encoded(&mut document, Ok(b"y\n".to_vec())).is_ok());
    assert_eq!(document, b"x\ny\n");
    let refused = csv::Error::from(std::io::Error::new(std::io::ErrorKind::Other, "full"));
    match append_encoded(&mut document, Err(refused)) {
        Err(WriteError::Encoding(message)) => assert_eq!(message, "full"),
        other => panic!("unexpected: {:?}", other),
    }
    assert_eq!(document, b"x\ny\n");
}

#[test]
fn written_table_reads_back_with_the_same_header_and_rows() {
    let notes = || {
        vec![
            row(&[("name", "Ann, the \"first\""), ("note", "line one\nline two"), ("n", "7")]),
            row(&[("name", ""), ("note", "x"), ("n", "99")]),
            row(&[("name", "Bob"), ("note", ""), ("n", "1")]),
        ]
    };
    let table = notes();
    let bytes = write_data_to_csv(notes()).unwrap();
    let mut reader = csv::Reader::from_reader(bytes.as_slice());
    let names: Vec<String> = reader.headers().unwrap().iter().map(str::to_string).collect();
    assert_eq!(names, table[0].keys());
    let mut count = 0;
    for (read, written) in reader.records().zip(table.iter()) {
        let read = read.unwrap();
        for (j, name) in names.iter().enumerate() {
            assert_eq!(&read[j], written.get(name).unwrap().as_str());
        }
        count += 1;
    }
    assert_eq!(count, table.len());
    let mut reader = csv::Reader::from_reader(bytes.as_slice());
    assert_eq!(reader.records().count(), table.len());
}
