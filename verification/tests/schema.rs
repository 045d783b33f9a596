use rainbow::schema::{column_pairs, kind_of, parse, GeneratorKind, SchemaError};

#[test]
fn parse_reads_columns_in_order() {
    let columns = parse("first:FirstName,age:Number").unwrap();
    assert_eq!(columns.len(), 2);
    assert_eq!(columns[0].name, "first");
    assert_eq!(columns[0].kind, GeneratorKind::FirstName);
    assert_eq!(columns[1].name, "age");
    assert_eq!(columns[1].kind, GeneratorKind::Number);
}

#[test]
fn parse_turns_down_a_token_without_colon() {
    match parse("bad") {
        Err(SchemaError::MalformedColumnToken(token)) => assert_eq!(token, "bad"),
        other => panic!("unexpected: {:?}", other),
    }
}

#[test]
fn parse_turns_down_an_unknown_type() {
    match parse("x:UnknownType") {
        Err(SchemaError::UnsupportedGeneratorKind(name)) => assert_eq!(name, "UnknownType"),
        other => panic!("unexpected: {:?}", other),
    }
}

#[test]
fn parse_trims_names_and_types() {
    let columns = parse("  first name : FirstName ,\tage:\u{a0}Number\n").unwrap();
    assert_eq!(columns.len(), 2);
    assert_eq!(columns[0].name, "first name");
    assert_eq!(columns[0].kind, GeneratorKind::FirstName);
    assert_eq!(columns[1].name, "age");
    assert_eq!(columns[1].kind, GeneratorKind::Number);
}

#[test]
fn parse_reports_the_malformed_token_as_written() {
    match parse("a:Number, b c ,d") {
        Err(SchemaError::MalformedColumnToken(token)) => assert_eq!(token, " b c "),
        other => panic!("unexpected: {:?}", other),
    }
    match parse("a:b:c") {
        Err(SchemaError::MalformedColumnToken(token)) => assert_eq!(token, "a:b:c"),
        other => panic!("unexpected: {:?}", other),
    }
}

#[test]
fn parse_turns_down_empty_tokens() {
    for spec in ["", ",", "a:Number,", ",a:Number", "a:Number,,b:Email"] {
        match parse(spec) {
            Err(SchemaError::MalformedColumnToken(token)) => assert_eq!(token, "", "{spec:?}"),
            other => panic!("unexpected for {:?}: {:?}", spec, other),
        }
    }
}

#[test]
fn malformed_token_is_reported_before_an_unknown_type() {
    match parse("a:Nope,b") {
        Err(SchemaError::MalformedColumnToken(token)) => assert_eq!(token, "b"),
        other => panic!("unexpected: {:?}", other),
    }
}

#[test]
fn first_unknown_type_is_reported() {
    match parse("a:Number,b: Nope ,c:Neither") {
        Err(SchemaError::UnsupportedGeneratorKind(name)) => assert_eq!(name, "Nope"),
        other => panic!("unexpected: {:?}", other),
    }
    match parse("a:") {
        Err(SchemaError::UnsupportedGeneratorKind(name)) => assert_eq!(name, ""),
        other => panic!("unexpected: {:?}", other),
    }
}

#[test]
fn parse_accepts_an_empty_name_and_repeated_names() {
    let columns = parse(":Number,x:Email,x:Color").unwrap();
    assert_eq!(columns.len(), 3);
    assert_eq!(columns[0].name, "");
    assert_eq!(columns[1].name, "x");
    assert_eq!(columns[2].name, "x");
    assert_eq!(columns[2].kind, GeneratorKind::Color);
}

#[test]
fn type_names_are_case_sensitive() {
    assert!(matches!(
        parse("a:number"),
        Err(SchemaError::UnsupportedGeneratorKind(_))
    ));
}

#[test]
fn kind_of_knows_every_kind() {
    assert_eq!(kind_of("FirstName"), Some(GeneratorKind::FirstName));
    assert_eq!(kind_of("LastName"), Some(GeneratorKind::LastName));
    assert_eq!(kind_of("CityName"), Some(GeneratorKind::CityName));
    assert_eq!(kind_of("StreetName"), Some(GeneratorKind::StreetName));
    assert_eq!(kind_of("ZipCode"), Some(GeneratorKind::ZipCode));
    assert_eq!(kind_of("Email"), Some(GeneratorKind::Email));
    assert_eq!(kind_of("Username"), Some(GeneratorKind::Username));
    assert_eq!(kind_of("Password"), Some(GeneratorKind::Password));
    assert_eq!(kind_of("Color"), Some(GeneratorKind::Color));
    assert_eq!(kind_of("Paragraph"), Some(GeneratorKind::Paragraph));
    assert_eq!(kind_of("Number"), Some(GeneratorKind::Number));
    assert_eq!(kind_of("Name"), None);
    assert_eq!(kind_of(""), None);
}

#[test]
fn column_pairs_splits_and_trims_without_judging_types() {
    let pairs = column_pairs(" a : What , b:Number").unwrap();
    assert_eq!(pairs, vec![("a", "What"), ("b", "Number")]);
    assert!(matches!(
        column_pairs("a:b,c"),
        Err(SchemaError::MalformedColumnToken(_))
    ));
}
