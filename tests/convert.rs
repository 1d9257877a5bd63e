use rcli::{
    convert_table, decimal_text, decode_row, field_of_header, format_document, format_object, parse_kit,
    process_csv, same_text, verify_input_file, ConvertError, ParseError, CsvOpts, Field, PathError, RowError,
    DEFAULT_OUTPUT,
};

const HEADER: &str = "Name,Position,DOB,Nationality,Kit Number\n";

fn convert(text: &str) -> Result<String, ConvertError> {
    process_csv(text.as_bytes(), b',')
}

fn parsed(out: &str) -> Vec<serde_json::Value> {
    let v: serde_json::Value = serde_json::from_str(out).unwrap();
    v.as_array().unwrap().clone()
}

fn strings(v: &[&str]) -> Vec<String> {
    v.iter().map(|s| s.to_string()).collect()
}

#[test]
fn messi_example() {
    let out = convert("Name,Position,DOB,Nationality,Kit Number\nL. Messi,Forward,1987-06-24,Argentina,30\n").unwrap();
    assert_eq!(
        out,
        "[\n  {\n    \"name\": \"L. Messi\",\n    \"position\": \"Forward\",\n    \"DOB\": \"1987-06-24\",\n    \"nationality\": \"Argentina\",\n    \"Kit Number\": 30\n  }\n]"
    );
}

#[test]
fn rows_kept_in_order() {
    let text = format!(
        "{}A,Forward,2000-01-01,X,1\nB,Midfielder,2000-01-02,Y,2\nC,Defender,2000-01-03,Z,3\n",
        HEADER
    );
    let items = parsed(&convert(&text).unwrap());
    assert_eq!(items.len(), 3);
    let names: Vec<&str> = items.iter().map(|o| o["name"].as_str().unwrap()).collect();
    assert_eq!(names, vec!["A", "B", "C"]);
}

#[test]
fn fields_found_by_header_label() {
    let text = "Kit Number,Extra,DOB,nationality,position,name\n7,ignored,1990-05-05,Spain,Keeper,Q. R\n";
    let items = parsed(&convert(text).unwrap());
    assert_eq!(items.len(), 1);
    assert_eq!(items[0]["Kit Number"].as_u64(), Some(7));
    assert_eq!(items[0]["DOB"].as_str(), Some("1990-05-05"));
    assert_eq!(items[0]["name"].as_str(), Some("Q. R"));
    assert_eq!(items[0]["position"].as_str(), Some("Keeper"));
    assert_eq!(items[0]["nationality"].as_str(), Some("Spain"));
}

#[test]
fn bad_kit_number_fails_the_whole_table() {
    let text = format!("{}A,Forward,2000-01-01,X,1\nB,Forward,2000-01-02,Y,ten\nC,Forward,2000-01-03,Z,3\n", HEADER);
    match convert(&text) {
        Err(ConvertError::RecordParse(ParseError::Row { row, reason })) => {
            assert_eq!(row, 1);
            assert_eq!(reason, RowError::InvalidKit);
        }
        _ => panic!("expected a parse error"),
    }
}

#[test]
fn missing_input_is_refused() {
    let r = verify_input_file("no/such/file.csv", false);
    assert_eq!(r, Err(PathError::PathNotFound));
    assert_eq!(PathError::PathNotFound.message(), "File does not exist");
}

#[test]
fn existing_input_is_handed_back() {
    assert_eq!(verify_input_file("players.csv", true), Ok("players.csv".to_string()));
}

#[test]
fn default_options() {
    let o = CsvOpts::with_defaults("in.csv".to_string());
    assert_eq!(o.input, "in.csv");
    assert_eq!(o.output, "output.json");
    assert_eq!(DEFAULT_OUTPUT, "output.json");
    assert_eq!(o.delimiter, ',');
    assert!(o.header);
}

#[test]
fn same_input_same_output() {
    let text = format!("{}A,Forward,2000-01-01,X,1\nB,Midfielder,2000-01-02,Y,2\n", HEADER);
    let a = convert(&text).unwrap();
    let b = convert(&text).unwrap();
    assert_eq!(a, b);
}

#[test]
fn header_only_gives_empty_list() {
    assert_eq!(convert(HEADER).unwrap(), "[]");
    assert_eq!(convert("").unwrap(), "[]");
}

#[test]
fn missing_column_is_reported() {
    match convert("Name,Position,DOB,Nationality\nA,B,C,D\n") {
        Err(ConvertError::RecordParse(ParseError::Row { row, reason })) => {
            assert_eq!(row, 0);
            assert_eq!(reason, RowError::MissingField(Field::Kit));
        }
        _ => panic!("expected a missing field"),
    }
}

#[test]
fn duplicate_column_is_reported() {
    match convert("name,Name,Position,DOB,Nationality,Kit Number\nA,A2,B,C,D,1\n") {
        Err(ConvertError::RecordParse(ParseError::Row { row, reason })) => {
            assert_eq!(row, 0);
            assert_eq!(reason, RowError::DuplicateField(Field::Name));
        }
        _ => panic!("expected a duplicate field"),
    }
}

#[test]
fn unequal_row_width_is_a_csv_error() {
    let text = format!("{}A,Forward,2000-01-01,X\n", HEADER);
    assert!(matches!(convert(&text), Err(ConvertError::RecordParse(ParseError::Table(_)))));
}

#[test]
fn other_delimiter_is_honoured() {
    let text = "Name;Position;DOB;Nationality;Kit Number\nA, Jr;Forward;2000-01-01;X;9\n";
    let items = parsed(&process_csv(text.as_bytes(), b';').unwrap());
    assert_eq!(items[0]["name"].as_str(), Some("A, Jr"));
    assert_eq!(items[0]["Kit Number"].as_u64(), Some(9));
}

#[test]
fn texts_are_escaped() {
    let text = format!("{}\"Say \"\"hi\"\"\",Back\\Slash,2000-01-01,X,1\n", HEADER);
    let out = convert(&text).unwrap();
    assert!(out.contains("\"name\": \"Say \\\"hi\\\"\""));
    assert!(out.contains("\"position\": \"Back\\\\Slash\""));
    let items = parsed(&out);
    assert_eq!(items[0]["name"].as_str(), Some("Say \"hi\""));
}

#[test]
fn kit_numbers() {
    assert_eq!(parse_kit("30"), Some(30));
    assert_eq!(parse_kit("0"), Some(0));
    assert_eq!(parse_kit("007"), Some(7));
    assert_eq!(parse_kit("+7"), Some(7));
    assert_eq!(parse_kit("255"), Some(255));
    assert_eq!(parse_kit("0x1E"), Some(30));
    assert_eq!(parse_kit("0xff"), Some(255));
    assert_eq!(parse_kit("256"), None);
    assert_eq!(parse_kit("0x100"), None);
    assert_eq!(parse_kit("-1"), None);
    assert_eq!(parse_kit(""), None);
    assert_eq!(parse_kit("+"), None);
    assert_eq!(parse_kit("1A"), None);
    assert_eq!(parse_kit(" 3"), None);
}

#[test]
fn hex_kit_number_in_table() {
    let text = format!("{}A,Forward,2000-01-01,X,0x0A\n", HEADER);
    assert_eq!(parsed(&convert(&text).unwrap())[0]["Kit Number"].as_u64(), Some(10));
}

#[test]
fn decimal_digits() {
    assert_eq!(decimal_text(0), "0");
    assert_eq!(decimal_text(9), "9");
    assert_eq!(decimal_text(10), "10");
    assert_eq!(decimal_text(105), "105");
    assert_eq!(decimal_text(255), "255");
}

#[test]
fn document_layout() {
    assert_eq!(format_document(&vec![]), "[]");
    assert_eq!(format_document(&strings(&["  1", "  2"])), "[\n  1,\n  2\n]");
    assert_eq!(
        format_object("\"a\"", "\"b\"", "\"c\"", "\"d\"", 5),
        "  {\n    \"name\": \"a\",\n    \"position\": \"b\",\n    \"DOB\": \"c\",\n    \"nationality\": \"d\",\n    \"Kit Number\": 5\n  }"
    );
}

#[test]
fn header_labels() {
    assert_eq!(field_of_header("name"), Some(Field::Name));
    assert_eq!(field_of_header("Name"), Some(Field::Name));
    assert_eq!(field_of_header("NAME"), None);
    assert_eq!(field_of_header("DOB"), Some(Field::Dob));
    assert_eq!(field_of_header("dob"), None);
    assert_eq!(field_of_header("Kit Number"), Some(Field::Kit));
    assert_eq!(field_of_header("Nationality"), Some(Field::Nationality));
    assert_eq!(field_of_header("position"), Some(Field::Position));
    assert!(same_text("abc", "abc"));
    assert!(!same_text("abc", "abd"));
    assert!(!same_text("ab", "abc"));
}

#[test]
fn row_decoding() {
    let h = strings(&["Name", "Position", "DOB", "Nationality", "Kit Number"]);
    let p = decode_row(&h, &strings(&["A", "B", "C", "D", "11"])).unwrap();
    assert_eq!((p.name.as_str(), p.position.as_str(), p.dob.as_str(), p.nationality.as_str(), p.kit), ("A", "B", "C", "D", 11));
    assert!(matches!(decode_row(&h, &strings(&["A", "B", "C", "D", "x"])), Err(RowError::InvalidKit)));
    let rows = vec![strings(&["A", "B", "C", "D", "1"]), strings(&["E", "F", "G", "H", "2"])];
    let out = convert_table(&h, &rows).unwrap();
    assert_eq!(parsed(&out).len(), 2);
}

#[test]
fn control_characters_are_escaped() {
    let text = format!("{}\"Tab\tBell\u{7}\",Forward,2000-01-01,X,1\n", HEADER);
    let out = convert(&text).unwrap();
    assert!(out.contains("\"name\": \"Tab\\tBell\\u0007\""));
    assert_eq!(parsed(&out)[0]["name"].as_str(), Some("Tab\tBell\u{7}"));
}

#[test]
fn invalid_utf8_is_a_parse_error() {
    let mut data = HEADER.as_bytes().to_vec();
    data.extend_from_slice(b"A\xff,Forward,2000-01-01,X,1\n");
    assert!(matches!(process_csv(&data, b','), Err(ConvertError::RecordParse(ParseError::Table(_)))));
}

#[test]
fn column_order_and_unknown_columns_do_not_matter() {
    let a = convert("Name,Position,DOB,Nationality,Kit Number\nA,Forward,2000-01-01,X,1\nB,Keeper,2001-02-02,Y,2\n").unwrap();
    let b = convert("Kit Number,Club,Nationality,DOB,Position,Name\n1,C1,X,2000-01-01,Forward,A\n2,C2,Y,2001-02-02,Keeper,B\n").unwrap();
    assert_eq!(a, b);
}
