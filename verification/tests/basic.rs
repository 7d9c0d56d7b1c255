use snippets::demo::example_borrow;
use snippets::demo::example_reference;
use snippets::demo::int_text;
use snippets::json::ParseError;
use snippets::num_pair::SerdeExample;
use snippets::records::MyDataExample;
use snippets::str_pair::SerdeExampleStr;

#[test]
fn it_works() {
    assert_eq!(2 + 2, 4);
}

#[test]
fn it_initiates_struct() {
    let data_struct = MyDataExample::init(1.2f64.to_bits(), 3);
    assert_eq!(f64::from_bits(data_struct.some_num_bits), 1.2);
    assert_eq!(data_struct.some_int, 3);
}

#[test]
fn it_deserializes() {
    let serialized = "{\"some_num\": 32.0, \"some_vec\":[1.0, 2.0]}";
    let deserialized = SerdeExample::from_json(serialized.as_bytes()).unwrap();
    let first = std::str::from_utf8(&deserialized.some_vec[0]).unwrap();
    assert_eq!(first.parse::<f64>().unwrap(), 1.0);
}

#[test]
fn it_does_not_deserialize() {
    let serialized = "{\"some_num\": 32.0, \"some_vec\":4.0}";
    let maybe_deserialized = SerdeExample::from_json(serialized.as_bytes());
    match &maybe_deserialized {
        Ok(deserialized) => {
            println!("{}", String::from_utf8(deserialized.to_display_bytes()).unwrap())
        }
        Err(err) => println!("{:?}", err),
    }
    assert!(matches!(maybe_deserialized, Err(ParseError::TypeMismatch)));
}

#[test]
fn it_deserializes_str() {
    let serialized = "{\"some_str\": \"hello\"}";
    let deserialized = SerdeExampleStr::from_json(serialized.as_bytes()).unwrap();
    assert_eq!(std::str::from_utf8(&deserialized.some_str).unwrap(), "hello");
}

#[test]
fn it_serializes_str() {
    let deserialized = SerdeExampleStr {
        some_str: b"hello".to_vec(),
    };
    let serialized = deserialized.to_json();
    assert_eq!(String::from_utf8(serialized).unwrap(), "{\"some_str\": \"hello\"}");
}

#[test]
fn it_does_borrow_and_reference() {
    let x = vec![2, 3, 4];
    let rendered = example_borrow(x);
    assert_eq!(rendered, b"2\n3\n4\n".to_vec());

    let y = vec![2, 3, 4];
    let rendered_y = example_reference(&y);
    assert_eq!(rendered_y, b"2\n3\n4\n".to_vec());
    assert_eq!(y[0], 2);

    let mut z = vec![2, 3, 4];
    example_reference(&mut z);
    z[0] = 4;
    assert_eq!(z, vec![4, 3, 4]);
}

#[test]
fn num_pair_reads_every_field() {
    let text = "{\"some_num\": 32.0, \"some_vec\":[1.0, 2.0]}";
    let record = SerdeExample::from_json(text.as_bytes()).unwrap();
    assert_eq!(std::str::from_utf8(&record.some_num).unwrap(), "32.0");
    assert_eq!(record.some_vec.len(), 2);
    assert_eq!(std::str::from_utf8(&record.some_vec[1]).unwrap(), "2.0");
}

#[test]
fn num_pair_accepts_empty_array() {
    let text = "{\"some_num\": 1.0, \"some_vec\": []}";
    let record = SerdeExample::from_json(text.as_bytes()).unwrap();
    assert_eq!(record.some_vec.len(), 0);
}

#[test]
fn num_pair_tolerates_whitespace() {
    let text = "  { \"some_num\" : -3.5 , \"some_vec\" : [ 7 , -0.25 ] }  ";
    let record = SerdeExample::from_json(text.as_bytes()).unwrap();
    assert_eq!(std::str::from_utf8(&record.some_num).unwrap(), "-3.5");
    assert_eq!(std::str::from_utf8(&record.some_vec[0]).unwrap(), "7");
    assert_eq!(std::str::from_utf8(&record.some_vec[1]).unwrap(), "-0.25");
}

#[test]
fn num_pair_rejects_string_where_number_expected() {
    let text = "{\"some_num\": \"x\", \"some_vec\":[1.0]}";
    let r = SerdeExample::from_json(text.as_bytes());
    assert!(matches!(r, Err(ParseError::TypeMismatch)));
}

#[test]
fn num_pair_rejects_malformed_text() {
    assert!(matches!(
        SerdeExample::from_json(b""),
        Err(ParseError::Syntax)
    ));
    assert!(matches!(
        SerdeExample::from_json(b"{"),
        Err(ParseError::Syntax)
    ));
    assert!(matches!(
        SerdeExample::from_json(b"{\"other\": 1.0, \"some_vec\":[]}"),
        Err(ParseError::Syntax)
    ));
    assert!(matches!(
        SerdeExample::from_json(b"{\"some_num\": 1., \"some_vec\":[]}"),
        Err(ParseError::Syntax)
    ));
    assert!(matches!(
        SerdeExample::from_json(b"{\"some_num\": 1.0, \"some_vec\":[1.0]} x"),
        Err(ParseError::Syntax)
    ));
}

#[test]
fn num_pair_writes_canonical_text() {
    let record = SerdeExample {
        some_num: b"32.0".to_vec(),
        some_vec: vec![b"1.0".to_vec(), b"2.0".to_vec()],
    };
    let text = record.to_json();
    assert_eq!(
        String::from_utf8(text).unwrap(),
        "{\"some_num\": 32.0, \"some_vec\": [1.0, 2.0]}"
    );
}

#[test]
fn num_pair_round_trips_through_text() {
    let record = SerdeExample {
        some_num: b"-3.5".to_vec(),
        some_vec: vec![b"7".to_vec()],
    };
    let text = record.to_json();
    let back = SerdeExample::from_json(&text).unwrap();
    assert_eq!(back.some_num, record.some_num);
    assert_eq!(back.some_vec, record.some_vec);
}

#[test]
fn num_pair_renders_for_display() {
    let text = "{\"some_num\": 32.0, \"some_vec\":[1.0, 2.0]}";
    let record = SerdeExample::from_json(text.as_bytes()).unwrap();
    let shown = String::from_utf8(record.to_display_bytes()).unwrap();
    assert_eq!(shown, "(32.0, [1.0, 2.0])");
}

#[test]
fn str_pair_rejects_wrong_types_and_shapes() {
    assert!(matches!(
        SerdeExampleStr::from_json(b"{\"some_str\": 5}"),
        Err(ParseError::TypeMismatch)
    ));
    assert!(matches!(
        SerdeExampleStr::from_json(b"{\"some_str\": [\"a\"]}"),
        Err(ParseError::TypeMismatch)
    ));
    assert!(matches!(
        SerdeExampleStr::from_json(b"{\"some_str\": \"unterminated}"),
        Err(ParseError::Syntax)
    ));
    assert!(matches!(
        SerdeExampleStr::from_json(b"{\"some_str\": \"a\"} x"),
        Err(ParseError::Syntax)
    ));
}

#[test]
fn str_pair_round_trips_through_text() {
    let record = SerdeExampleStr {
        some_str: b"hello world".to_vec(),
    };
    let text = record.to_json();
    let back = SerdeExampleStr::from_json(&text).unwrap();
    assert_eq!(back.some_str, record.some_str);
}

#[test]
fn str_pair_tolerates_whitespace() {
    let record = SerdeExampleStr::from_json(b"  { \"some_str\" : \"hello\" }  ").unwrap();
    assert_eq!(std::str::from_utf8(&record.some_str).unwrap(), "hello");
}

#[test]
fn num_pair_displays_empty_array() {
    let record = SerdeExample {
        some_num: b"1".to_vec(),
        some_vec: vec![],
    };
    assert_eq!(String::from_utf8(record.to_display_bytes()).unwrap(), "(1, [])");
}

#[test]
fn str_pair_accepts_empty_string() {
    let record = SerdeExampleStr::from_json(b"{\"some_str\": \"\"}").unwrap();
    assert_eq!(record.some_str.len(), 0);
}

#[test]
fn int_text_renders_decimals() {
    assert_eq!(int_text(0), b"0".to_vec());
    assert_eq!(int_text(907), b"907".to_vec());
    assert_eq!(int_text(-5), b"-5".to_vec());
    assert_eq!(int_text(i32::MIN), b"-2147483648".to_vec());
    assert_eq!(int_text(i32::MAX), b"2147483647".to_vec());
}

#[test]
fn example_reference_renders_negative_numbers() {
    let v = vec![-5, 0];
    assert_eq!(example_reference(&v), b"-5\n0\n".to_vec());
    assert_eq!(example_reference(&[]), b"".to_vec());
}
