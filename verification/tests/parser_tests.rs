use myjson::parser::ParserData;

#[test]
fn get_data_test() {
    let uat = ParserData {
        data: ".",
        curr_pos: 0,
    };

    let ans = uat.get_data();
    assert_eq!(".", ans);
}

#[test]
fn consume_whitespace_test() {
    let mut uat = ParserData {
        data: "           .",
        curr_pos: 0,
    };

    uat.consume_white_space();
    let ans = uat.get_data();
    assert_eq!(".", ans);
}

#[test]
fn consume_dot_test() {
    let mut uat = ParserData {
        data: ".#",
        curr_pos: 0,
    };

    uat.consume(".");
    let ans = uat.get_data();
    assert_eq!("#", ans);
}

#[test]
fn is_digits() {
    let mut uat = ParserData {
        data: "0",
        curr_pos: 0,
    };

    assert_eq!(true, uat.is_digit());
    uat.data = "9";
    assert_eq!(true, uat.is_digit());
    uat.data = "a";
    assert_eq!(false, uat.is_digit());
    uat.data = "-9";
    assert_eq!(true, uat.is_digit());
    uat.data = "-9.01";
    assert_eq!(true, uat.is_digit());
}

#[test]
fn parse_quoted_string_test() {
    let mut uat = ParserData {
        data: "\"key:\"",
        curr_pos: 0,
    };

    let ans = uat.parse_qouted_string();

    assert_eq!(r##"key:"##, ans);
}

#[test]
fn parse_key_test() {
    let mut uat = ParserData {
        data: "\"key:\": value",
        curr_pos: 0,
    };

    let ans = uat.parse_qouted_string();

    assert_eq!("key:", ans);
}

#[test]
fn parse_number_test() {
    let mut uat = ParserData {
        data: " 123.45 ",
        curr_pos: 0,
    };

    let ans = uat.parse_number();

    assert_eq!("123.45", ans);
}

#[test]
fn parse_value_test() {
    let mut uat = ParserData {
        data: " 123.45 ",
        curr_pos: 0,
    };

    let ans = uat.parse_value();

    assert_eq!("123.45", ans.unwrap().str_value);
}

#[test]
fn parse_array_test() {
    let mut uat = ParserData {
        data: "\"arr\": [1, 2, 3, 4, 5, -6]",
        curr_pos: 0,
    };
    let ans = uat.parse_array();
    match ans {
        Some(v) => {
            assert_eq!("1", v.arr[0].str_value);
            assert_eq!("-6", v.arr[5].str_value);
        }
        None => {
            assert!(false)
        }
    }
}

#[test]
fn parse_array_of_strings_test() {
    let mut uat = ParserData {
        data: "\"arr\": [\"1, 2, 3\", \"4, 5, -6\"]",
        curr_pos: 0,
    };
    let ans = uat.parse_array();
    match ans {
        Some(v) => {
            assert_eq!(r##"1, 2, 3"##, v.arr[0].str_value);
            assert_eq!(r##"4, 5, -6"##, v.arr[1].str_value);
        }
        None => {
            assert!(false)
        }
    }
}

#[test]
fn parse_object_test() {
    let mut uat = ParserData {
        data: " {\"plura\": [1,2,3,4,5,6] }",
        curr_pos: 0,
    };
    let ans = uat.parse_value();
    match ans {
        Some(v) => {
            assert_eq!("plura", v.object[0].0);
        }
        None => {
            assert!(false)
        }
    }
}

#[test]
fn parse_objects_test() {
    let mut uat = ParserData {
        data: " {\"plura\": [1,2,3,4,5,6], \"mupp\": \"2-4\" }",
        curr_pos: 0,
    };
    let ans = uat.parse_value();
    match ans {
        Some(v) => {
            assert_eq!("plura", v.object[0].0);
        }
        None => {
            assert!(false)
        }
    }
}
