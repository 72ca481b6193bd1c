use myjson::parser::ParserData;
use myjson::value::JType;

fn at(data: &str) -> ParserData<'_> {
    ParserData { data, curr_pos: 0 }
}

#[test]
fn whitespace_mix_lands_on_first_significant_char() {
    let mut uat = at(" \t\n\r .");
    uat.consume_white_space();
    assert_eq!(5, uat.curr_pos);
    assert_eq!(".", uat.get_data());
}

#[test]
fn whitespace_only_input_stops_at_end() {
    let mut uat = at("   ");
    uat.consume_white_space();
    assert_eq!(3, uat.curr_pos);
}

#[test]
fn quoted_string_round_trip() {
    let mut uat = at("\"abc\"");
    let ans = uat.parse_qouted_string();
    assert_eq!("abc", ans);
    assert_eq!(5, uat.curr_pos);
}

#[test]
fn escaped_quote_kept_verbatim() {
    let mut uat = at("\"a\\\"b\"");
    let ans = uat.parse_qouted_string();
    assert_eq!("a\\\"b", ans);
    assert_eq!(6, uat.curr_pos);
}

#[test]
fn escaped_backslash_then_quote_closes() {
    let mut uat = at("\"a\\\\\" rest");
    let ans = uat.parse_qouted_string();
    assert_eq!("a\\\\", ans);
    assert_eq!(5, uat.curr_pos);
}

#[test]
fn unterminated_string_fails_without_moving() {
    let mut uat = at(" \"abc");
    let ans = uat.parse_qouted_string();
    assert_eq!("", ans);
    assert_eq!(1, uat.curr_pos);
}

#[test]
fn string_value_failure_is_none() {
    let mut uat = at("\"abc");
    assert!(uat.parse_value().is_none());
}

#[test]
fn number_capture_stops_at_terminator() {
    let mut uat = at("123.45 x");
    let v = uat.parse_value().unwrap();
    assert_eq!(JType::JNumber, v.jtype);
    assert_eq!("123.45", v.str_value);
    assert_eq!(6, uat.curr_pos);
}

#[test]
fn negative_number_at_end_of_input() {
    let mut uat = at("-9");
    let v = uat.parse_value().unwrap();
    assert_eq!(JType::JNumber, v.jtype);
    assert_eq!("-9", v.str_value);
    assert_eq!(2, uat.curr_pos);
}

#[test]
fn number_capture_is_verbatim_and_unvalidated() {
    let mut uat = at("1.2.3,");
    let v = uat.parse_value().unwrap();
    assert_eq!("1.2.3", v.str_value);
}

#[test]
fn array_order_and_count() {
    let mut uat = at("[1, 2, 3, 4, 5, -6]");
    let v = uat.parse_value().unwrap();
    assert_eq!(JType::JArray, v.jtype);
    assert_eq!(6, v.arr.len());
    assert_eq!("1", v.arr[0].str_value);
    assert_eq!("2", v.arr[1].str_value);
    assert_eq!("3", v.arr[2].str_value);
    assert_eq!("4", v.arr[3].str_value);
    assert_eq!("5", v.arr[4].str_value);
    assert_eq!("-6", v.arr[5].str_value);
    for e in &v.arr {
        assert_eq!(JType::JNumber, e.jtype);
    }
}

#[test]
fn array_of_strings_keeps_commas_inside_quotes() {
    let mut uat = at("[\"1, 2, 3\", \"4, 5, -6\"]");
    let v = uat.parse_value().unwrap();
    assert_eq!(2, v.arr.len());
    assert_eq!(JType::JString, v.arr[0].jtype);
    assert_eq!("1, 2, 3", v.arr[0].str_value);
    assert_eq!("4, 5, -6", v.arr[1].str_value);
}

#[test]
fn array_without_label_parses_directly() {
    let mut uat = at("[7]");
    let v = uat.parse_array().unwrap();
    assert_eq!(1, v.arr.len());
    assert_eq!("7", v.arr[0].str_value);
}

#[test]
fn array_label_is_discarded() {
    let mut uat = at("\"arr\": [7]");
    let v = uat.parse_array().unwrap();
    assert_eq!(JType::JArray, v.jtype);
    assert_eq!("", v.str_value);
    assert_eq!(1, v.arr.len());
}

#[test]
fn empty_array_parses() {
    let mut uat = at("[ ]");
    let v = uat.parse_value().unwrap();
    assert_eq!(JType::JArray, v.jtype);
    assert_eq!(0, v.arr.len());
}

#[test]
fn array_missing_comma_fails() {
    let mut uat = at("[1 2]");
    assert!(uat.parse_value().is_none());
}

#[test]
fn array_trailing_comma_fails() {
    let mut uat = at("[1,]");
    assert!(uat.parse_value().is_none());
}

#[test]
fn unterminated_array_fails() {
    let mut uat = at("[1, 2");
    assert!(uat.parse_value().is_none());
}

#[test]
fn object_single_key_maps_to_number_array() {
    let mut uat = at("{\"plura\": [1,2,3,4,5,6]}");
    let v = uat.parse_value().unwrap();
    assert_eq!(JType::JObject, v.jtype);
    assert_eq!(1, v.object.len());
    assert_eq!("plura", v.object[0].0);
    let inner = &v.object[0].1;
    assert_eq!(JType::JArray, inner.jtype);
    assert_eq!(6, inner.arr.len());
    assert_eq!("1", inner.arr[0].str_value);
    assert_eq!("6", inner.arr[5].str_value);
    for e in &inner.arr {
        assert_eq!(JType::JNumber, e.jtype);
    }
}

#[test]
fn object_two_keys_typed_values() {
    let mut uat = at("{\"plura\": [1,2,3,4,5,6], \"mupp\": \"2-4\"}");
    let v = uat.parse_value().unwrap();
    assert_eq!(2, v.object.len());
    assert_eq!("plura", v.object[0].0);
    assert_eq!(JType::JArray, v.object[0].1.jtype);
    assert_eq!("mupp", v.object[1].0);
    assert_eq!(JType::JString, v.object[1].1.jtype);
    assert_eq!("2-4", v.object[1].1.str_value);
}

#[test]
fn empty_object_is_a_value_not_a_failure() {
    let mut uat = at("{}");
    let v = uat.parse_value().unwrap();
    assert_eq!(JType::JObject, v.jtype);
    assert_eq!(0, v.object.len());
}

#[test]
fn duplicate_key_overwrites_in_place() {
    let mut uat = at("{\"a\": 1, \"a\": 2}");
    let v = uat.parse_value().unwrap();
    assert_eq!(1, v.object.len());
    assert_eq!("a", v.object[0].0);
    assert_eq!("2", v.object[0].1.str_value);
}

#[test]
fn empty_key_is_a_key() {
    let mut uat = at("{\"\": 5}");
    let v = uat.parse_value().unwrap();
    assert_eq!(1, v.object.len());
    assert_eq!("", v.object[0].0);
    assert_eq!("5", v.object[0].1.str_value);
}

#[test]
fn object_missing_colon_fails() {
    let mut uat = at("{\"a\" 1}");
    assert!(uat.parse_value().is_none());
}

#[test]
fn object_trailing_comma_fails() {
    let mut uat = at("{\"a\": 1,}");
    assert!(uat.parse_value().is_none());
}

#[test]
fn unterminated_object_fails() {
    let mut uat = at("{\"a\": 1");
    assert!(uat.parse_value().is_none());
}

#[test]
fn object_unquoted_key_fails() {
    let mut uat = at("{a: 1}");
    assert!(uat.parse_value().is_none());
}

#[test]
fn nested_containers() {
    let mut uat = at("{\"a\": {\"b\": [1, [2, 3]]}}");
    let v = uat.parse_value().unwrap();
    let inner = &v.object[0].1;
    assert_eq!(JType::JObject, inner.jtype);
    assert_eq!("b", inner.object[0].0);
    let arr = &inner.object[0].1;
    assert_eq!(JType::JArray, arr.jtype);
    assert_eq!("1", arr.arr[0].str_value);
    assert_eq!(JType::JArray, arr.arr[1].jtype);
    assert_eq!("2", arr.arr[1].arr[0].str_value);
    assert_eq!("3", arr.arr[1].arr[1].str_value);
}

#[test]
fn bad_start_character_fails_not_crashes() {
    let mut uat = at("#foo");
    assert!(uat.parse_value().is_none());
    let mut uat2 = at("  ]");
    assert!(uat2.parse_value().is_none());
    let mut uat3 = at("xyz");
    assert!(uat3.parse_value().is_none());
}

#[test]
fn empty_and_blank_input_fail() {
    let mut uat = at("");
    assert!(uat.parse_value().is_none());
    let mut uat2 = at("   ");
    assert!(uat2.parse_value().is_none());
}

#[test]
fn parsing_twice_gives_structurally_equal_trees() {
    let text = " {\"plura\": [1,2,3], \"mupp\": \"2-4\"} ";
    let mut first = at(text);
    let mut second = at(text);
    let a = first.parse_value().unwrap();
    let b = second.parse_value().unwrap();
    assert_eq!(first.curr_pos, second.curr_pos);
    assert_eq!(a.jtype, b.jtype);
    assert_eq!(a.object.len(), b.object.len());
    for k in 0..a.object.len() {
        assert_eq!(a.object[k].0, b.object[k].0);
        assert_eq!(a.object[k].1.jtype, b.object[k].1.jtype);
        assert_eq!(a.object[k].1.str_value, b.object[k].1.str_value);
        assert_eq!(a.object[k].1.arr.len(), b.object[k].1.arr.len());
        for m in 0..a.object[k].1.arr.len() {
            assert_eq!(a.object[k].1.arr[m].str_value, b.object[k].1.arr[m].str_value);
        }
    }
}

#[test]
fn consume_advances_by_token_length_clamped() {
    let mut uat = at("a#");
    assert!(uat.consume("ab"));
    assert_eq!(2, uat.curr_pos);
    let mut uat2 = at("a");
    assert!(uat2.consume("abc"));
    assert_eq!(1, uat2.curr_pos);
}

#[test]
fn consume_compares_only_the_first_character() {
    let mut uat = at("ax");
    assert!(uat.consume("ab"));
    let mut uat2 = at("bx");
    assert!(!uat2.consume("ab"));
    assert_eq!(0, uat2.curr_pos);
}

#[test]
fn consume_at_end_of_input_fails() {
    let mut uat = at("");
    assert!(!uat.consume("."));
    assert_eq!(0, uat.curr_pos);
}

#[test]
fn peek_looks_ahead_without_moving() {
    let mut uat = at("[1]");
    assert!(uat.peek("[", 0));
    assert!(uat.peek("]", 2));
    assert!(!uat.peek("]", 1));
    assert_eq!(0, uat.curr_pos);
}

#[test]
fn value_with_leading_whitespace_parses() {
    let mut uat = at("\n\t {\"k\": \"v\"}");
    let v = uat.parse_value().unwrap();
    assert_eq!(JType::JObject, v.jtype);
    assert_eq!("v", v.object[0].1.str_value);
}

#[test]
fn number_parse_on_non_number_captures_nothing() {
    let mut uat = at("abc");
    let ans = uat.parse_number();
    assert_eq!("", ans);
    assert_eq!(0, uat.curr_pos);
}
