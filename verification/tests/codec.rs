use todo_core::decode::{decode_collections, decode_tasks};
use todo_core::encode::{encode_collections, encode_tasks};
use todo_core::error::{DecodeError, Field};
use todo_core::record::{CollectionRecord, TaskRecord};

fn task(checked: bool, name: &str) -> TaskRecord {
    TaskRecord { checked, name: name.to_string() }
}

fn collection(title: &str, tasks: Vec<TaskRecord>) -> CollectionRecord {
    CollectionRecord { title: title.to_string(), tasks }
}

#[test]
fn two_collections_survive_encoding_and_decoding() {
    let stored = vec![
        collection("Home", vec![task(false, "Buy milk")]),
        collection("", vec![]),
    ];
    let text = encode_collections(&stored);
    let loaded = decode_collections(&text).unwrap();
    assert_eq!(loaded.len(), 2);
    assert_eq!(loaded[0].title, "Home");
    assert_eq!(loaded[0].tasks.len(), 1);
    assert_eq!(loaded[0].tasks[0].name, "Buy milk");
    assert!(!loaded[0].tasks[0].checked);
    assert_eq!(loaded[1].title, "");
    assert_eq!(loaded[1].tasks.len(), 0);
}

#[test]
fn collections_are_written_compactly_in_field_order() {
    let stored = vec![
        collection("Home", vec![task(false, "Buy milk")]),
        collection("", vec![]),
    ];
    let text = String::from_utf8(encode_collections(&stored)).unwrap();
    assert_eq!(
        text,
        "[{\"title\":\"Home\",\"tasks\":[{\"checked\":false,\"name\":\"Buy milk\"}]},{\"title\":\"\",\"tasks\":[]}]"
    );
}

#[test]
fn tasks_are_written_compactly_in_field_order() {
    let text = String::from_utf8(encode_tasks(&vec![task(true, "a"), task(false, "b")])).unwrap();
    assert_eq!(text, "[{\"checked\":true,\"name\":\"a\"},{\"checked\":false,\"name\":\"b\"}]");
}

#[test]
fn empty_lists_are_a_pair_of_brackets() {
    assert_eq!(encode_tasks(&vec![]), b"[]".to_vec());
    assert_eq!(encode_collections(&vec![]), b"[]".to_vec());
    assert_eq!(decode_tasks(b"[]"), Ok(vec![]));
    assert_eq!(decode_collections(b" [ ] \n"), Ok(vec![]));
}

#[test]
fn tasks_round_trip_in_order() {
    let tasks = vec![
        task(true, "first"),
        task(false, "second"),
        task(true, ""),
        task(true, "first"),
        task(false, "with \"quotes\" and \\ backslash"),
        task(false, "tab\tnewline\ncarriage\rbell\u{7}nul\u{0}del\u{7f}"),
        task(true, "Grüße, 世界 🦀"),
    ];
    let text = encode_tasks(&tasks);
    assert_eq!(decode_tasks(&text), Ok(tasks));
}

#[test]
fn collections_round_trip_with_nested_tasks() {
    let stored = vec![
        collection("", vec![]),
        collection("line\nbreak \u{1} \u{1f} \"q\"", vec![task(true, "x"), task(false, "y")]),
        collection("Ünïcödé", vec![task(false, "\u{8}\u{c}")]),
        collection("same", vec![]),
        collection("same", vec![task(true, "z")]),
    ];
    let text = encode_collections(&stored);
    assert_eq!(decode_collections(&text), Ok(stored));
}

#[test]
fn every_control_character_is_escaped_as_documented() {
    let mut name = String::new();
    for c in 0u8..0x20 {
        name.push(c as char);
    }
    let text = String::from_utf8(encode_tasks(&vec![task(false, &name)])).unwrap();
    let expected = "[{\"checked\":false,\"name\":\"\
        \\u0000\\u0001\\u0002\\u0003\\u0004\\u0005\\u0006\\u0007\\b\\t\\n\\u000b\\f\\r\\u000e\\u000f\
        \\u0010\\u0011\\u0012\\u0013\\u0014\\u0015\\u0016\\u0017\\u0018\\u0019\\u001a\\u001b\\u001c\\u001d\\u001e\\u001f\
        \"}]";
    assert_eq!(text, expected);
    assert_eq!(decode_tasks(text.as_bytes()), Ok(vec![task(false, &name)]));
}

#[test]
fn other_characters_stand_for_themselves() {
    let text = String::from_utf8(encode_tasks(&vec![task(false, "/ \u{7f} é \u{2028}")])).unwrap();
    assert_eq!(text, "[{\"checked\":false,\"name\":\"/ \u{7f} é \u{2028}\"}]");
    let text = encode_tasks(&vec![task(true, "🦀")]);
    assert_eq!(text, b"[{\"checked\":true,\"name\":\"\xf0\x9f\xa6\x80\"}]".to_vec());
}

#[test]
fn what_is_written_is_json_to_another_reader() {
    let stored = vec![collection("A \"b\"\n", vec![task(true, "c\\d")])];
    let text = encode_collections(&stored);
    let value: serde_json::Value = serde_json::from_slice(&text).unwrap();
    let first = &value.as_array().unwrap()[0];
    assert_eq!(first.as_object().unwrap().len(), 2);
    assert_eq!(first["title"].as_str(), Some("A \"b\"\n"));
    let tasks = first["tasks"].as_array().unwrap();
    assert_eq!(tasks.len(), 1);
    assert_eq!(tasks[0].as_object().unwrap().len(), 2);
    assert_eq!(tasks[0]["checked"].as_bool(), Some(true));
    assert_eq!(tasks[0]["name"].as_str(), Some("c\\d"));
}

#[test]
fn escapes_in_the_text_are_resolved() {
    let text = r#"[{"checked":true,"name":"a\nb\u0041\"\\\/\ud83e\udd80🦀"}]"#;
    assert_eq!(decode_tasks(text.as_bytes()), Ok(vec![task(true, "a\nbA\"\\/🦀🦀")]));
}

#[test]
fn escapes_in_field_names_are_resolved() {
    let text = br#"[{"\u0063hecked":true,"n\u0061me":"x"}]"#;
    assert_eq!(decode_tasks(text), Ok(vec![task(true, "x")]));
}

#[test]
fn blanks_between_tokens_are_passed() {
    let text = b" \t\r\n[ { \"name\" : \"x\" ,\n \"checked\" : true } , {\"checked\":false,\"name\":\"y\"} ] \n";
    assert_eq!(decode_tasks(text), Ok(vec![task(true, "x"), task(false, "y")]));
}

#[test]
fn fields_may_come_in_either_order() {
    let text = br#"[{"tasks":[{"name":"n","checked":true}],"title":"t"}]"#;
    assert_eq!(decode_collections(text), Ok(vec![collection("t", vec![task(true, "n")])]));
}

#[test]
fn task_without_checked_is_refused() {
    assert_eq!(
        decode_tasks(br#"[{"name":"x"}]"#),
        Err(DecodeError::MissingField(Field::Checked))
    );
}

#[test]
fn task_without_name_is_refused() {
    assert_eq!(
        decode_tasks(br#"[{"checked":true}]"#),
        Err(DecodeError::MissingField(Field::Name))
    );
}

#[test]
fn empty_record_misses_its_first_field() {
    assert_eq!(decode_tasks(b"[{}]"), Err(DecodeError::MissingField(Field::Checked)));
    assert_eq!(decode_collections(b"[{ }]"), Err(DecodeError::MissingField(Field::Title)));
}

#[test]
fn collection_without_a_field_is_refused() {
    assert_eq!(
        decode_collections(br#"[{"tasks":[]}]"#),
        Err(DecodeError::MissingField(Field::Title))
    );
    assert_eq!(
        decode_collections(br#"[{"title":"t"}]"#),
        Err(DecodeError::MissingField(Field::Tasks))
    );
}

#[test]
fn task_with_an_extra_field_is_refused() {
    let unknown = Err(DecodeError::UnknownField("extra".to_string()));
    assert_eq!(decode_tasks(br#"[{"checked":true,"name":"x","extra":1}]"#), unknown);
    assert_eq!(decode_tasks(br#"[{"extra":1,"checked":true,"name":"x"}]"#), unknown);
    assert_eq!(decode_tasks(br#"[{"checked":true,"extra":null,"name":"x"}]"#), unknown);
}

#[test]
fn collection_with_an_extra_field_is_refused() {
    assert_eq!(
        decode_collections(br#"[{"title":"t","tasks":[],"name":"x"}]"#),
        Err(DecodeError::UnknownField("name".to_string()))
    );
    assert_eq!(
        decode_collections(br#"[{"title":"t","tasks":[{"checked":true,"name":"x","title":"y"}]}]"#),
        Err(DecodeError::UnknownField("title".to_string()))
    );
}

#[test]
fn field_names_are_matched_exactly() {
    assert_eq!(
        decode_tasks(br#"[{"Checked":true,"name":"x"}]"#),
        Err(DecodeError::UnknownField("Checked".to_string()))
    );
    assert_eq!(
        decode_tasks(br#"[{"checked":true,"task_name":"x"}]"#),
        Err(DecodeError::UnknownField("task_name".to_string()))
    );
}

#[test]
fn a_field_given_twice_is_refused() {
    assert_eq!(
        decode_tasks(br#"[{"name":"a","name":"b"}]"#),
        Err(DecodeError::DuplicateField(Field::Name))
    );
    assert_eq!(
        decode_tasks(br#"[{"checked":true,"name":"a","checked":false}]"#),
        Err(DecodeError::DuplicateField(Field::Checked))
    );
    assert_eq!(
        decode_collections(br#"[{"title":"a","title":"b"}]"#),
        Err(DecodeError::DuplicateField(Field::Title))
    );
    assert_eq!(
        decode_collections(br#"[{"tasks":[],"tasks":[]}]"#),
        Err(DecodeError::DuplicateField(Field::Tasks))
    );
}

#[test]
fn values_of_the_wrong_type_are_refused() {
    assert_eq!(
        decode_tasks(br#"[{"checked":"yes","name":"x"}]"#),
        Err(DecodeError::WrongType(Field::Checked))
    );
    assert_eq!(
        decode_tasks(br#"[{"checked":1,"name":"x"}]"#),
        Err(DecodeError::WrongType(Field::Checked))
    );
    assert_eq!(
        decode_tasks(br#"[{"checked":true,"name":7}]"#),
        Err(DecodeError::WrongType(Field::Name))
    );
    assert_eq!(
        decode_collections(br#"[{"title":false,"tasks":[]}]"#),
        Err(DecodeError::WrongType(Field::Title))
    );
}

#[test]
fn what_is_no_list_is_refused() {
    assert_eq!(decode_tasks(b""), Err(DecodeError::NotAnArray));
    assert_eq!(decode_tasks(b"   "), Err(DecodeError::NotAnArray));
    assert_eq!(decode_tasks(br#"{"checked":true,"name":"x"}"#), Err(DecodeError::NotAnArray));
    assert_eq!(decode_collections(b"null"), Err(DecodeError::NotAnArray));
    assert_eq!(decode_collections(b"\"[]\""), Err(DecodeError::NotAnArray));
    assert_eq!(
        decode_collections(br#"[{"title":"t","tasks":{}}]"#),
        Err(DecodeError::NotAnArray)
    );
    assert_eq!(
        decode_collections(br#"[{"title":"t","tasks":"none"}]"#),
        Err(DecodeError::NotAnArray)
    );
}

#[test]
fn what_is_no_record_is_refused() {
    assert_eq!(decode_tasks(b"[1]"), Err(DecodeError::NotAnObject));
    assert_eq!(decode_tasks(b"[[]]"), Err(DecodeError::NotAnObject));
    assert_eq!(decode_tasks(b"[\"x\"]"), Err(DecodeError::NotAnObject));
    assert_eq!(decode_tasks(b"["), Err(DecodeError::NotAnObject));
    assert_eq!(
        decode_tasks(br#"[{"checked":true,"name":"x"},]"#),
        Err(DecodeError::NotAnObject)
    );
    assert_eq!(decode_collections(b"[true]"), Err(DecodeError::NotAnObject));
}

#[test]
fn broken_text_is_refused() {
    let broken: [&[u8]; 14] = [
        br#"[{"checked":true,"name":"x"}"#,
        br#"[{"checked":true,"name":"x"}] x"#,
        br#"[{"checked":true,"name":"x"}][]"#,
        br#"[{"checked":true,"name":"x"} {"checked":true,"name":"y"}]"#,
        br#"[{"checked":true "name":"x"}]"#,
        br#"[{"checked" true,"name":"x"}]"#,
        br#"[{"checked":true,"name":"x"]"#,
        br#"[{"checked":true,"name":"x}]"#,
        br#"[{"checked":true,"name":"x\"}]"#,
        br#"[{"checked":true,"name":"bad \q escape"}]"#,
        br#"[{"checked":true,"name":"\ud800"}]"#,
        br#"[{checked:true,"name":"x"}]"#,
        br#"[{"checked":true,}]"#,
        b"[{\"checked\":true,\"name\":\"raw\nnewline\"}]",
    ];
    for text in broken {
        assert_eq!(decode_tasks(text), Err(DecodeError::Malformed), "{:?}", text);
    }
}

#[test]
fn text_that_is_not_utf8_is_refused() {
    let text = b"[{\"checked\":true,\"name\":\"\xff\"}]";
    assert_eq!(decode_tasks(text), Err(DecodeError::Malformed));
}

#[test]
fn truth_values_are_spelled_out_in_lower_case() {
    assert_eq!(
        decode_tasks(br#"[{"checked":True,"name":"x"}]"#),
        Err(DecodeError::WrongType(Field::Checked))
    );
    assert_eq!(
        decode_tasks(br#"[{"checked":truely,"name":"x"}]"#),
        Err(DecodeError::Malformed)
    );
    assert_eq!(
        decode_tasks(br#"[{"checked":false,"name":"x"}]"#),
        Ok(vec![task(false, "x")])
    );
}

#[test]
fn errors_come_in_the_order_of_the_text() {
    assert_eq!(
        decode_tasks(br#"[{"checked":true,"name":"x"},{"extra":1},{"checked":1}]"#),
        Err(DecodeError::UnknownField("extra".to_string()))
    );
    assert_eq!(
        decode_tasks(br#"[{"checked":1,"extra":1}]"#),
        Err(DecodeError::WrongType(Field::Checked))
    );
    assert_eq!(
        decode_tasks(br#"[{"extra" 1}]"#),
        Err(DecodeError::UnknownField("extra".to_string()))
    );
}

#[test]
fn field_names_are_what_stands_in_the_text() {
    assert_eq!(Field::Title.name(), "title");
    assert_eq!(Field::Tasks.name(), "tasks");
    assert_eq!(Field::Checked.name(), "checked");
    assert_eq!(Field::Name.name(), "name");
}
