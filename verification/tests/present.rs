use todo_core::error::{DecodeError, Field};
use todo_core::present::{
    accepted_entry, stack_page, task_added_notice, task_deleted_notice, task_page_title,
    task_row_title,
};
use todo_core::text::same_text;

#[test]
fn an_entry_is_taken_without_the_white_space_around_it() {
    assert_eq!(accepted_entry("Buy milk"), Some("Buy milk"));
    assert_eq!(accepted_entry("  Buy milk \t\n"), Some("Buy milk"));
    assert_eq!(accepted_entry("\u{a0}a  b\u{2003}"), Some("a  b"));
    assert_eq!(accepted_entry("x"), Some("x"));
}

#[test]
fn an_entry_of_white_space_is_not_taken() {
    assert_eq!(accepted_entry(""), None);
    assert_eq!(accepted_entry("   "), None);
    assert_eq!(accepted_entry("\t\r\n \u{a0}"), None);
}

#[test]
fn a_done_task_is_struck_through() {
    assert_eq!(task_row_title("Buy milk", false), "Buy milk");
    assert_eq!(task_row_title("Buy milk", true), "<span strikethrough=\"true\">Buy milk</span>");
    assert_eq!(task_row_title("", true), "<span strikethrough=\"true\"></span>");
    assert_eq!(task_row_title("", false), "");
}

#[test]
fn the_page_names_the_selected_collection() {
    assert_eq!(task_page_title(None), "Tasks");
    assert_eq!(task_page_title(Some("Home")), "Tasks of Home");
    assert_eq!(task_page_title(Some("")), "Tasks of ");
}

#[test]
fn notices_name_the_task() {
    assert_eq!(task_added_notice("Buy milk"), "Task Added: Buy milk");
    assert_eq!(task_deleted_notice("Buy milk"), "Task Deleted: Buy milk");
}

#[test]
fn the_placeholder_is_shown_while_there_is_no_collection() {
    assert_eq!(stack_page(0), "placeholder");
    assert_eq!(stack_page(1), "main");
    assert_eq!(stack_page(usize::MAX), "main");
}

#[test]
fn texts_are_the_same_when_their_characters_are() {
    assert!(same_text("", ""));
    assert!(same_text("done", "done"));
    assert!(!same_text("done", "Done"));
    assert!(!same_text("done", "done "));
    assert!(!same_text("é", "e\u{301}"));
}

#[test]
fn errors_are_put_in_words() {
    assert_eq!(DecodeError::NotAnArray.message(), "expected a list");
    assert_eq!(DecodeError::NotAnObject.message(), "expected a record");
    assert_eq!(
        DecodeError::WrongType(Field::Checked).message(),
        "invalid type for field `checked`"
    );
    assert_eq!(DecodeError::MissingField(Field::Checked).message(), "missing field `checked`");
    assert_eq!(DecodeError::MissingField(Field::Tasks).message(), "missing field `tasks`");
    assert_eq!(
        DecodeError::UnknownField("extra".to_string()).message(),
        "unknown field `extra`"
    );
    assert_eq!(DecodeError::DuplicateField(Field::Title).message(), "duplicate field `title`");
    assert_eq!(DecodeError::DuplicateField(Field::Name).message(), "duplicate field `name`");
    assert_eq!(DecodeError::Malformed.message(), "malformed text");
}

#[test]
fn white_space_is_what_the_standard_library_calls_so() {
    let listed = |c: char| {
        let u = c as u32;
        (0x09..=0x0d).contains(&u)
            || u == 0x20
            || u == 0x85
            || u == 0xa0
            || u == 0x1680
            || (0x2000..=0x200a).contains(&u)
            || u == 0x2028
            || u == 0x2029
            || u == 0x202f
            || u == 0x205f
            || u == 0x3000
    };
    let mut text = String::new();
    for u in 0..=0x10ffffu32 {
        let Some(c) = char::from_u32(u) else { continue };
        text.clear();
        text.push(c);
        assert_eq!(accepted_entry(&text).is_none(), listed(c), "U+{:04X}", u);
        text.push('x');
        text.push(c);
        let kept = if listed(c) { "x" } else { text.as_str() };
        assert_eq!(accepted_entry(&text), Some(kept), "U+{:04X}", u);
    }
}
