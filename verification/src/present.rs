//! What the window shows: the texts that are made from the names of tasks
//! and collections, and the rule for what may be entered as a name.

use vstd::prelude::*;
use vstd::string::StringExecFns;

use crate::text::{trim, trimmed};

verus! {

/// The name that an entry gives: the text without the white space around
/// it, or nothing where no more than white space was entered.
pub open spec fn entered_name(text: Seq<char>) -> Option<Seq<char>> {
    if trimmed(text).len() == 0 {
        None
    } else {
        Some(trimmed(text))
    }
}

/// The name that an entry gives: the text without the white space around
/// it, or `None` where no more than white space was entered.
pub fn accepted_entry(text: &str) -> (name: Option<&str>)
    ensures
        match entered_name(text@) {
            Some(n) => name matches Some(found) && found@ == n,
            None => name is None,
        },
{
    let name = trim(text);
    if name.is_empty() {
        None
    } else {
        Some(name)
    }
}

/// The title of a task's row: the name, struck through where the task is
/// done.
pub open spec fn row_title(name: Seq<char>, done: bool) -> Seq<char> {
    if done {
        "<span strikethrough=\"true\">"@ + name + "</span>"@
    } else {
        name
    }
}

/// The title of a task's row: the name, struck through where the task is
/// done.
pub fn task_row_title(name: &str, done: bool) -> (title: String)
    ensures
        title@ == row_title(name@, done),
{
    if done {
        let mut title = String::from_str("<span strikethrough=\"true\">");
        title.append(name);
        title.append("</span>");
        title
    } else {
        String::from_str(name)
    }
}

/// The title of the page of tasks: it names the collection that is
/// selected, where one is.
pub open spec fn page_title(collection: Option<Seq<char>>) -> Seq<char> {
    match collection {
        Some(title) => "Tasks of "@ + title,
        None => "Tasks"@,
    }
}

/// The title of the page of tasks: it names the collection that is
/// selected, where one is.
pub fn task_page_title(collection: Option<&str>) -> (title: String)
    ensures
        title@ == page_title(
            match collection {
                Some(t) => Some(t@),
                None => None,
            },
        ),
{
    match collection {
        Some(name) => {
            let mut title = String::from_str("Tasks of ");
            title.append(name);
            title
        },
        None => String::from_str("Tasks"),
    }
}

/// The notice that a task was added.
pub fn task_added_notice(name: &str) -> (notice: String)
    ensures
        notice@ == "Task Added: "@ + name@,
{
    let mut notice = String::from_str("Task Added: ");
    notice.append(name);
    notice
}

/// The notice that a task was deleted.
pub fn task_deleted_notice(name: &str) -> (notice: String)
    ensures
        notice@ == "Task Deleted: "@ + name@,
{
    let mut notice = String::from_str("Task Deleted: ");
    notice.append(name);
    notice
}

/// The page that the window shows: a placeholder while there is no
/// collection, the lists as soon as there is one.
pub fn stack_page(collections: usize) -> (page: &'static str)
    ensures
        page@ == if collections == 0 {
            "placeholder"@
        } else {
            "main"@
        },
{
    if collections == 0 {
        "placeholder"
    } else {
        "main"
    }
}

} // verus!
