//! The wire form of the records, in ghost code: the text that stands for a
//! record, and what a text is read as.
//!
//! The form is JSON. A task is an object with the fields `checked` and
//! `name`, a collection an object with the fields `title` and `tasks`, a list
//! an array. Text is written without blanks and in that order of fields;
//! reading allows blanks between tokens and either order. Every field stands
//! exactly once, and no other field is accepted.

use vstd::prelude::*;

use crate::error::{DecodeFault, Field};
use crate::literal::{
    bool_at, bool_literal, is_at, past_blanks, string_at, string_literal, QUOTE,
};
use crate::record::{CollectionModel, TaskModel};

verus! {

/// `{`
pub const OPEN_BRACE: u8 = 0x7b;

/// `}`
pub const CLOSE_BRACE: u8 = 0x7d;

/// `[`
pub const OPEN_BRACKET: u8 = 0x5b;

/// `]`
pub const CLOSE_BRACKET: u8 = 0x5d;

/// `,`
pub const COMMA: u8 = 0x2c;

/// `:`
pub const COLON: u8 = 0x3a;

/// A field of a record: its name, a colon, its value.
pub open spec fn field_text(field: Field, value: Seq<u8>) -> Seq<u8> {
    string_literal(field.key()) + seq![COLON] + value
}

/// The text of a task.
pub open spec fn task_text(t: TaskModel) -> Seq<u8> {
    seq![OPEN_BRACE] + field_text(Field::Checked, bool_literal(t.checked)) + seq![COMMA]
        + field_text(Field::Name, string_literal(t.name)) + seq![CLOSE_BRACE]
}

/// The texts of the tasks, in their order, with a comma between two.
pub open spec fn tasks_body(ts: Seq<TaskModel>) -> Seq<u8>
    decreases ts.len(),
{
    if ts.len() == 0 {
        Seq::empty()
    } else if ts.len() == 1 {
        task_text(ts[0])
    } else {
        task_text(ts[0]) + seq![COMMA] + tasks_body(ts.drop_first())
    }
}

/// The text of a list of tasks.
pub open spec fn tasks_text(ts: Seq<TaskModel>) -> Seq<u8> {
    seq![OPEN_BRACKET] + tasks_body(ts) + seq![CLOSE_BRACKET]
}

/// The text of a collection.
pub open spec fn collection_text(c: CollectionModel) -> Seq<u8> {
    seq![OPEN_BRACE] + field_text(Field::Title, string_literal(c.title)) + seq![COMMA]
        + field_text(Field::Tasks, tasks_text(c.tasks)) + seq![CLOSE_BRACE]
}

/// The texts of the collections, in their order, with a comma between two.
pub open spec fn collections_body(cs: Seq<CollectionModel>) -> Seq<u8>
    decreases cs.len(),
{
    if cs.len() == 0 {
        Seq::empty()
    } else if cs.len() == 1 {
        collection_text(cs[0])
    } else {
        collection_text(cs[0]) + seq![COMMA] + collections_body(cs.drop_first())
    }
}

/// The text of a list of collections: what is stored.
pub open spec fn collections_text(cs: Seq<CollectionModel>) -> Seq<u8> {
    seq![OPEN_BRACKET] + collections_body(cs) + seq![CLOSE_BRACKET]
}

/// The result of reading `value` from a text of length `len`.
pub open spec fn found<T>(value: T, len: nat) -> Result<(T, nat), DecodeFault> {
    Ok((value, len))
}

/// How much of `s` is left at index `i`.
pub open spec fn remaining(s: Seq<u8>, i: int) -> nat {
    if i < s.len() {
        (s.len() - i) as nat
    } else {
        0
    }
}

/// The index of the value behind a field's name that ends before index `k`:
/// past blanks, a colon and blanks. `None` where no colon stands there.
pub open spec fn after_colon(s: Seq<u8>, k: int) -> Option<int> {
    let c = past_blanks(s, k);
    if is_at(s, c, COLON) {
        Some(past_blanks(s, c + 1))
    } else {
        None
    }
}

/// The string that is the value of `field`, at index `v`, and its length.
pub open spec fn text_value_at(s: Seq<u8>, v: int, field: Field) -> Result<
    (Seq<char>, nat),
    DecodeFault,
> {
    if !is_at(s, v, QUOTE) {
        Err(DecodeFault::WrongType(field))
    } else {
        match string_at(s, v) {
            Some(found) => Ok(found),
            None => Err(DecodeFault::Malformed),
        }
    }
}

/// The fields of a task that have been read so far.
pub ghost struct TaskFields {
    pub checked: Option<bool>,
    pub name: Option<Seq<char>>,
}

impl TaskFields {
    /// No field has been read.
    pub open spec fn none() -> Self {
        TaskFields { checked: None, name: None }
    }

    /// The task, where both fields have been read; else the first that is
    /// missing.
    pub open spec fn done(self) -> Result<TaskModel, DecodeFault> {
        match (self.checked, self.name) {
            (None, _) => Err(DecodeFault::MissingField(Field::Checked)),
            (Some(_), None) => Err(DecodeFault::MissingField(Field::Name)),
            (Some(checked), Some(name)) => Ok(TaskModel { checked, name }),
        }
    }
}

/// One field of a task at index `i`: the fields read when it has been taken
/// in, and its length. A name that no field of a task has is refused before
/// anything behind it is looked at; so is a field that has been read before.
pub open spec fn task_entry_at(s: Seq<u8>, i: int, seen: TaskFields) -> Result<
    (TaskFields, nat),
    DecodeFault,
> {
    match string_at(s, i) {
        None => Err(DecodeFault::Malformed),
        Some((key, n)) => {
            if key == Field::Checked.key() {
                if seen.checked is Some {
                    Err(DecodeFault::DuplicateField(Field::Checked))
                } else {
                    match after_colon(s, i + n) {
                        None => Err(DecodeFault::Malformed),
                        Some(v) => match bool_at(s, v) {
                            None => Err(DecodeFault::WrongType(Field::Checked)),
                            Some((b, len)) => Ok(
                                (TaskFields { checked: Some(b), ..seen }, (v + len - i) as nat),
                            ),
                        },
                    }
                }
            } else if key == Field::Name.key() {
                if seen.name is Some {
                    Err(DecodeFault::DuplicateField(Field::Name))
                } else {
                    match after_colon(s, i + n) {
                        None => Err(DecodeFault::Malformed),
                        Some(v) => match text_value_at(s, v, Field::Name) {
                            Err(e) => Err(e),
                            Ok((t, len)) => Ok(
                                (TaskFields { name: Some(t), ..seen }, (v + len - i) as nat),
                            ),
                        },
                    }
                }
            } else {
                Err(DecodeFault::UnknownField(key))
            }
        },
    }
}

/// The fields of a task from index `i` on, up to the brace that closes the
/// task, which began at `start`: the task and its length.
pub open spec fn task_entries(s: Seq<u8>, start: int, i: int, seen: TaskFields) -> Result<
    (TaskModel, nat),
    DecodeFault,
>
    decreases remaining(s, i),
{
    match task_entry_at(s, i, seen) {
        Err(e) => Err(e),
        Ok((seen, n)) => {
            let m = past_blanks(s, i + n);
            if is_at(s, m, COMMA) {
                task_entries(s, start, past_blanks(s, m + 1), seen)
            } else if is_at(s, m, CLOSE_BRACE) {
                match seen.done() {
                    Ok(t) => Ok((t, (m + 1 - start) as nat)),
                    Err(e) => Err(e),
                }
            } else {
                Err(DecodeFault::Malformed)
            }
        },
    }
}

/// The task whose text begins at index `i`, and the length of the text.
pub open spec fn task_at(s: Seq<u8>, i: int) -> Result<(TaskModel, nat), DecodeFault> {
    if !is_at(s, i, OPEN_BRACE) {
        Err(DecodeFault::NotAnObject)
    } else {
        let j = past_blanks(s, i + 1);
        if is_at(s, j, CLOSE_BRACE) {
            Err(DecodeFault::MissingField(Field::Checked))
        } else {
            task_entries(s, i, j, TaskFields::none())
        }
    }
}

/// The tasks from index `i` on, up to the bracket that closes the list,
/// which began at `start`, behind those of `before`.
pub open spec fn task_elements(s: Seq<u8>, start: int, i: int, before: Seq<TaskModel>) -> Result<
    (Seq<TaskModel>, nat),
    DecodeFault,
>
    decreases remaining(s, i),
{
    match task_at(s, i) {
        Err(e) => Err(e),
        Ok((t, n)) => {
            let m = past_blanks(s, i + n);
            if is_at(s, m, COMMA) {
                task_elements(s, start, past_blanks(s, m + 1), before.push(t))
            } else if is_at(s, m, CLOSE_BRACKET) {
                Ok((before.push(t), (m + 1 - start) as nat))
            } else {
                Err(DecodeFault::Malformed)
            }
        },
    }
}

/// The list of tasks whose text begins at index `i`, and the length of the
/// text.
pub open spec fn tasks_at(s: Seq<u8>, i: int) -> Result<(Seq<TaskModel>, nat), DecodeFault> {
    if !is_at(s, i, OPEN_BRACKET) {
        Err(DecodeFault::NotAnArray)
    } else {
        let j = past_blanks(s, i + 1);
        if is_at(s, j, CLOSE_BRACKET) {
            Ok((Seq::empty(), (j + 1 - i) as nat))
        } else {
            task_elements(s, i, j, Seq::empty())
        }
    }
}

/// The fields of a collection that have been read so far.
pub ghost struct CollectionFields {
    pub title: Option<Seq<char>>,
    pub tasks: Option<Seq<TaskModel>>,
}

impl CollectionFields {
    /// No field has been read.
    pub open spec fn none() -> Self {
        CollectionFields { title: None, tasks: None }
    }

    /// The collection, where both fields have been read; else the first that
    /// is missing.
    pub open spec fn done(self) -> Result<CollectionModel, DecodeFault> {
        match (self.title, self.tasks) {
            (None, _) => Err(DecodeFault::MissingField(Field::Title)),
            (Some(_), None) => Err(DecodeFault::MissingField(Field::Tasks)),
            (Some(title), Some(tasks)) => Ok(CollectionModel { title, tasks }),
        }
    }
}

/// One field of a collection at index `i`: the fields read when it has been
/// taken in, and its length.
pub open spec fn collection_entry_at(s: Seq<u8>, i: int, seen: CollectionFields) -> Result<
    (CollectionFields, nat),
    DecodeFault,
> {
    match string_at(s, i) {
        None => Err(DecodeFault::Malformed),
        Some((key, n)) => {
            if key == Field::Title.key() {
                if seen.title is Some {
                    Err(DecodeFault::DuplicateField(Field::Title))
                } else {
                    match after_colon(s, i + n) {
                        None => Err(DecodeFault::Malformed),
                        Some(v) => match text_value_at(s, v, Field::Title) {
                            Err(e) => Err(e),
                            Ok((t, len)) => Ok(
                                (CollectionFields { title: Some(t), ..seen }, (v + len - i) as nat),
                            ),
                        },
                    }
                }
            } else if key == Field::Tasks.key() {
                if seen.tasks is Some {
                    Err(DecodeFault::DuplicateField(Field::Tasks))
                } else {
                    match after_colon(s, i + n) {
                        None => Err(DecodeFault::Malformed),
                        Some(v) => match tasks_at(s, v) {
                            Err(e) => Err(e),
                            Ok((ts, len)) => Ok(
                                (
                                    CollectionFields { tasks: Some(ts), ..seen },
                                    (v + len - i) as nat,
                                ),
                            ),
                        },
                    }
                }
            } else {
                Err(DecodeFault::UnknownField(key))
            }
        },
    }
}

/// The fields of a collection from index `i` on, up to the brace that closes
/// the collection, which began at `start`.
pub open spec fn collection_entries(
    s: Seq<u8>,
    start: int,
    i: int,
    seen: CollectionFields,
) -> Result<(CollectionModel, nat), DecodeFault>
    decreases remaining(s, i),
{
    match collection_entry_at(s, i, seen) {
        Err(e) => Err(e),
        Ok((seen, n)) => {
            let m = past_blanks(s, i + n);
            if is_at(s, m, COMMA) {
                collection_entries(s, start, past_blanks(s, m + 1), seen)
            } else if is_at(s, m, CLOSE_BRACE) {
                match seen.done() {
                    Ok(c) => Ok((c, (m + 1 - start) as nat)),
                    Err(e) => Err(e),
                }
            } else {
                Err(DecodeFault::Malformed)
            }
        },
    }
}

/// The collection whose text begins at index `i`, and the length of the
/// text.
pub open spec fn collection_at(s: Seq<u8>, i: int) -> Result<(CollectionModel, nat), DecodeFault> {
    if !is_at(s, i, OPEN_BRACE) {
        Err(DecodeFault::NotAnObject)
    } else {
        let j = past_blanks(s, i + 1);
        if is_at(s, j, CLOSE_BRACE) {
            Err(DecodeFault::MissingField(Field::Title))
        } else {
            collection_entries(s, i, j, CollectionFields::none())
        }
    }
}

/// The collections from index `i` on, up to the bracket that closes the
/// list, which began at `start`, behind those of `before`.
pub open spec fn collection_elements(
    s: Seq<u8>,
    start: int,
    i: int,
    before: Seq<CollectionModel>,
) -> Result<(Seq<CollectionModel>, nat), DecodeFault>
    decreases remaining(s, i),
{
    match collection_at(s, i) {
        Err(e) => Err(e),
        Ok((c, n)) => {
            let m = past_blanks(s, i + n);
            if is_at(s, m, COMMA) {
                collection_elements(s, start, past_blanks(s, m + 1), before.push(c))
            } else if is_at(s, m, CLOSE_BRACKET) {
                Ok((before.push(c), (m + 1 - start) as nat))
            } else {
                Err(DecodeFault::Malformed)
            }
        },
    }
}

/// The list of collections whose text begins at index `i`, and the length of
/// the text.
pub open spec fn collections_at(s: Seq<u8>, i: int) -> Result<
    (Seq<CollectionModel>, nat),
    DecodeFault,
> {
    if !is_at(s, i, OPEN_BRACKET) {
        Err(DecodeFault::NotAnArray)
    } else {
        let j = past_blanks(s, i + 1);
        if is_at(s, j, CLOSE_BRACKET) {
            Ok((Seq::empty(), (j + 1 - i) as nat))
        } else {
            collection_elements(s, i, j, Seq::empty())
        }
    }
}

/// What the whole of `s` is read as, where it is to hold a list of tasks:
/// blanks, the list, blanks, and nothing more.
pub open spec fn decoded_tasks(s: Seq<u8>) -> Result<Seq<TaskModel>, DecodeFault> {
    let i = past_blanks(s, 0);
    match tasks_at(s, i) {
        Err(e) => Err(e),
        Ok((ts, n)) => if past_blanks(s, i + n) == s.len() {
            Ok(ts)
        } else {
            Err(DecodeFault::Malformed)
        },
    }
}

/// What the whole of `s` is read as, where it is to hold a list of
/// collections: blanks, the list, blanks, and nothing more.
pub open spec fn decoded_collections(s: Seq<u8>) -> Result<Seq<CollectionModel>, DecodeFault> {
    let i = past_blanks(s, 0);
    match collections_at(s, i) {
        Err(e) => Err(e),
        Ok((cs, n)) => if past_blanks(s, i + n) == s.len() {
            Ok(cs)
        } else {
            Err(DecodeFault::Malformed)
        },
    }
}

} // verus!
