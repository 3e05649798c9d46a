//! Reading records from their wire form.
//!
//! Each function here returns exactly what [`crate::wire`] says of the same
//! bytes: the same records in the same order, or the same error.

use vstd::prelude::*;

use crate::error::{DecodeError, DecodeFault, Field};
use crate::literal::{read_bool, read_string, skip_blanks, QUOTE};
use crate::record::{CollectionModel, CollectionRecord, TaskModel, TaskRecord};
use crate::wire::{
    after_colon, collection_at, collection_elements, collection_entries, collection_entry_at,
    collections_at, decoded_collections, decoded_tasks, task_at, task_elements, task_entries,
    task_entry_at, tasks_at, text_value_at, CollectionFields, TaskFields, CLOSE_BRACE,
    CLOSE_BRACKET, COLON, COMMA, OPEN_BRACE, OPEN_BRACKET,
};

verus! {

/// What was read from index `i` on is what the wire form `m` says: the same
/// value ending at the same place, or the same error.
pub open spec fn agrees<T: DeepView>(
    r: Result<(T, usize), DecodeError>,
    i: int,
    m: Result<(T::V, nat), DecodeFault>,
) -> bool {
    match (r, m) {
        (Ok((x, end)), Ok((y, n))) => x.deep_view() == y && end == i + n,
        (Err(e), Err(f)) => e@ == f,
        _ => false,
    }
}

/// What was read from a whole text is what the wire form `m` says.
pub open spec fn agrees_whole<T: DeepView>(
    r: Result<T, DecodeError>,
    m: Result<T::V, DecodeFault>,
) -> bool {
    match (r, m) {
        (Ok(x), Ok(y)) => x.deep_view() == y,
        (Err(e), Err(f)) => e@ == f,
        _ => false,
    }
}

/// A string that may be there, as the contracts see it.
pub open spec fn text_of(o: Option<String>) -> Option<Seq<char>> {
    match o {
        Some(t) => Some(t@),
        None => None,
    }
}

/// A list of tasks that may be there, as the contracts see it.
pub open spec fn tasks_of(o: Option<Vec<TaskRecord>>) -> Option<Seq<TaskModel>> {
    match o {
        Some(ts) => Some(ts.deep_view()),
        None => None,
    }
}

fn is_key(key: &String, field: Field) -> (r: bool)
    ensures
        r == (key@ == field.key()),
{
    let name = field.name().to_owned();
    *key == name
}

fn skip_colon(s: &[u8], k: usize) -> (r: Option<usize>)
    requires
        k <= s@.len(),
    ensures
        match after_colon(s@, k as int) {
            Some(v) => r matches Some(found) && found == v && k < v <= s@.len(),
            None => r is None,
        },
{
    let c = skip_blanks(s, k);
    if c < s.len() && s[c] == COLON {
        Some(skip_blanks(s, c + 1))
    } else {
        None
    }
}

fn read_text_value(s: &[u8], v: usize, field: Field) -> (r: Result<(String, usize), DecodeError>)
    requires
        v <= s@.len(),
    ensures
        agrees(r, v as int, text_value_at(s@, v as int, field)),
        r matches Ok((_, end)) ==> v < end <= s@.len(),
{
    if !(v < s.len() && s[v] == QUOTE) {
        return Err(DecodeError::WrongType(field));
    }
    match read_string(s, v) {
        Some(found) => Ok(found),
        None => Err(DecodeError::Malformed),
    }
}

fn read_task_entry(s: &[u8], i: usize, checked: Option<bool>, name: Option<String>) -> (r: Result<
    (Option<bool>, Option<String>, usize),
    DecodeError,
>)
    requires
        i <= s@.len(),
    ensures
        match task_entry_at(s@, i as int, TaskFields { checked, name: text_of(name) }) {
            Ok((seen, n)) => r matches Ok((c, t, end)) && seen == (TaskFields {
                checked: c,
                name: text_of(t),
            }) && end == i + n && i < end <= s@.len(),
            Err(f) => r matches Err(e) && e@ == f,
        },
{
    let (key, k) = match read_string(s, i) {
        Some(found) => found,
        None => {
            return Err(DecodeError::Malformed);
        },
    };
    if is_key(&key, Field::Checked) {
        if checked.is_some() {
            return Err(DecodeError::DuplicateField(Field::Checked));
        }
        let v = match skip_colon(s, k) {
            Some(v) => v,
            None => {
                return Err(DecodeError::Malformed);
            },
        };
        match read_bool(s, v) {
            Some((b, end)) => Ok((Some(b), name, end)),
            None => Err(DecodeError::WrongType(Field::Checked)),
        }
    } else if is_key(&key, Field::Name) {
        if name.is_some() {
            return Err(DecodeError::DuplicateField(Field::Name));
        }
        let v = match skip_colon(s, k) {
            Some(v) => v,
            None => {
                return Err(DecodeError::Malformed);
            },
        };
        match read_text_value(s, v, Field::Name) {
            Ok((t, end)) => Ok((checked, Some(t), end)),
            Err(e) => Err(e),
        }
    } else {
        Err(DecodeError::UnknownField(key))
    }
}

/// Reads the task whose text begins at `start`, and says where the text
/// ends.
pub fn read_task(s: &[u8], start: usize) -> (r: Result<(TaskRecord, usize), DecodeError>)
    requires
        start <= s@.len(),
    ensures
        agrees(r, start as int, task_at(s@, start as int)),
        r matches Ok((_, end)) ==> start < end <= s@.len(),
{
    if !(start < s.len() && s[start] == OPEN_BRACE) {
        return Err(DecodeError::NotAnObject);
    }
    let mut i = skip_blanks(s, start + 1);
    if i < s.len() && s[i] == CLOSE_BRACE {
        return Err(DecodeError::MissingField(Field::Checked));
    }
    let mut checked: Option<bool> = None;
    let mut name: Option<String> = None;
    loop
        invariant
            start < i <= s@.len(),
            task_at(s@, start as int) == task_entries(
                s@,
                start as int,
                i as int,
                TaskFields { checked, name: text_of(name) },
            ),
        decreases s@.len() - i,
    {
        let (c, t, end) = match read_task_entry(s, i, checked, name) {
            Ok(read) => read,
            Err(e) => {
                return Err(e);
            },
        };
        checked = c;
        name = t;
        let m = skip_blanks(s, end);
        if m < s.len() && s[m] == COMMA {
            i = skip_blanks(s, m + 1);
        } else if m < s.len() && s[m] == CLOSE_BRACE {
            return match (checked, name) {
                (None, _) => Err(DecodeError::MissingField(Field::Checked)),
                (Some(_), None) => Err(DecodeError::MissingField(Field::Name)),
                (Some(checked), Some(name)) => Ok((TaskRecord { checked, name }, m + 1)),
            };
        } else {
            return Err(DecodeError::Malformed);
        }
    }
}

/// Reads the list of tasks whose text begins at `start`, and says where the
/// text ends.
pub fn read_tasks(s: &[u8], start: usize) -> (r: Result<(Vec<TaskRecord>, usize), DecodeError>)
    requires
        start <= s@.len(),
    ensures
        agrees(r, start as int, tasks_at(s@, start as int)),
        r matches Ok((_, end)) ==> start < end <= s@.len(),
{
    if !(start < s.len() && s[start] == OPEN_BRACKET) {
        return Err(DecodeError::NotAnArray);
    }
    let mut tasks: Vec<TaskRecord> = Vec::new();
    assert(tasks.deep_view() =~= Seq::<TaskModel>::empty());
    let mut i = skip_blanks(s, start + 1);
    if i < s.len() && s[i] == CLOSE_BRACKET {
        return Ok((tasks, i + 1));
    }
    loop
        invariant
            start < i <= s@.len(),
            tasks_at(s@, start as int) == task_elements(
                s@,
                start as int,
                i as int,
                tasks.deep_view(),
            ),
        decreases s@.len() - i,
    {
        let (t, end) = match read_task(s, i) {
            Ok(read) => read,
            Err(e) => {
                return Err(e);
            },
        };
        let ghost before = tasks.deep_view();
        tasks.push(t);
        assert(tasks.deep_view() =~= before.push(t.deep_view()));
        let m = skip_blanks(s, end);
        if m < s.len() && s[m] == COMMA {
            i = skip_blanks(s, m + 1);
        } else if m < s.len() && s[m] == CLOSE_BRACKET {
            return Ok((tasks, m + 1));
        } else {
            return Err(DecodeError::Malformed);
        }
    }
}

fn read_collection_entry(
    s: &[u8],
    i: usize,
    title: Option<String>,
    tasks: Option<Vec<TaskRecord>>,
) -> (r: Result<(Option<String>, Option<Vec<TaskRecord>>, usize), DecodeError>)
    requires
        i <= s@.len(),
    ensures
        match collection_entry_at(
            s@,
            i as int,
            CollectionFields { title: text_of(title), tasks: tasks_of(tasks) },
        ) {
            Ok((seen, n)) => r matches Ok((t, ts, end)) && seen == (CollectionFields {
                title: text_of(t),
                tasks: tasks_of(ts),
            }) && end == i + n && i < end <= s@.len(),
            Err(f) => r matches Err(e) && e@ == f,
        },
{
    let (key, k) = match read_string(s, i) {
        Some(found) => found,
        None => {
            return Err(DecodeError::Malformed);
        },
    };
    if is_key(&key, Field::Title) {
        if title.is_some() {
            return Err(DecodeError::DuplicateField(Field::Title));
        }
        let v = match skip_colon(s, k) {
            Some(v) => v,
            None => {
                return Err(DecodeError::Malformed);
            },
        };
        match read_text_value(s, v, Field::Title) {
            Ok((t, end)) => Ok((Some(t), tasks, end)),
            Err(e) => Err(e),
        }
    } else if is_key(&key, Field::Tasks) {
        if tasks.is_some() {
            return Err(DecodeError::DuplicateField(Field::Tasks));
        }
        let v = match skip_colon(s, k) {
            Some(v) => v,
            None => {
                return Err(DecodeError::Malformed);
            },
        };
        match read_tasks(s, v) {
            Ok((ts, end)) => Ok((title, Some(ts), end)),
            Err(e) => Err(e),
        }
    } else {
        Err(DecodeError::UnknownField(key))
    }
}

/// Reads the collection whose text begins at `start`, and says where the
/// text ends.
pub fn read_collection(s: &[u8], start: usize) -> (r: Result<
    (CollectionRecord, usize),
    DecodeError,
>)
    requires
        start <= s@.len(),
    ensures
        agrees(r, start as int, collection_at(s@, start as int)),
        r matches Ok((_, end)) ==> start < end <= s@.len(),
{
    if !(start < s.len() && s[start] == OPEN_BRACE) {
        return Err(DecodeError::NotAnObject);
    }
    let mut i = skip_blanks(s, start + 1);
    if i < s.len() && s[i] == CLOSE_BRACE {
        return Err(DecodeError::MissingField(Field::Title));
    }
    let mut title: Option<String> = None;
    let mut tasks: Option<Vec<TaskRecord>> = None;
    loop
        invariant
            start < i <= s@.len(),
            collection_at(s@, start as int) == collection_entries(
                s@,
                start as int,
                i as int,
                CollectionFields { title: text_of(title), tasks: tasks_of(tasks) },
            ),
        decreases s@.len() - i,
    {
        let (t, ts, end) = match read_collection_entry(s, i, title, tasks) {
            Ok(read) => read,
            Err(e) => {
                return Err(e);
            },
        };
        title = t;
        tasks = ts;
        let m = skip_blanks(s, end);
        if m < s.len() && s[m] == COMMA {
            i = skip_blanks(s, m + 1);
        } else if m < s.len() && s[m] == CLOSE_BRACE {
            return match (title, tasks) {
                (None, _) => Err(DecodeError::MissingField(Field::Title)),
                (Some(_), None) => Err(DecodeError::MissingField(Field::Tasks)),
                (Some(title), Some(tasks)) => Ok((CollectionRecord { title, tasks }, m + 1)),
            };
        } else {
            return Err(DecodeError::Malformed);
        }
    }
}

/// Reads the list of collections whose text begins at `start`, and says
/// where the text ends.
pub fn read_collections(s: &[u8], start: usize) -> (r: Result<
    (Vec<CollectionRecord>, usize),
    DecodeError,
>)
    requires
        start <= s@.len(),
    ensures
        agrees(r, start as int, collections_at(s@, start as int)),
        r matches Ok((_, end)) ==> start < end <= s@.len(),
{
    if !(start < s.len() && s[start] == OPEN_BRACKET) {
        return Err(DecodeError::NotAnArray);
    }
    let mut collections: Vec<CollectionRecord> = Vec::new();
    assert(collections.deep_view() =~= Seq::<CollectionModel>::empty());
    let mut i = skip_blanks(s, start + 1);
    if i < s.len() && s[i] == CLOSE_BRACKET {
        return Ok((collections, i + 1));
    }
    loop
        invariant
            start < i <= s@.len(),
            collections_at(s@, start as int) == collection_elements(
                s@,
                start as int,
                i as int,
                collections.deep_view(),
            ),
        decreases s@.len() - i,
    {
        let (c, end) = match read_collection(s, i) {
            Ok(read) => read,
            Err(e) => {
                return Err(e);
            },
        };
        let ghost before = collections.deep_view();
        collections.push(c);
        assert(collections.deep_view() =~= before.push(c.deep_view()));
        let m = skip_blanks(s, end);
        if m < s.len() && s[m] == COMMA {
            i = skip_blanks(s, m + 1);
        } else if m < s.len() && s[m] == CLOSE_BRACKET {
            return Ok((collections, m + 1));
        } else {
            return Err(DecodeError::Malformed);
        }
    }
}

/// Decodes a text that holds a list of tasks and nothing else.
pub fn decode_tasks(s: &[u8]) -> (r: Result<Vec<TaskRecord>, DecodeError>)
    ensures
        agrees_whole(r, decoded_tasks(s@)),
{
    let i = skip_blanks(s, 0);
    let (tasks, end) = match read_tasks(s, i) {
        Ok(read) => read,
        Err(e) => {
            return Err(e);
        },
    };
    if skip_blanks(s, end) == s.len() {
        Ok(tasks)
    } else {
        Err(DecodeError::Malformed)
    }
}

/// Decodes a text that holds a list of collections and nothing else: what is
/// stored.
pub fn decode_collections(s: &[u8]) -> (r: Result<Vec<CollectionRecord>, DecodeError>)
    ensures
        agrees_whole(r, decoded_collections(s@)),
{
    let i = skip_blanks(s, 0);
    let (collections, end) = match read_collections(s, i) {
        Ok(read) => read,
        Err(e) => {
            return Err(e);
        },
    };
    if skip_blanks(s, end) == s.len() {
        Ok(collections)
    } else {
        Err(DecodeError::Malformed)
    }
}

} // verus!
