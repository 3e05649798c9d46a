//! What is written is read back: the text of a list of records decodes to
//! those records, as far as the strings in it are read back.
//!
//! The strings are written and read by `serde_json`. That it reads a string
//! back from its own literal is known of each string that was written by a
//! call, and of no other; so the lemmas here ask it of the strings in the
//! records, and the functions of [`crate::encode`], which make the calls,
//! state the result without that condition.

use vstd::prelude::*;

use crate::error::{DecodeFault, Field};
use crate::literal::{
    bool_at, bool_literal, has_at, is_at, is_blank, lemma_has_at_index, lemma_has_at_split,
    lemma_string_at_literal, past_blanks, reads_back, string_at, string_literal, QUOTE,
};
use crate::record::{CollectionModel, TaskModel};
use crate::wire::{
    after_colon, collection_at, collection_elements, collection_entries, collection_entry_at,
    collection_text, collections_at, collections_body, collections_text, decoded_collections,
    decoded_tasks, found, task_at, task_elements, task_entries, task_entry_at, task_text,
    tasks_at, tasks_body, tasks_text, text_value_at, CollectionFields, TaskFields, CLOSE_BRACE,
    CLOSE_BRACKET, COLON, COMMA, OPEN_BRACE, OPEN_BRACKET,
};

verus! {

/// The names of a task's fields and the task's name are read back.
pub open spec fn task_reads_back(t: TaskModel) -> bool {
    &&& reads_back(Field::Checked.key())
    &&& reads_back(Field::Name.key())
    &&& reads_back(t.name)
}

/// Every task of the list is read back.
pub open spec fn tasks_read_back(ts: Seq<TaskModel>) -> bool {
    forall|k: int| 0 <= k < ts.len() ==> task_reads_back(#[trigger] ts[k])
}

/// The names of a collection's fields, its title and its tasks are read
/// back.
pub open spec fn collection_reads_back(c: CollectionModel) -> bool {
    &&& reads_back(Field::Title.key())
    &&& reads_back(Field::Tasks.key())
    &&& reads_back(c.title)
    &&& tasks_read_back(c.tasks)
}

/// Every collection of the list is read back.
pub open spec fn collections_read_back(cs: Seq<CollectionModel>) -> bool {
    forall|k: int| 0 <= k < cs.len() ==> collection_reads_back(#[trigger] cs[k])
}

/// The four field names differ from one another.
pub proof fn lemma_keys_differ()
    ensures
        Field::Checked.key() != Field::Name.key(),
        Field::Title.key() != Field::Tasks.key(),
{
    reveal_strlit("checked");
    reveal_strlit("name");
    reveal_strlit("title");
    reveal_strlit("tasks");
    assert(Field::Checked.key().len() == 7);
    assert(Field::Name.key().len() == 4);
    assert(Field::Title.key()[1] == 'i');
    assert(Field::Tasks.key()[1] == 'a');
}

/// No blank is passed where a byte stands that is none.
pub proof fn lemma_no_blanks(s: Seq<u8>, i: int)
    requires
        0 <= i < s.len() ==> !is_blank(s[i]),
    ensures
        past_blanks(s, i) == i,
{
}

/// A part of a text stands where the whole does, behind what precedes it.
pub proof fn lemma_has_at_part(
    s: Seq<u8>,
    i: int,
    whole: Seq<u8>,
    before: Seq<u8>,
    part: Seq<u8>,
    after: Seq<u8>,
)
    requires
        has_at(s, i, whole),
        whole == before + part + after,
    ensures
        has_at(s, i + before.len(), part),
{
    lemma_has_at_split(s, i, before + part, after);
    lemma_has_at_split(s, i, before, part);
}

/// A literal begins with a quote.
pub proof fn lemma_literal_starts_with_quote(s: Seq<u8>, i: int, t: Seq<char>, after: Seq<u8>)
    requires
        has_at(s, i, string_literal(t) + after),
    ensures
        is_at(s, i, QUOTE),
{
    lemma_has_at_index(s, i, string_literal(t) + after, 0);
}

/// The text of a truth value is read as that value.
pub proof fn lemma_bool_at_literal(s: Seq<u8>, i: int, b: bool)
    requires
        has_at(s, i, bool_literal(b)),
    ensures
        bool_at(s, i) == Some((b, bool_literal(b).len())),
        !is_blank(s[i]),
{
    lemma_has_at_index(s, i, bool_literal(b), 0);
    if !b && has_at(s, i, bool_literal(true)) {
        lemma_has_at_index(s, i, bool_literal(true), 0);
    }
}

/// Where a field's name and colon stand, followed by a byte that is no
/// blank, the name is read and the value begins right behind the colon.
pub proof fn lemma_field_name_at(s: Seq<u8>, i: int, field: Field)
    requires
        has_at(s, i, string_literal(field.key()) + seq![COLON]),
        reads_back(field.key()),
        i + string_literal(field.key()).len() + 1 < s.len() ==> !is_blank(
            s[i + string_literal(field.key()).len() + 1],
        ),
    ensures
        string_at(s, i) == Some((field.key(), string_literal(field.key()).len())),
        after_colon(s, i + string_literal(field.key()).len()) == Some(
            i + string_literal(field.key()).len() + 1,
        ),
{
    let name = string_literal(field.key());
    lemma_has_at_split(s, i, name, seq![COLON]);
    lemma_string_at_literal(s, i, field.key());
    lemma_has_at_index(s, i + name.len(), seq![COLON], 0);
    lemma_no_blanks(s, i + name.len());
    lemma_no_blanks(s, i + name.len() + 1);
}

/// Where a record of two fields stands, each of its parts stands in its
/// place: the braces, the comma, both names with their colons, both values.
pub proof fn lemma_record_layout(
    s: Seq<u8>,
    i: int,
    k1: Seq<u8>,
    v1: Seq<u8>,
    k2: Seq<u8>,
    v2: Seq<u8>,
)
    requires
        has_at(
            s,
            i,
            seq![OPEN_BRACE] + (k1 + seq![COLON] + v1) + seq![COMMA] + (k2 + seq![COLON] + v2)
                + seq![CLOSE_BRACE],
        ),
    ensures
        is_at(s, i, OPEN_BRACE),
        has_at(s, i + 1, k1 + seq![COLON]),
        has_at(s, i + 1 + k1.len() + 1, v1),
        is_at(s, i + 1 + k1.len() + 1 + v1.len(), COMMA),
        has_at(s, i + 1 + k1.len() + 1 + v1.len() + 1, k2 + seq![COLON]),
        has_at(s, i + 1 + k1.len() + 1 + v1.len() + 1 + k2.len() + 1, v2),
        is_at(s, i + 1 + k1.len() + 1 + v1.len() + 1 + k2.len() + 1 + v2.len(), CLOSE_BRACE),
        i + 1 + k1.len() + 1 + v1.len() + 1 + k2.len() + 1 + v2.len() + 1 <= s.len(),
{
    let colon = seq![COLON];
    let open = seq![OPEN_BRACE];
    let comma = seq![COMMA];
    let close = seq![CLOSE_BRACE];
    let whole = open + (k1 + colon + v1) + comma + (k2 + colon + v2) + close;
    let p1 = i + 1;
    let p3 = p1 + k1.len() + 1;
    let p4 = p3 + v1.len();
    let p5 = p4 + 1;
    let p7 = p5 + k2.len() + 1;
    let p8 = p7 + v2.len();

    assert(whole =~= Seq::<u8>::empty() + open + (k1 + colon + v1 + comma + k2 + colon + v2
        + close));
    lemma_has_at_part(
        s,
        i,
        whole,
        Seq::empty(),
        open,
        k1 + colon + v1 + comma + k2 + colon + v2 + close,
    );
    lemma_has_at_index(s, i, open, 0);

    assert(whole =~= open + (k1 + colon) + (v1 + comma + k2 + colon + v2 + close));
    lemma_has_at_part(s, i, whole, open, k1 + colon, v1 + comma + k2 + colon + v2 + close);

    assert(whole =~= (open + k1 + colon) + v1 + (comma + k2 + colon + v2 + close));
    lemma_has_at_part(s, i, whole, open + k1 + colon, v1, comma + k2 + colon + v2 + close);

    assert(whole =~= (open + k1 + colon + v1) + comma + (k2 + colon + v2 + close));
    lemma_has_at_part(s, i, whole, open + k1 + colon + v1, comma, k2 + colon + v2 + close);
    lemma_has_at_index(s, p4, comma, 0);

    assert(whole =~= (open + k1 + colon + v1 + comma) + (k2 + colon) + (v2 + close));
    lemma_has_at_part(s, i, whole, open + k1 + colon + v1 + comma, k2 + colon, v2 + close);

    assert(whole =~= (open + k1 + colon + v1 + comma + k2 + colon) + v2 + close);
    lemma_has_at_part(s, i, whole, open + k1 + colon + v1 + comma + k2 + colon, v2, close);

    assert(whole =~= (open + k1 + colon + v1 + comma + k2 + colon + v2) + close + Seq::<
        u8,
    >::empty());
    lemma_has_at_part(
        s,
        i,
        whole,
        open + k1 + colon + v1 + comma + k2 + colon + v2,
        close,
        Seq::empty(),
    );
    lemma_has_at_index(s, p8, close, 0);
}

/// Where the text of a task stands, the task is read, and the text is
/// taken whole.
pub proof fn lemma_task_at_text(s: Seq<u8>, i: int, t: TaskModel)
    requires
        has_at(s, i, task_text(t)),
        task_reads_back(t),
    ensures
        task_at(s, i) == found(t, task_text(t).len()),
{
    let ck = string_literal(Field::Checked.key());
    let nk = string_literal(Field::Name.key());
    let truth = bool_literal(t.checked);
    let name = string_literal(t.name);
    let p1 = i + 1;
    let p3 = p1 + ck.len() + 1;
    let p4 = p3 + truth.len();
    let p5 = p4 + 1;
    let p7 = p5 + nk.len() + 1;
    let p8 = p7 + name.len();
    lemma_keys_differ();
    lemma_record_layout(s, i, ck, truth, nk, name);
    lemma_literal_starts_with_quote(s, p1, Field::Checked.key(), seq![COLON]);
    lemma_bool_at_literal(s, p3, t.checked);
    lemma_field_name_at(s, p1, Field::Checked);
    lemma_literal_starts_with_quote(s, p5, Field::Name.key(), seq![COLON]);
    assert(name + Seq::<u8>::empty() =~= name);
    lemma_literal_starts_with_quote(s, p7, t.name, Seq::empty());
    lemma_string_at_literal(s, p7, t.name);
    lemma_field_name_at(s, p5, Field::Name);
    lemma_no_blanks(s, p1);
    lemma_no_blanks(s, p4);
    lemma_no_blanks(s, p5);
    lemma_no_blanks(s, p8);

    let seen1 = TaskFields { checked: Some(t.checked), name: None };
    let seen2 = TaskFields { checked: Some(t.checked), name: Some(t.name) };
    assert(task_entry_at(s, p1, TaskFields::none()) == found(seen1, (p4 - p1) as nat));
    assert(text_value_at(s, p7, Field::Name) == found(t.name, name.len()));
    assert(task_entry_at(s, p5, seen1) == found(seen2, (p8 - p5) as nat));
    assert(task_entries(s, i, p5, seen1) == found(t, (p8 + 1 - i) as nat));
    assert(task_entries(s, i, p1, TaskFields::none()) == task_entries(s, i, p5, seen1));
}

/// The texts of one or more tasks begin with a brace.
pub proof fn lemma_tasks_body_starts(ts: Seq<TaskModel>)
    requires
        ts.len() > 0,
    ensures
        tasks_body(ts).len() > 0,
        tasks_body(ts)[0] == OPEN_BRACE,
{
    let first = task_text(ts[0]);
    assert(first[0] == OPEN_BRACE);
    if ts.len() > 1 {
        assert(tasks_body(ts) == first + seq![COMMA] + tasks_body(ts.drop_first()));
    }
}

/// Where the texts of one or more tasks stand, with commas between them and
/// a bracket behind, the tasks are read in their order behind those read
/// before.
pub proof fn lemma_task_elements_text(
    s: Seq<u8>,
    start: int,
    i: int,
    before: Seq<TaskModel>,
    ts: Seq<TaskModel>,
)
    requires
        ts.len() > 0,
        start <= i,
        has_at(s, i, tasks_body(ts) + seq![CLOSE_BRACKET]),
        tasks_read_back(ts),
    ensures
        task_elements(s, start, i, before) == found(
            before + ts,
            (i + tasks_body(ts).len() + 1 - start) as nat,
        ),
    decreases ts.len(),
{
    let first = task_text(ts[0]);
    let close = seq![CLOSE_BRACKET];
    let m = i + first.len();
    assert(task_reads_back(ts[0]));
    if ts.len() == 1 {
        lemma_has_at_split(s, i, first, close);
        lemma_task_at_text(s, i, ts[0]);
        lemma_has_at_index(s, m, close, 0);
        lemma_no_blanks(s, m);
        assert(before.push(ts[0]) =~= before + ts);
    } else {
        let rest = ts.drop_first();
        let comma = seq![COMMA];
        assert(tasks_body(ts) + close =~= first + (comma + (tasks_body(rest) + close)));
        lemma_has_at_split(s, i, first, comma + (tasks_body(rest) + close));
        lemma_has_at_split(s, m, comma, tasks_body(rest) + close);
        lemma_task_at_text(s, i, ts[0]);
        lemma_has_at_index(s, m, comma, 0);
        lemma_no_blanks(s, m);
        lemma_tasks_body_starts(rest);
        lemma_has_at_index(s, m + 1, tasks_body(rest) + close, 0);
        lemma_no_blanks(s, m + 1);
        assert forall|k: int| 0 <= k < rest.len() implies task_reads_back(#[trigger] rest[k]) by {
            assert(rest[k] == ts[k + 1]);
        }
        lemma_task_elements_text(s, start, m + 1, before.push(ts[0]), rest);
        assert(before.push(ts[0]) + rest =~= before + ts);
    }
}

/// Where the text of a list of tasks stands, the list is read, and the text
/// is taken whole.
pub proof fn lemma_tasks_at_text(s: Seq<u8>, i: int, ts: Seq<TaskModel>)
    requires
        has_at(s, i, tasks_text(ts)),
        tasks_read_back(ts),
    ensures
        tasks_at(s, i) == found(ts, tasks_text(ts).len()),
        is_at(s, i, OPEN_BRACKET),
{
    let open = seq![OPEN_BRACKET];
    let close = seq![CLOSE_BRACKET];
    assert(tasks_text(ts) =~= open + (tasks_body(ts) + close));
    lemma_has_at_split(s, i, open, tasks_body(ts) + close);
    lemma_has_at_index(s, i, open, 0);
    lemma_has_at_index(s, i + 1, tasks_body(ts) + close, 0);
    lemma_no_blanks(s, i + 1);
    if ts.len() == 0 {
        assert(ts =~= Seq::<TaskModel>::empty());
    } else {
        lemma_tasks_body_starts(ts);
        lemma_task_elements_text(s, i, i + 1, Seq::empty(), ts);
        assert(Seq::<TaskModel>::empty() + ts =~= ts);
    }
}

/// Where the text of a collection stands, the collection is read, and the
/// text is taken whole.
pub proof fn lemma_collection_at_text(s: Seq<u8>, i: int, c: CollectionModel)
    requires
        has_at(s, i, collection_text(c)),
        collection_reads_back(c),
    ensures
        collection_at(s, i) == found(c, collection_text(c).len()),
{
    let tk = string_literal(Field::Title.key());
    let lk = string_literal(Field::Tasks.key());
    let title = string_literal(c.title);
    let list = tasks_text(c.tasks);
    let p1 = i + 1;
    let p3 = p1 + tk.len() + 1;
    let p4 = p3 + title.len();
    let p5 = p4 + 1;
    let p7 = p5 + lk.len() + 1;
    let p8 = p7 + list.len();
    lemma_keys_differ();
    lemma_record_layout(s, i, tk, title, lk, list);
    lemma_literal_starts_with_quote(s, p1, Field::Title.key(), seq![COLON]);
    assert(title + Seq::<u8>::empty() =~= title);
    lemma_literal_starts_with_quote(s, p3, c.title, Seq::empty());
    lemma_string_at_literal(s, p3, c.title);
    lemma_field_name_at(s, p1, Field::Title);
    lemma_literal_starts_with_quote(s, p5, Field::Tasks.key(), seq![COLON]);
    lemma_tasks_at_text(s, p7, c.tasks);
    lemma_field_name_at(s, p5, Field::Tasks);
    lemma_no_blanks(s, p1);
    lemma_no_blanks(s, p4);
    lemma_no_blanks(s, p5);
    lemma_no_blanks(s, p8);

    let seen1 = CollectionFields { title: Some(c.title), tasks: None };
    let seen2 = CollectionFields { title: Some(c.title), tasks: Some(c.tasks) };
    assert(text_value_at(s, p3, Field::Title) == found(c.title, title.len()));
    assert(collection_entry_at(s, p1, CollectionFields::none()) == found(seen1, (p4 - p1) as nat));
    assert(collection_entry_at(s, p5, seen1) == found(seen2, (p8 - p5) as nat));
    assert(collection_entries(s, i, p5, seen1) == found(c, (p8 + 1 - i) as nat));
    assert(collection_entries(s, i, p1, CollectionFields::none()) == collection_entries(
        s,
        i,
        p5,
        seen1,
    ));
}

/// The texts of one or more collections begin with a brace.
pub proof fn lemma_collections_body_starts(cs: Seq<CollectionModel>)
    requires
        cs.len() > 0,
    ensures
        collections_body(cs).len() > 0,
        collections_body(cs)[0] == OPEN_BRACE,
{
    let first = collection_text(cs[0]);
    assert(first[0] == OPEN_BRACE);
    if cs.len() > 1 {
        assert(collections_body(cs) == first + seq![COMMA] + collections_body(cs.drop_first()));
    }
}

/// Where the texts of one or more collections stand, with commas between
/// them and a bracket behind, the collections are read in their order behind
/// those read before.
pub proof fn lemma_collection_elements_text(
    s: Seq<u8>,
    start: int,
    i: int,
    before: Seq<CollectionModel>,
    cs: Seq<CollectionModel>,
)
    requires
        cs.len() > 0,
        start <= i,
        has_at(s, i, collections_body(cs) + seq![CLOSE_BRACKET]),
        collections_read_back(cs),
    ensures
        collection_elements(s, start, i, before) == found(
            before + cs,
            (i + collections_body(cs).len() + 1 - start) as nat,
        ),
    decreases cs.len(),
{
    let first = collection_text(cs[0]);
    let close = seq![CLOSE_BRACKET];
    let m = i + first.len();
    assert(collection_reads_back(cs[0]));
    if cs.len() == 1 {
        lemma_has_at_split(s, i, first, close);
        lemma_collection_at_text(s, i, cs[0]);
        lemma_has_at_index(s, m, close, 0);
        lemma_no_blanks(s, m);
        assert(before.push(cs[0]) =~= before + cs);
    } else {
        let rest = cs.drop_first();
        let comma = seq![COMMA];
        assert(collections_body(cs) + close =~= first + (comma + (collections_body(rest) + close)));
        lemma_has_at_split(s, i, first, comma + (collections_body(rest) + close));
        lemma_has_at_split(s, m, comma, collections_body(rest) + close);
        lemma_collection_at_text(s, i, cs[0]);
        lemma_has_at_index(s, m, comma, 0);
        lemma_no_blanks(s, m);
        lemma_collections_body_starts(rest);
        lemma_has_at_index(s, m + 1, collections_body(rest) + close, 0);
        lemma_no_blanks(s, m + 1);
        assert forall|k: int| 0 <= k < rest.len() implies collection_reads_back(
            #[trigger] rest[k],
        ) by {
            assert(rest[k] == cs[k + 1]);
        }
        lemma_collection_elements_text(s, start, m + 1, before.push(cs[0]), rest);
        assert(before.push(cs[0]) + rest =~= before + cs);
    }
}

/// Where the text of a list of collections stands, the list is read, and the
/// text is taken whole.
pub proof fn lemma_collections_at_text(s: Seq<u8>, i: int, cs: Seq<CollectionModel>)
    requires
        has_at(s, i, collections_text(cs)),
        collections_read_back(cs),
    ensures
        collections_at(s, i) == found(cs, collections_text(cs).len()),
        is_at(s, i, OPEN_BRACKET),
{
    let open = seq![OPEN_BRACKET];
    let close = seq![CLOSE_BRACKET];
    assert(collections_text(cs) =~= open + (collections_body(cs) + close));
    lemma_has_at_split(s, i, open, collections_body(cs) + close);
    lemma_has_at_index(s, i, open, 0);
    lemma_has_at_index(s, i + 1, collections_body(cs) + close, 0);
    lemma_no_blanks(s, i + 1);
    if cs.len() == 0 {
        assert(cs =~= Seq::<CollectionModel>::empty());
    } else {
        lemma_collections_body_starts(cs);
        lemma_collection_elements_text(s, i, i + 1, Seq::empty(), cs);
        assert(Seq::<CollectionModel>::empty() + cs =~= cs);
    }
}

/// The text of a list of tasks decodes to the list: as many tasks, each with
/// the same `checked` and `name`, in the same order.
pub proof fn lemma_tasks_round_trip(ts: Seq<TaskModel>)
    requires
        tasks_read_back(ts),
    ensures
        decoded_tasks(tasks_text(ts)) == Ok::<Seq<TaskModel>, DecodeFault>(ts),
{
    let s = tasks_text(ts);
    assert(s.subrange(0, s.len() as int) =~= s);
    lemma_tasks_at_text(s, 0, ts);
    lemma_no_blanks(s, 0);
    lemma_no_blanks(s, s.len() as int);
}

/// The text of a list of collections decodes to the list: as many
/// collections, each with the same title and the same tasks, in the same
/// order.
pub proof fn lemma_collections_round_trip(cs: Seq<CollectionModel>)
    requires
        collections_read_back(cs),
    ensures
        decoded_collections(collections_text(cs)) == Ok::<Seq<CollectionModel>, DecodeFault>(cs),
{
    let s = collections_text(cs);
    assert(s.subrange(0, s.len() as int) =~= s);
    lemma_collections_at_text(s, 0, cs);
    lemma_no_blanks(s, 0);
    lemma_no_blanks(s, s.len() as int);
}

} // verus!
