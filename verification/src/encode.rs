//! Writing records in their wire form.
//!
//! Each function writes exactly the text that [`crate::wire`] gives for the
//! records, and the two that encode a whole list add that the text decodes
//! to that list again.

use vstd::prelude::*;

use crate::error::{DecodeFault, Field};
use crate::literal::{bool_literal, quote, reads_back, string_literal};
use crate::record::{CollectionModel, CollectionRecord, TaskModel, TaskRecord};
use crate::round_trip::{
    collection_reads_back, collections_read_back, lemma_collections_round_trip,
    lemma_tasks_round_trip, task_reads_back, tasks_read_back,
};
use crate::wire::{
    collection_text, collections_body, collections_text, decoded_collections, decoded_tasks,
    task_text, tasks_body, tasks_text, CLOSE_BRACE, CLOSE_BRACKET, COLON, COMMA, OPEN_BRACE,
    OPEN_BRACKET,
};

verus! {

/// A task behind the texts of others goes behind a comma; the first goes
/// alone.
pub proof fn lemma_tasks_body_push(ts: Seq<TaskModel>, t: TaskModel)
    ensures
        tasks_body(ts.push(t)) == if ts.len() == 0 {
            task_text(t)
        } else {
            tasks_body(ts) + seq![COMMA] + task_text(t)
        },
    decreases ts.len(),
{
    let all = ts.push(t);
    if ts.len() == 0 {
    } else if ts.len() == 1 {
        assert(all.drop_first() =~= seq![t]);
        assert(tasks_body(all.drop_first()) == task_text(t));
        assert(all[0] == ts[0]);
    } else {
        let rest = ts.drop_first();
        lemma_tasks_body_push(rest, t);
        assert(all.drop_first() =~= rest.push(t));
        assert(all[0] == ts[0]);
        assert(tasks_body(all) =~= tasks_body(ts) + seq![COMMA] + task_text(t));
    }
}

/// A collection behind the texts of others goes behind a comma; the first
/// goes alone.
pub proof fn lemma_collections_body_push(cs: Seq<CollectionModel>, c: CollectionModel)
    ensures
        collections_body(cs.push(c)) == if cs.len() == 0 {
            collection_text(c)
        } else {
            collections_body(cs) + seq![COMMA] + collection_text(c)
        },
    decreases cs.len(),
{
    let all = cs.push(c);
    if cs.len() == 0 {
    } else if cs.len() == 1 {
        assert(all.drop_first() =~= seq![c]);
        assert(collections_body(all.drop_first()) == collection_text(c));
        assert(all[0] == cs[0]);
    } else {
        let rest = cs.drop_first();
        lemma_collections_body_push(rest, c);
        assert(all.drop_first() =~= rest.push(c));
        assert(all[0] == cs[0]);
        assert(collections_body(all) =~= collections_body(cs) + seq![COMMA] + collection_text(c));
    }
}

fn push_literal(out: &mut Vec<u8>, s: &str)
    ensures
        final(out)@ == old(out)@ + string_literal(s@),
        reads_back(s@),
{
    let mut text = quote(s).unwrap();
    out.append(&mut text);
}

fn push_bool(out: &mut Vec<u8>, b: bool)
    ensures
        final(out)@ == old(out)@ + bool_literal(b),
{
    if b {
        out.push(0x74);
        out.push(0x72);
        out.push(0x75);
        out.push(0x65);
    } else {
        out.push(0x66);
        out.push(0x61);
        out.push(0x6c);
        out.push(0x73);
        out.push(0x65);
    }
    assert(out@ =~= old(out)@ + bool_literal(b));
}

fn push_field_name(out: &mut Vec<u8>, field: Field)
    ensures
        final(out)@ == old(out)@ + (string_literal(field.key()) + seq![COLON]),
        reads_back(field.key()),
{
    push_literal(out, field.name());
    out.push(COLON);
    assert(out@ =~= old(out)@ + (string_literal(field.key()) + seq![COLON]));
}

/// Writes the text of `t` behind what `out` holds.
pub fn write_task(out: &mut Vec<u8>, t: &TaskRecord)
    ensures
        final(out)@ == old(out)@ + task_text(t@),
        task_reads_back(t@),
{
    out.push(OPEN_BRACE);
    push_field_name(out, Field::Checked);
    push_bool(out, t.checked);
    out.push(COMMA);
    push_field_name(out, Field::Name);
    push_literal(out, t.name.as_str());
    out.push(CLOSE_BRACE);
    assert(out@ =~= old(out)@ + task_text(t@));
}

/// Writes the text of the list `tasks` behind what `out` holds.
pub fn write_tasks(out: &mut Vec<u8>, tasks: &Vec<TaskRecord>)
    ensures
        final(out)@ == old(out)@ + tasks_text(tasks.deep_view()),
        tasks_read_back(tasks.deep_view()),
{
    let ghost all = tasks.deep_view();
    out.push(OPEN_BRACKET);
    let mut i: usize = 0;
    while i < tasks.len()
        invariant
            i <= tasks.len(),
            all == tasks.deep_view(),
            out@ == old(out)@ + seq![OPEN_BRACKET] + tasks_body(all.take(i as int)),
            forall|k: int| 0 <= k < i ==> task_reads_back(#[trigger] all[k]),
        decreases tasks.len() - i,
    {
        if i > 0 {
            out.push(COMMA);
        }
        write_task(out, &tasks[i]);
        proof {
            lemma_tasks_body_push(all.take(i as int), all[i as int]);
            assert(all.take(i as int).push(all[i as int]) =~= all.take(i + 1));
            assert(tasks[i as int]@ == all[i as int]);
            assert(out@ =~= old(out)@ + seq![OPEN_BRACKET] + tasks_body(all.take(i + 1)));
        }
        i += 1;
    }
    out.push(CLOSE_BRACKET);
    proof {
        assert(all.take(i as int) =~= all);
        assert(out@ =~= old(out)@ + tasks_text(all));
    }
}

/// Writes the text of `c` behind what `out` holds.
pub fn write_collection(out: &mut Vec<u8>, c: &CollectionRecord)
    ensures
        final(out)@ == old(out)@ + collection_text(c@),
        collection_reads_back(c@),
{
    out.push(OPEN_BRACE);
    push_field_name(out, Field::Title);
    push_literal(out, c.title.as_str());
    out.push(COMMA);
    push_field_name(out, Field::Tasks);
    write_tasks(out, &c.tasks);
    out.push(CLOSE_BRACE);
    assert(out@ =~= old(out)@ + collection_text(c@));
}

/// Writes the text of the list `collections` behind what `out` holds.
pub fn write_collections(out: &mut Vec<u8>, collections: &Vec<CollectionRecord>)
    ensures
        final(out)@ == old(out)@ + collections_text(collections.deep_view()),
        collections_read_back(collections.deep_view()),
{
    let ghost all = collections.deep_view();
    out.push(OPEN_BRACKET);
    let mut i: usize = 0;
    while i < collections.len()
        invariant
            i <= collections.len(),
            all == collections.deep_view(),
            out@ == old(out)@ + seq![OPEN_BRACKET] + collections_body(all.take(i as int)),
            forall|k: int| 0 <= k < i ==> collection_reads_back(#[trigger] all[k]),
        decreases collections.len() - i,
    {
        if i > 0 {
            out.push(COMMA);
        }
        write_collection(out, &collections[i]);
        proof {
            lemma_collections_body_push(all.take(i as int), all[i as int]);
            assert(all.take(i as int).push(all[i as int]) =~= all.take(i + 1));
            assert(collections[i as int]@ == all[i as int]);
            assert(out@ =~= old(out)@ + seq![OPEN_BRACKET] + collections_body(all.take(i + 1)));
        }
        i += 1;
    }
    out.push(CLOSE_BRACKET);
    proof {
        assert(all.take(i as int) =~= all);
        assert(out@ =~= old(out)@ + collections_text(all));
    }
}

/// The text of a list of tasks. Decoding it gives the list back: as many
/// tasks, each with the same `checked` and `name`, in the same order.
pub fn encode_tasks(tasks: &Vec<TaskRecord>) -> (text: Vec<u8>)
    ensures
        text@ == tasks_text(tasks.deep_view()),
        decoded_tasks(text@) == Ok::<Seq<TaskModel>, DecodeFault>(tasks.deep_view()),
{
    let mut text: Vec<u8> = Vec::new();
    write_tasks(&mut text, tasks);
    proof {
        assert(text@ =~= tasks_text(tasks.deep_view()));
        lemma_tasks_round_trip(tasks.deep_view());
    }
    text
}

/// The text of a list of collections: what is stored. Decoding it gives the
/// list back: as many collections, each with the same title and the same
/// tasks, in the same order.
pub fn encode_collections(collections: &Vec<CollectionRecord>) -> (text: Vec<u8>)
    ensures
        text@ == collections_text(collections.deep_view()),
        decoded_collections(text@) == Ok::<Seq<CollectionModel>, DecodeFault>(
            collections.deep_view(),
        ),
{
    let mut text: Vec<u8> = Vec::new();
    write_collections(&mut text, collections);
    proof {
        assert(text@ =~= collections_text(collections.deep_view()));
        lemma_collections_round_trip(collections.deep_view());
    }
    text
}

} // verus!
