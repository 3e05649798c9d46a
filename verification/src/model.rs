//! The entities of a run: tasks and collections, each with the identifier it
//! was given when it was made. A record is an entity without its identifier,
//! and an entity made from a record gets a fresh one.

use vstd::prelude::*;

use crate::ids::IdAllocator;
use crate::record::{CollectionModel, CollectionRecord, TaskModel, TaskRecord};

verus! {

/// A task, as the contracts see it.
pub ghost struct TaskState {
    pub id: u64,
    pub name: Seq<char>,
    pub checked: bool,
}

impl TaskState {
    /// What is stored of the task.
    pub open spec fn record(self) -> TaskModel {
        TaskModel { checked: self.checked, name: self.name }
    }
}

/// What is stored of each of the tasks.
pub open spec fn task_records(tasks: Seq<TaskState>) -> Seq<TaskModel> {
    Seq::new(tasks.len(), |i: int| tasks[i].record())
}

/// The tasks that are not done, in their order.
pub open spec fn without_done(tasks: Seq<TaskState>) -> Seq<TaskState>
    decreases tasks.len(),
{
    if tasks.len() == 0 {
        tasks
    } else if tasks.last().checked {
        without_done(tasks.drop_last())
    } else {
        without_done(tasks.drop_last()).push(tasks.last())
    }
}

/// The tasks whose identifier is not `id`, in their order.
pub open spec fn without_task(tasks: Seq<TaskState>, id: u64) -> Seq<TaskState>
    decreases tasks.len(),
{
    if tasks.len() == 0 {
        tasks
    } else if tasks.last().id == id {
        without_task(tasks.drop_last(), id)
    } else {
        without_task(tasks.drop_last(), id).push(tasks.last())
    }
}

/// The name of the last task whose identifier is `id`, if there is one.
pub open spec fn name_of_task(tasks: Seq<TaskState>, id: u64) -> Option<Seq<char>>
    decreases tasks.len(),
{
    if tasks.len() == 0 {
        None
    } else if tasks.last().id == id {
        Some(tasks.last().name)
    } else {
        name_of_task(tasks.drop_last(), id)
    }
}

/// The tasks with every one of the identifier `id` marked done or not done.
pub open spec fn with_checked(tasks: Seq<TaskState>, id: u64, checked: bool) -> Seq<TaskState> {
    Seq::new(
        tasks.len(),
        |k: int|
            if tasks[k].id == id {
                TaskState { checked, ..tasks[k] }
            } else {
                tasks[k]
            },
    )
}

/// The tasks that the records describe, numbered from `first` on.
pub open spec fn tasks_from(records: Seq<TaskModel>, first: nat) -> Seq<TaskState> {
    Seq::new(
        records.len(),
        |i: int|
            TaskState { id: (first + i) as u64, name: records[i].name, checked: records[i].checked },
    )
}

/// The identifiers of the tasks go up along the list.
pub open spec fn ascending(tasks: Seq<TaskState>) -> bool {
    forall|a: int, b: int| 0 <= a < b < tasks.len() ==> tasks[a].id < tasks[b].id
}

/// Every task of the list has an identifier below `bound`.
pub open spec fn below(tasks: Seq<TaskState>, bound: nat) -> bool {
    forall|a: int| 0 <= a < tasks.len() ==> (#[trigger] tasks[a]).id < bound
}

/// What is left when the done tasks are taken out was there before, and is
/// in the order it was in.
pub proof fn lemma_without_done(tasks: Seq<TaskState>)
    ensures
        without_done(tasks).len() <= tasks.len(),
        forall|k: int|
            0 <= k < without_done(tasks).len() ==> tasks.contains(#[trigger] without_done(tasks)[k])
                && !without_done(tasks)[k].checked,
        ascending(tasks) ==> ascending(without_done(tasks)),
    decreases tasks.len(),
{
    if tasks.len() > 0 {
        let front = tasks.drop_last();
        let left = without_done(front);
        lemma_without_done(front);
        assert forall|k: int| 0 <= k < left.len() implies tasks.contains(#[trigger] left[k]) by {
            let j = choose|j: int| 0 <= j < front.len() && front[j] == left[k];
            assert(tasks[j] == left[k]);
        }
        if ascending(tasks) {
            assert forall|a: int, b: int| 0 <= a < b < front.len() implies front[a].id
                < front[b].id by {
                assert(front[a] == tasks[a] && front[b] == tasks[b]);
            }
            if !tasks.last().checked {
                assert forall|k: int| 0 <= k < left.len() implies (#[trigger] left[k]).id
                    < tasks.last().id by {
                    let j = choose|j: int| 0 <= j < front.len() && front[j] == left[k];
                    assert(tasks[j] == left[k]);
                }
            }
        }
        if !tasks.last().checked {
            assert(tasks[tasks.len() - 1] == tasks.last());
        }
    }
}

/// What is left when the tasks of an identifier are taken out was there
/// before, and is in the order it was in.
pub proof fn lemma_without_task(tasks: Seq<TaskState>, id: u64)
    ensures
        without_task(tasks, id).len() <= tasks.len(),
        forall|k: int|
            0 <= k < without_task(tasks, id).len() ==> tasks.contains(
                #[trigger] without_task(tasks, id)[k],
            ) && without_task(tasks, id)[k].id != id,
        ascending(tasks) ==> ascending(without_task(tasks, id)),
    decreases tasks.len(),
{
    if tasks.len() > 0 {
        let front = tasks.drop_last();
        let left = without_task(front, id);
        lemma_without_task(front, id);
        assert forall|k: int| 0 <= k < left.len() implies tasks.contains(#[trigger] left[k]) by {
            let j = choose|j: int| 0 <= j < front.len() && front[j] == left[k];
            assert(tasks[j] == left[k]);
        }
        if ascending(tasks) {
            assert forall|a: int, b: int| 0 <= a < b < front.len() implies front[a].id
                < front[b].id by {
                assert(front[a] == tasks[a] && front[b] == tasks[b]);
            }
            if tasks.last().id != id {
                assert forall|k: int| 0 <= k < left.len() implies (#[trigger] left[k]).id
                    < tasks.last().id by {
                    let j = choose|j: int| 0 <= j < front.len() && front[j] == left[k];
                    assert(tasks[j] == left[k]);
                }
            }
        }
        if tasks.last().id != id {
            assert(tasks[tasks.len() - 1] == tasks.last());
        }
    }
}

/// A collection, as the contracts see it.
pub ghost struct CollectionState {
    pub id: u64,
    pub title: Seq<char>,
    pub tasks: Seq<TaskState>,
}

impl CollectionState {
    /// What is stored of the collection.
    pub open spec fn record(self) -> CollectionModel {
        CollectionModel { title: self.title, tasks: task_records(self.tasks) }
    }
}

/// What is stored of each of the collections.
pub open spec fn collection_records(collections: Seq<CollectionState>) -> Seq<CollectionModel> {
    Seq::new(collections.len(), |i: int| collections[i].record())
}

/// A task: a name, whether it is done, and an identifier.
#[derive(Debug)]
pub struct Task {
    id: u64,
    name: String,
    checked: bool,
}

impl DeepView for Task {
    type V = TaskState;

    closed spec fn deep_view(&self) -> TaskState {
        TaskState { id: self.id, name: self.name@, checked: self.checked }
    }
}

impl View for Task {
    type V = TaskState;

    open spec fn view(&self) -> TaskState {
        self.deep_view()
    }
}

impl Task {
    /// A task of that name that is not done, with the next identifier.
    pub fn new(name: &str, ids: &mut IdAllocator) -> (task: Task)
        requires
            old(ids).left() > 0,
        ensures
            task@.id == old(ids)@,
            task@.name == name@,
            !task@.checked,
            final(ids)@ == old(ids)@ + 1,
    {
        Task { id: ids.allocate(), name: name.to_owned(), checked: false }
    }

    /// The task that `record` describes, with the next identifier.
    pub fn from_record(record: &TaskRecord, ids: &mut IdAllocator) -> (task: Task)
        requires
            old(ids).left() > 0,
        ensures
            task@.record() == record@,
            task@.id == old(ids)@,
            final(ids)@ == old(ids)@ + 1,
    {
        Task { id: ids.allocate(), name: record.name.clone(), checked: record.checked }
    }

    /// What is stored of the task.
    pub fn record(&self) -> (record: TaskRecord)
        ensures
            record@ == self@.record(),
    {
        TaskRecord { checked: self.checked, name: self.name.clone() }
    }

    /// The identifier that the task was given when it was made.
    pub fn get_id(&self) -> (id: u64)
        ensures
            id == self@.id,
    {
        self.id
    }

    /// The name of the task.
    pub fn name(&self) -> (name: &str)
        ensures
            name@ == self@.name,
    {
        self.name.as_str()
    }

    /// Whether the task is done.
    pub fn checked(&self) -> (checked: bool)
        ensures
            checked == self@.checked,
    {
        self.checked
    }
}

/// Takes out every task whose identifier is `id`, and returns the name of
/// the last of them.
pub fn remove_task(tasks: &mut Vec<Task>, id: u64) -> (name: Option<String>)
    ensures
        final(tasks).deep_view() == without_task(old(tasks).deep_view(), id),
        match name_of_task(old(tasks).deep_view(), id) {
            Some(n) => name matches Some(found) && found@ == n,
            None => name is None,
        },
{
    let ghost before = tasks.deep_view();
    let mut name: Option<String> = None;
    let mut i: usize = 0;
    let ghost mut j: int = 0;
    assert(before.take(0) =~= Seq::<TaskState>::empty());
    assert(tasks.deep_view().take(0) =~= Seq::<TaskState>::empty());
    assert(tasks.deep_view().skip(0) =~= before.skip(0));
    while i < tasks.len()
        invariant
            i <= tasks.len(),
            0 <= j <= before.len(),
            tasks.len() - i == before.len() - j,
            tasks.deep_view().take(i as int) == without_task(before.take(j), id),
            tasks.deep_view().skip(i as int) == before.skip(j),
            match name_of_task(before.take(j), id) {
                Some(n) => name matches Some(found) && found@ == n,
                None => name is None,
            },
        decreases tasks.len() - i,
    {
        let ghost now = tasks.deep_view();
        proof {
            assert(now[i as int] == now.skip(i as int)[0]);
            assert(before[j] == before.skip(j)[0]);
            assert(before.take(j + 1).drop_last() =~= before.take(j));
            assert(before.take(j + 1).last() == before[j]);
            assert(now.skip(i + 1) =~= now.skip(i as int).skip(1));
            assert(before.skip(j + 1) =~= before.skip(j).skip(1));
        }
        if tasks[i].id == id {
            let task = tasks.remove(i);
            name = Some(task.name);
            proof {
                assert(tasks.deep_view() =~= now.remove(i as int));
                assert(tasks.deep_view().take(i as int) =~= now.take(i as int));
                assert(tasks.deep_view().skip(i as int) =~= now.skip(i + 1));
            }
        } else {
            proof {
                assert(now.take(i + 1) =~= now.take(i as int).push(now[i as int]));
            }
            i += 1;
        }
        proof {
            j = j + 1;
        }
    }
    proof {
        assert(before.take(j) =~= before);
        assert(tasks.deep_view().take(i as int) =~= tasks.deep_view());
    }
    name
}

/// Takes out every task that is done, and says whether there was one.
pub fn remove_done(tasks: &mut Vec<Task>) -> (any: bool)
    ensures
        final(tasks).deep_view() == without_done(old(tasks).deep_view()),
        any == (final(tasks).len() < old(tasks).len()),
{
    let ghost before = tasks.deep_view();
    let mut any = false;
    let mut i: usize = 0;
    let ghost mut j: int = 0;
    assert(before.take(0) =~= Seq::<TaskState>::empty());
    assert(tasks.deep_view().take(0) =~= Seq::<TaskState>::empty());
    assert(tasks.deep_view().skip(0) =~= before.skip(0));
    while i < tasks.len()
        invariant
            i <= tasks.len(),
            0 <= j <= before.len(),
            tasks.len() - i == before.len() - j,
            tasks.deep_view().take(i as int) == without_done(before.take(j)),
            tasks.deep_view().skip(i as int) == before.skip(j),
            any == (i < j),
            i <= j,
        decreases tasks.len() - i,
    {
        let ghost now = tasks.deep_view();
        proof {
            assert(now[i as int] == now.skip(i as int)[0]);
            assert(before[j] == before.skip(j)[0]);
            assert(before.take(j + 1).drop_last() =~= before.take(j));
            assert(before.take(j + 1).last() == before[j]);
            assert(now.skip(i + 1) =~= now.skip(i as int).skip(1));
            assert(before.skip(j + 1) =~= before.skip(j).skip(1));
        }
        if tasks[i].checked {
            let _ = tasks.remove(i);
            any = true;
            proof {
                assert(tasks.deep_view() =~= now.remove(i as int));
                assert(tasks.deep_view().take(i as int) =~= now.take(i as int));
                assert(tasks.deep_view().skip(i as int) =~= now.skip(i + 1));
            }
        } else {
            proof {
                assert(now.take(i + 1) =~= now.take(i as int).push(now[i as int]));
            }
            i += 1;
        }
        proof {
            j = j + 1;
        }
    }
    proof {
        assert(before.take(j) =~= before);
        assert(tasks.deep_view().take(i as int) =~= tasks.deep_view());
    }
    any
}

/// What is stored of each of the tasks, in their order.
pub fn records_of_tasks(tasks: &Vec<Task>) -> (records: Vec<TaskRecord>)
    ensures
        records.deep_view() == task_records(tasks.deep_view()),
{
    let mut records: Vec<TaskRecord> = Vec::new();
    let mut i: usize = 0;
    while i < tasks.len()
        invariant
            i <= tasks.len(),
            records.len() == i,
            forall|k: int| 0 <= k < i ==> (#[trigger] records[k])@ == tasks[k]@.record(),
        decreases tasks.len() - i,
    {
        records.push(tasks[i].record());
        i += 1;
    }
    assert(records.deep_view() =~= task_records(tasks.deep_view()));
    records
}

/// A collection: a title, tasks in their order, and an identifier.
#[derive(Debug)]
pub struct Collection {
    id: u64,
    title: String,
    tasks: Vec<Task>,
}

impl DeepView for Collection {
    type V = CollectionState;

    closed spec fn deep_view(&self) -> CollectionState {
        CollectionState { id: self.id, title: self.title@, tasks: self.tasks.deep_view() }
    }
}

impl View for Collection {
    type V = CollectionState;

    open spec fn view(&self) -> CollectionState {
        self.deep_view()
    }
}

impl Collection {
    /// A collection of that title without tasks, with the next identifier.
    pub fn new(title: &str, ids: &mut IdAllocator) -> (collection: Collection)
        requires
            old(ids).left() > 0,
        ensures
            collection@.id == old(ids)@,
            collection@.title == title@,
            collection@.tasks == Seq::<TaskState>::empty(),
            final(ids)@ == old(ids)@ + 1,
    {
        let tasks: Vec<Task> = Vec::new();
        assert(tasks.deep_view() =~= Seq::<TaskState>::empty());
        Collection { id: ids.allocate(), title: title.to_owned(), tasks }
    }

    /// The identifier that the collection was given when it was made.
    pub fn get_id(&self) -> (id: u64)
        ensures
            id == self@.id,
    {
        self.id
    }

    /// The title of the collection.
    pub fn title(&self) -> (title: &str)
        ensures
            title@ == self@.title,
    {
        self.title.as_str()
    }

    /// The tasks of the collection, in their order.
    pub fn tasks(&self) -> (tasks: &Vec<Task>)
        ensures
            tasks.deep_view() == self@.tasks,
    {
        &self.tasks
    }

    /// Adds a task of that name behind the others, and returns its
    /// identifier.
    pub fn add_task(&mut self, name: &str, ids: &mut IdAllocator) -> (id: u64)
        requires
            old(ids).left() > 0,
        ensures
            id == old(ids)@,
            final(ids)@ == old(ids)@ + 1,
            final(self)@ == (CollectionState {
                tasks: old(self)@.tasks.push(TaskState { id, name: name@, checked: false }),
                ..old(self)@
            }),
    {
        let task = Task::new(name, ids);
        let id = task.id;
        let ghost before = self.tasks.deep_view();
        self.tasks.push(task);
        assert(self.tasks.deep_view() =~= before.push(task@));
        id
    }

    /// Marks every task whose identifier is `id` done or not done, and says
    /// whether there was one.
    pub fn set_checked(&mut self, id: u64, checked: bool) -> (found: bool)
        ensures
            final(self)@ == (CollectionState {
                tasks: with_checked(old(self)@.tasks, id, checked),
                ..old(self)@
            }),
            found == exists|k: int|
                0 <= k < old(self)@.tasks.len() && (#[trigger] old(self)@.tasks[k]).id == id,
    {
        let ghost before = self.tasks.deep_view();
        let mut found = false;
        let mut i: usize = 0;
        while i < self.tasks.len()
            invariant
                i <= self.tasks.len(),
                self.id == old(self).id,
                self.title == old(self).title,
                self.tasks.len() == before.len(),
                before == old(self)@.tasks,
                forall|k: int|
                    0 <= k < i ==> #[trigger] self.tasks.deep_view()[k] == with_checked(
                        before,
                        id,
                        checked,
                    )[k],
                forall|k: int|
                    i <= k < before.len() ==> #[trigger] self.tasks.deep_view()[k] == before[k],
                found == exists|k: int| 0 <= k < i && (#[trigger] before[k]).id == id,
            decreases self.tasks.len() - i,
        {
            let ghost now = self.tasks.deep_view();
            assert(now[i as int] == before[i as int]);
            if self.tasks[i].id == id {
                self.tasks[i].checked = checked;
                found = true;
                assert(self.tasks.deep_view() =~= now.update(
                    i as int,
                    TaskState { checked, ..before[i as int] },
                ));
            }
            i += 1;
        }
        assert(self.tasks.deep_view() =~= with_checked(before, id, checked));
        found
    }

    /// The collection that `record` describes, with the next identifier, and
    /// with the next identifiers for its tasks in their order.
    pub fn from_record(
        record: &CollectionRecord,
        ids: &mut IdAllocator,
        task_ids: &mut IdAllocator,
    ) -> (collection: Collection)
        requires
            old(ids).left() > 0,
            old(task_ids).left() >= record@.tasks.len(),
        ensures
            collection@ == (CollectionState {
                id: collection@.id,
                title: record@.title,
                tasks: tasks_from(record@.tasks, old(task_ids)@),
            }),
            collection@.id == old(ids)@,
            final(ids)@ == old(ids)@ + 1,
            final(task_ids)@ == old(task_ids)@ + record@.tasks.len(),
    {
        let ghost first = task_ids@;
        let ghost wanted = tasks_from(record@.tasks, first);
        proof {
            task_ids.lemma_bounded();
        }
        let mut tasks: Vec<Task> = Vec::new();
        let mut i: usize = 0;
        while i < record.tasks.len()
            invariant
                i <= record.tasks.len(),
                tasks.len() == i,
                task_ids@ == first + i,
                first + record.tasks.len() <= u64::MAX,
                record@.tasks.len() == record.tasks.len(),
                wanted == tasks_from(record@.tasks, first),
                forall|k: int| 0 <= k < i ==> (#[trigger] tasks[k])@ == wanted[k],
            decreases record.tasks.len() - i,
        {
            let task = Task::from_record(&record.tasks[i], task_ids);
            assert(record.tasks[i as int]@ == record@.tasks[i as int]);
            assert(task@ == wanted[i as int]);
            tasks.push(task);
            i += 1;
        }
        assert(tasks.deep_view() =~= wanted);
        Collection { id: ids.allocate(), title: record.title.clone(), tasks }
    }

    /// Takes out every task whose identifier is `id`, and returns the name of
    /// the last of them.
    pub fn remove_task_by_id(&mut self, id: u64) -> (name: Option<String>)
        ensures
            final(self)@ == (CollectionState {
                tasks: without_task(old(self)@.tasks, id),
                ..old(self)@
            }),
            match name_of_task(old(self)@.tasks, id) {
                Some(n) => name matches Some(found) && found@ == n,
                None => name is None,
            },
    {
        remove_task(&mut self.tasks, id)
    }

    /// Takes out every task that is done, and says whether there was one.
    pub fn remove_done_tasks(&mut self) -> (any: bool)
        ensures
            final(self)@ == (CollectionState {
                tasks: without_done(old(self)@.tasks),
                ..old(self)@
            }),
            any == (final(self)@.tasks.len() < old(self)@.tasks.len()),
    {
        remove_done(&mut self.tasks)
    }

    /// What is stored of the collection.
    pub fn record(&self) -> (record: CollectionRecord)
        ensures
            record@ == self@.record(),
    {
        CollectionRecord { title: self.title.clone(), tasks: records_of_tasks(&self.tasks) }
    }
}

} // verus!
