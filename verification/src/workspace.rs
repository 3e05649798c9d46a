//! All the collections of a run, and what the user can do to them.
//!
//! Which collection is selected is not kept here: it is handed to each
//! operation that acts on the selected collection, so that it can live in a
//! [`crate::watcher::Watcher`] beside the workspace.

use vstd::prelude::*;

use crate::ids::IdAllocator;
use crate::model::{
    ascending, below, collection_records, lemma_without_done, lemma_without_task, name_of_task,
    task_records, tasks_from, with_checked, without_done, without_task, Collection,
    CollectionState, TaskState,
};
use crate::present::{accepted_entry, entered_name};
use crate::record::{CollectionModel, CollectionRecord};

verus! {

/// The place of the first collection whose identifier is `id`.
pub open spec fn place_of(collections: Seq<CollectionState>, id: u64) -> Option<int>
    decreases collections.len(),
{
    if collections.len() == 0 {
        None
    } else {
        match place_of(collections.drop_last(), id) {
            Some(p) => Some(p),
            None => if collections.last().id == id {
                Some(collections.len() - 1)
            } else {
                None
            },
        }
    }
}

/// The number of tasks in all the records.
pub open spec fn count_tasks(records: Seq<CollectionModel>) -> nat
    decreases records.len(),
{
    if records.len() == 0 {
        0
    } else {
        count_tasks(records.drop_last()) + records.last().tasks.len()
    }
}

/// A workspace, as the contracts see it: its collections in their order, and the
/// identifiers that the next collection and the next task will get.
pub ghost struct WorkspaceState {
    pub collections: Seq<CollectionState>,
    pub next_collection: nat,
    pub next_task: nat,
}

impl WorkspaceState {
    /// A workspace without collections that has handed out no identifier.
    pub open spec fn initial() -> Self {
        WorkspaceState { collections: Seq::empty(), next_collection: 0, next_task: 0 }
    }

    /// No two collections share an identifier, no two tasks do, and every
    /// identifier in use is below the next of its kind. Along each list the
    /// identifiers go up.
    pub open spec fn wf(self) -> bool {
        &&& self.next_collection <= u64::MAX
        &&& self.next_task <= u64::MAX
        &&& forall|a: int, b: int|
            0 <= a < b < self.collections.len() ==> self.collections[a].id
                < self.collections[b].id
        &&& forall|a: int|
            0 <= a < self.collections.len() ==> (#[trigger] self.collections[a]).id
                < self.next_collection
        &&& forall|a: int|
            0 <= a < self.collections.len() ==> ascending((#[trigger] self.collections[a]).tasks)
                && below(self.collections[a].tasks, self.next_task)
        &&& forall|a: int, b: int, k: int, l: int|
            0 <= a < b < self.collections.len() && 0 <= k < self.collections[a].tasks.len() && 0
                <= l < self.collections[b].tasks.len() ==> (#[trigger] self.collections[a].tasks[k]).id
                != (#[trigger] self.collections[b].tasks[l]).id
    }

    /// The collection at place `p` is replaced by one with other tasks.
    pub open spec fn with_tasks_at(self, p: int, tasks: Seq<TaskState>) -> Self {
        WorkspaceState {
            collections: self.collections.update(
                p,
                CollectionState { tasks, ..self.collections[p] },
            ),
            ..self
        }
    }

    /// A collection of that title is added behind the others.
    pub open spec fn add_collection(self, title: Seq<char>) -> Self {
        WorkspaceState {
            collections: self.collections.push(
                CollectionState {
                    id: self.next_collection as u64,
                    title,
                    tasks: Seq::empty(),
                },
            ),
            next_collection: self.next_collection + 1,
            ..self
        }
    }

    /// The collection of that identifier is taken out.
    pub open spec fn remove_collection(self, id: u64) -> Self {
        match place_of(self.collections, id) {
            Some(p) => WorkspaceState { collections: self.collections.remove(p), ..self },
            None => self,
        }
    }

    /// The place of the collection that an entry of `text` adds a task to,
    /// and the name of the task: there is one where a collection is
    /// selected, is there, and the text holds more than white space.
    pub open spec fn entry(self, selected: Option<u64>, text: Seq<char>) -> Option<
        (int, Seq<char>),
    > {
        match (selected, entered_name(text)) {
            (Some(c), Some(name)) => match place_of(self.collections, c) {
                Some(p) => Some((p, name)),
                None => None,
            },
            _ => None,
        }
    }

    /// A task is added to the selected collection, as far as `entry` gives
    /// one.
    pub open spec fn add_task(self, selected: Option<u64>, text: Seq<char>) -> Self {
        match self.entry(selected, text) {
            Some((p, name)) => WorkspaceState {
                next_task: self.next_task + 1,
                ..self.with_tasks_at(
                    p,
                    self.collections[p].tasks.push(
                        TaskState { id: self.next_task as u64, name, checked: false },
                    ),
                )
            },
            None => self,
        }
    }

    /// The place of the selected collection, where one is selected and is
    /// there.
    pub open spec fn selected_place(self, selected: Option<u64>) -> Option<int> {
        match selected {
            Some(c) => place_of(self.collections, c),
            None => None,
        }
    }

    /// The task of that identifier is taken out of the selected collection.
    pub open spec fn remove_task(self, selected: Option<u64>, task: u64) -> Self {
        match self.selected_place(selected) {
            Some(p) => self.with_tasks_at(p, without_task(self.collections[p].tasks, task)),
            None => self,
        }
    }

    /// The done tasks are taken out of the selected collection.
    pub open spec fn remove_done(self, selected: Option<u64>) -> Self {
        match self.selected_place(selected) {
            Some(p) => self.with_tasks_at(p, without_done(self.collections[p].tasks)),
            None => self,
        }
    }

    /// The task of that identifier in the collection of that identifier is
    /// marked done or not done.
    pub open spec fn set_checked(self, collection: u64, task: u64, checked: bool) -> Self {
        match place_of(self.collections, collection) {
            Some(p) => self.with_tasks_at(p, with_checked(self.collections[p].tasks, task, checked)),
            None => self,
        }
    }

    /// The collection that a record describes is added behind the others,
    /// with fresh identifiers for it and for its tasks in their order.
    pub open spec fn add_record(self, record: CollectionModel) -> Self {
        WorkspaceState {
            collections: self.collections.push(
                CollectionState {
                    id: self.next_collection as u64,
                    title: record.title,
                    tasks: tasks_from(record.tasks, self.next_task),
                },
            ),
            next_collection: self.next_collection + 1,
            next_task: self.next_task + record.tasks.len(),
        }
    }

    /// The collections that the records describe are added in their order.
    pub open spec fn add_records(self, records: Seq<CollectionModel>) -> Self
        decreases records.len(),
    {
        if records.len() == 0 {
            self
        } else {
            self.add_records(records.drop_last()).add_record(records.last())
        }
    }

    /// There are identifiers left for all that the records describe.
    pub open spec fn has_room_for(self, records: Seq<CollectionModel>) -> bool {
        &&& self.next_collection + records.len() <= u64::MAX
        &&& self.next_task + count_tasks(records) <= u64::MAX
    }
}

/// Where `place_of` finds a collection, it has the identifier and none
/// before it has; where it finds none, none has.
pub proof fn lemma_place_of(collections: Seq<CollectionState>, id: u64)
    ensures
        match place_of(collections, id) {
            Some(p) => 0 <= p < collections.len() && collections[p].id == id && forall|k: int|
                0 <= k < p ==> (#[trigger] collections[k]).id != id,
            None => forall|k: int|
                0 <= k < collections.len() ==> (#[trigger] collections[k]).id != id,
        },
    decreases collections.len(),
{
    if collections.len() > 0 {
        let front = collections.drop_last();
        lemma_place_of(front, id);
        match place_of(front, id) {
            Some(p) => {
                assert(front[p] == collections[p]);
                assert forall|k: int| 0 <= k < p implies (#[trigger] collections[k]).id != id by {
                    assert(front[k] == collections[k]);
                }
            },
            None => {
                assert forall|k: int| 0 <= k < collections.len() - 1 implies (
                #[trigger] collections[k]).id != id by {
                    assert(front[k] == collections[k]);
                }
            },
        }
    }
}

/// What `place_of` finds in the front of a list it finds in the whole.
pub proof fn lemma_place_prefix(collections: Seq<CollectionState>, n: int, id: u64)
    requires
        0 <= n <= collections.len(),
        place_of(collections.take(n), id) is Some,
    ensures
        place_of(collections, id) == place_of(collections.take(n), id),
    decreases collections.len() - n,
{
    if n < collections.len() {
        assert(collections.take(n + 1).drop_last() =~= collections.take(n));
        lemma_place_prefix(collections, n + 1, id);
    } else {
        assert(collections.take(n) =~= collections);
    }
}

/// Adding a collection keeps the workspace well formed.
pub proof fn lemma_add_collection_wf(w: WorkspaceState, title: Seq<char>)
    requires
        w.wf(),
        w.next_collection < u64::MAX,
    ensures
        w.add_collection(title).wf(),
{
    let after = w.add_collection(title);
    assert forall|a: int| 0 <= a < after.collections.len() implies ascending(
        (#[trigger] after.collections[a]).tasks,
    ) && below(after.collections[a].tasks, after.next_task) by {
        if a < w.collections.len() {
            assert(after.collections[a] == w.collections[a]);
        }
    }
    assert forall|a: int, b: int, k: int, l: int|
        0 <= a < b < after.collections.len() && 0 <= k < after.collections[a].tasks.len() && 0 <= l
            < after.collections[b].tasks.len() implies (#[trigger] after.collections[a].tasks[k]).id
        != (#[trigger] after.collections[b].tasks[l]).id by {
        assert(after.collections[a] == w.collections[a]);
        assert(after.collections[b] == w.collections[b]);
    }
}

/// The place that the collection at place `a` had before the one at place
/// `p` was taken out.
pub open spec fn place_before_removal(a: int, p: int) -> int {
    if a < p {
        a
    } else {
        a + 1
    }
}

/// Taking a collection out keeps the workspace well formed, and no
/// collection of that identifier is left.
pub proof fn lemma_remove_collection_wf(w: WorkspaceState, id: u64)
    requires
        w.wf(),
    ensures
        w.remove_collection(id).wf(),
        place_of(w.remove_collection(id).collections, id) is None,
{
    let after = w.remove_collection(id);
    lemma_place_of(w.collections, id);
    lemma_place_of(after.collections, id);
    match place_of(w.collections, id) {
        Some(p) => {
            assert forall|a: int| 0 <= a < after.collections.len() implies (
            #[trigger] after.collections[a]) == w.collections[place_before_removal(a, p)] by {}
            assert forall|a: int| 0 <= a < after.collections.len() implies (
            #[trigger] after.collections[a]).id != id by {
                let a0 = place_before_removal(a, p);
                assert(w.collections[a0].id != w.collections[p].id);
            }
            assert forall|a: int, b: int, k: int, l: int|
                0 <= a < b < after.collections.len() && 0 <= k < after.collections[a].tasks.len()
                    && 0 <= l < after.collections[b].tasks.len() implies (
            #[trigger] after.collections[a].tasks[k]).id != (
            #[trigger] after.collections[b].tasks[l]).id by {
                let a0 = place_before_removal(a, p);
                let b0 = place_before_removal(b, p);
                assert(after.collections[a] == w.collections[a0]);
                assert(after.collections[b] == w.collections[b0]);
                assert(w.collections[a0].tasks[k].id != w.collections[b0].tasks[l].id);
            }
        },
        None => {},
    }
}

/// Replacing the tasks of one collection by some of them, in their order,
/// keeps the workspace well formed.
pub proof fn lemma_fewer_tasks_wf(w: WorkspaceState, p: int, tasks: Seq<TaskState>)
    requires
        w.wf(),
        0 <= p < w.collections.len(),
        ascending(tasks),
        forall|k: int| 0 <= k < tasks.len() ==> w.collections[p].tasks.contains(#[trigger] tasks[k]),
    ensures
        w.with_tasks_at(p, tasks).wf(),
{
    let after = w.with_tasks_at(p, tasks);
    let before = w.collections[p].tasks;
    assert forall|a: int| 0 <= a < after.collections.len() implies ascending(
        (#[trigger] after.collections[a]).tasks,
    ) && below(after.collections[a].tasks, after.next_task) by {
        if a == p {
            assert forall|k: int| 0 <= k < tasks.len() implies (#[trigger] tasks[k]).id
                < after.next_task by {
                let j = choose|j: int| 0 <= j < before.len() && before[j] == tasks[k];
                assert(before[j].id < w.next_task);
            }
        } else {
            assert(after.collections[a] == w.collections[a]);
        }
    }
    assert forall|a: int, b: int, k: int, l: int|
        0 <= a < b < after.collections.len() && 0 <= k < after.collections[a].tasks.len() && 0 <= l
            < after.collections[b].tasks.len() implies (#[trigger] after.collections[a].tasks[k]).id
        != (#[trigger] after.collections[b].tasks[l]).id by {
        if a == p {
            let j = choose|j: int| 0 <= j < before.len() && before[j] == tasks[k];
            assert(w.collections[a].tasks[j].id != w.collections[b].tasks[l].id);
        } else if b == p {
            let j = choose|j: int| 0 <= j < before.len() && before[j] == tasks[l];
            assert(w.collections[a].tasks[k].id != w.collections[b].tasks[j].id);
        } else {
            assert(w.collections[a].tasks[k].id != w.collections[b].tasks[l].id);
        }
    }
}

/// Adding a task keeps the workspace well formed.
pub proof fn lemma_add_task_wf(w: WorkspaceState, selected: Option<u64>, text: Seq<char>)
    requires
        w.wf(),
        w.next_task < u64::MAX,
    ensures
        w.add_task(selected, text).wf(),
{
    match w.entry(selected, text) {
        Some((p, name)) => {
            lemma_place_of(w.collections, selected->Some_0);
            let after = w.add_task(selected, text);
            let before = w.collections[p].tasks;
            let task = TaskState { id: w.next_task as u64, name, checked: false };
            assert(after.collections[p].tasks == before.push(task));
            assert forall|a: int| 0 <= a < after.collections.len() implies ascending(
                (#[trigger] after.collections[a]).tasks,
            ) && below(after.collections[a].tasks, after.next_task) by {
                if a == p {
                    assert forall|x: int, y: int|
                        0 <= x < y < before.push(task).len() implies before.push(task)[x].id
                        < before.push(task)[y].id by {
                        assert(before[x].id < w.next_task);
                    }
                    assert forall|x: int| 0 <= x < before.push(task).len() implies (
                    #[trigger] before.push(task)[x]).id < after.next_task by {
                        if x < before.len() {
                            assert(before[x].id < w.next_task);
                        }
                    }
                } else {
                    assert(after.collections[a] == w.collections[a]);
                    assert forall|x: int| 0 <= x < w.collections[a].tasks.len() implies (
                    #[trigger] w.collections[a].tasks[x]).id < after.next_task by {}
                }
            }
            assert forall|a: int, b: int, k: int, l: int|
                0 <= a < b < after.collections.len() && 0 <= k < after.collections[a].tasks.len()
                    && 0 <= l < after.collections[b].tasks.len() implies (
            #[trigger] after.collections[a].tasks[k]).id != (
            #[trigger] after.collections[b].tasks[l]).id by {
                assert(below(w.collections[a].tasks, w.next_task));
                assert(below(w.collections[b].tasks, w.next_task));
                if a == p {
                    if k < before.len() {
                        assert(w.collections[a].tasks[k].id != w.collections[b].tasks[l].id);
                    } else {
                        assert(w.collections[b].tasks[l].id < w.next_task);
                    }
                } else if b == p {
                    if l < before.len() {
                        assert(w.collections[a].tasks[k].id != w.collections[b].tasks[l].id);
                    } else {
                        assert(w.collections[a].tasks[k].id < w.next_task);
                    }
                } else {
                    assert(w.collections[a].tasks[k].id != w.collections[b].tasks[l].id);
                }
            }
        },
        None => {},
    }
}

/// Taking a task out keeps the workspace well formed.
pub proof fn lemma_remove_task_wf(w: WorkspaceState, selected: Option<u64>, task: u64)
    requires
        w.wf(),
    ensures
        w.remove_task(selected, task).wf(),
{
    match w.selected_place(selected) {
        Some(p) => {
            lemma_place_of(w.collections, selected->Some_0);
            lemma_without_task(w.collections[p].tasks, task);
            lemma_fewer_tasks_wf(w, p, without_task(w.collections[p].tasks, task));
        },
        None => {},
    }
}

/// Taking the done tasks out keeps the workspace well formed.
pub proof fn lemma_remove_done_wf(w: WorkspaceState, selected: Option<u64>)
    requires
        w.wf(),
    ensures
        w.remove_done(selected).wf(),
{
    match w.selected_place(selected) {
        Some(p) => {
            lemma_place_of(w.collections, selected->Some_0);
            lemma_without_done(w.collections[p].tasks);
            lemma_fewer_tasks_wf(w, p, without_done(w.collections[p].tasks));
        },
        None => {},
    }
}

/// Marking a task keeps the workspace well formed.
pub proof fn lemma_set_checked_wf(w: WorkspaceState, collection: u64, task: u64, checked: bool)
    requires
        w.wf(),
    ensures
        w.set_checked(collection, task, checked).wf(),
{
    match place_of(w.collections, collection) {
        Some(p) => {
            lemma_place_of(w.collections, collection);
            let after = w.set_checked(collection, task, checked);
            let before = w.collections[p].tasks;
            let marked = with_checked(before, task, checked);
            assert forall|a: int| 0 <= a < after.collections.len() implies ascending(
                (#[trigger] after.collections[a]).tasks,
            ) && below(after.collections[a].tasks, after.next_task) by {
                if a == p {
                    assert forall|x: int, y: int| 0 <= x < y < marked.len() implies marked[x].id
                        < marked[y].id by {
                        assert(before[x].id < before[y].id);
                    }
                    assert forall|x: int| 0 <= x < marked.len() implies (#[trigger] marked[x]).id
                        < after.next_task by {
                        assert(before[x].id < w.next_task);
                    }
                } else {
                    assert(after.collections[a] == w.collections[a]);
                }
            }
            assert forall|a: int, b: int, k: int, l: int|
                0 <= a < b < after.collections.len() && 0 <= k < after.collections[a].tasks.len()
                    && 0 <= l < after.collections[b].tasks.len() implies (
            #[trigger] after.collections[a].tasks[k]).id != (
            #[trigger] after.collections[b].tasks[l]).id by {
                assert(w.collections[a].tasks[k].id != w.collections[b].tasks[l].id);
            }
        },
        None => {},
    }
}

/// The tasks of the first records are among the tasks of all.
pub proof fn lemma_count_tasks(records: Seq<CollectionModel>, n: int)
    requires
        0 <= n <= records.len(),
    ensures
        count_tasks(records.take(n)) <= count_tasks(records),
        n < records.len() ==> count_tasks(records.take(n + 1)) == count_tasks(records.take(n))
            + records[n].tasks.len(),
    decreases records.len() - n,
{
    if n < records.len() {
        assert(records.take(n + 1).drop_last() =~= records.take(n));
        assert(records.take(n + 1).last() == records[n]);
        lemma_count_tasks(records, n + 1);
    } else {
        assert(records.take(n) =~= records);
    }
}

/// Adding what a record describes keeps the workspace well formed.
pub proof fn lemma_add_record_wf(w: WorkspaceState, record: CollectionModel)
    requires
        w.wf(),
        w.next_collection < u64::MAX,
        w.next_task + record.tasks.len() <= u64::MAX,
    ensures
        w.add_record(record).wf(),
{
    let after = w.add_record(record);
    let n = w.collections.len() as int;
    let added = tasks_from(record.tasks, w.next_task);
    assert forall|a: int| 0 <= a < after.collections.len() implies ascending(
        (#[trigger] after.collections[a]).tasks,
    ) && below(after.collections[a].tasks, after.next_task) by {
        if a < n {
            assert(after.collections[a] == w.collections[a]);
            assert forall|x: int| 0 <= x < w.collections[a].tasks.len() implies (
            #[trigger] w.collections[a].tasks[x]).id < after.next_task by {}
        } else {
            assert(after.collections[a].tasks == added);
        }
    }
    assert forall|a: int, b: int, k: int, l: int|
        0 <= a < b < after.collections.len() && 0 <= k < after.collections[a].tasks.len() && 0 <= l
            < after.collections[b].tasks.len() implies (#[trigger] after.collections[a].tasks[k]).id
        != (#[trigger] after.collections[b].tasks[l]).id by {
        assert(after.collections[a] == w.collections[a]);
        assert(below(w.collections[a].tasks, w.next_task));
        if b < n {
            assert(after.collections[b] == w.collections[b]);
        } else {
            assert(after.collections[b].tasks == added);
            assert(w.collections[a].tasks[k].id < w.next_task);
        }
    }
}

/// Adding what records describe keeps the workspace well formed and what
/// was there untouched. One identifier of each kind is used for each
/// collection and each task, and what is stored of the new collections is
/// the records: the titles and the tasks, in their order.
pub proof fn lemma_add_records(w: WorkspaceState, records: Seq<CollectionModel>)
    requires
        w.wf(),
        w.has_room_for(records),
    ensures
        w.add_records(records).wf(),
        w.add_records(records).next_collection == w.next_collection + records.len(),
        w.add_records(records).next_task == w.next_task + count_tasks(records),
        w.add_records(records).collections.len() == w.collections.len() + records.len(),
        w.add_records(records).collections.take(w.collections.len() as int) == w.collections,
        collection_records(w.add_records(records).collections) == collection_records(
            w.collections,
        ) + records,
    decreases records.len(),
{
    let n = w.collections.len() as int;
    if records.len() == 0 {
        assert(w.collections.take(n) =~= w.collections);
        assert(collection_records(w.collections) + records =~= collection_records(w.collections));
    } else {
        let front = records.drop_last();
        let last = records.last();
        lemma_add_records(w, front);
        let middle = w.add_records(front);
        let after = w.add_records(records);
        lemma_add_record_wf(middle, last);
        assert(after.collections.take(n) =~= middle.collections.take(n));
        assert(task_records(tasks_from(last.tasks, middle.next_task)) =~= last.tasks);
        assert(after.collections.last().record() == last);
        assert forall|k: int| 0 <= k < after.collections.len() implies #[trigger] collection_records(
            after.collections,
        )[k] == (collection_records(w.collections) + records)[k] by {
            if k < middle.collections.len() {
                assert(after.collections[k] == middle.collections[k]);
                assert(collection_records(middle.collections)[k] == (collection_records(
                    w.collections,
                ) + front)[k]);
                if k >= n {
                    assert(front[k - n] == records[k - n]);
                }
            }
        }
        assert(collection_records(after.collections) =~= collection_records(w.collections)
            + records);
    }
}

/// A workspace that is loaded and then stored gives the records back that
/// it was loaded from.
pub proof fn lemma_load_then_store(records: Seq<CollectionModel>)
    requires
        WorkspaceState::initial().has_room_for(records),
    ensures
        collection_records(WorkspaceState::initial().add_records(records).collections) == records,
{
    lemma_add_records(WorkspaceState::initial(), records);
    assert(collection_records(WorkspaceState::initial().collections) + records =~= records);
}

/// All the collections of a run, with the allocators of their identifiers.
pub struct Workspace {
    collections: Vec<Collection>,
    collection_ids: IdAllocator,
    task_ids: IdAllocator,
}

impl View for Workspace {
    type V = WorkspaceState;

    closed spec fn view(&self) -> WorkspaceState {
        WorkspaceState {
            collections: self.collections.deep_view(),
            next_collection: self.collection_ids@,
            next_task: self.task_ids@,
        }
    }
}

impl Workspace {
    /// See [`WorkspaceState::wf`].
    pub open spec fn wf(self) -> bool {
        self@.wf()
    }

    /// A workspace without collections.
    pub fn new() -> (w: Workspace)
        ensures
            w.wf(),
            w@ == WorkspaceState::initial(),
    {
        let collections: Vec<Collection> = Vec::new();
        assert(collections.deep_view() =~= Seq::<CollectionState>::empty());
        Workspace { collections, collection_ids: IdAllocator::new(), task_ids: IdAllocator::new() }
    }

    /// The collections, in their order.
    pub fn collections(&self) -> (collections: &Vec<Collection>)
        ensures
            collections.deep_view() == self@.collections,
    {
        &self.collections
    }

    /// Whether a collection can still be added.
    pub fn has_room_for_collection(&self) -> (room: bool)
        ensures
            room == (self@.next_collection < u64::MAX),
    {
        self.collection_ids.remaining() > 0
    }

    /// Whether a task can still be added.
    pub fn has_room_for_task(&self) -> (room: bool)
        ensures
            room == (self@.next_task < u64::MAX),
    {
        self.task_ids.remaining() > 0
    }

    /// The place of the collection whose identifier is `id`.
    pub fn position_of(&self, id: u64) -> (place: Option<usize>)
        ensures
            match place_of(self@.collections, id) {
                Some(p) => place matches Some(found) && found == p && p < self@.collections.len(),
                None => place is None,
            },
            match place {
                Some(p) => self@.collections[p as int].id == id && forall|k: int|
                    0 <= k < p ==> (#[trigger] self@.collections[k]).id != id,
                None => forall|k: int|
                    0 <= k < self@.collections.len() ==> (#[trigger] self@.collections[k]).id != id,
            },
    {
        proof {
            lemma_place_of(self@.collections, id);
        }
        let ghost all = self.collections.deep_view();
        let mut i: usize = 0;
        assert(all.take(0) =~= Seq::<CollectionState>::empty());
        while i < self.collections.len()
            invariant
                i <= self.collections.len(),
                all == self.collections.deep_view(),
                place_of(all.take(i as int), id) is None,
            decreases self.collections.len() - i,
        {
            proof {
                assert(all.take(i + 1).drop_last() =~= all.take(i as int));
                assert(all.take(i + 1).last() == all[i as int]);
                assert(self.collections[i as int]@ == all[i as int]);
            }
            if self.collections[i].get_id() == id {
                proof {
                    lemma_place_prefix(all, i + 1, id);
                    lemma_place_of(all, id);
                }
                return Some(i);
            }
            i += 1;
        }
        assert(all.take(i as int) =~= all);
        None
    }

    /// Adds a collection of that title behind the others, and returns its
    /// identifier.
    pub fn add_collection(&mut self, title: &str) -> (id: u64)
        requires
            old(self).wf(),
            old(self)@.next_collection < u64::MAX,
        ensures
            final(self).wf(),
            final(self)@ == old(self)@.add_collection(title@),
            id == old(self)@.next_collection,
    {
        let ghost before = self.collections.deep_view();
        let collection = Collection::new(title, &mut self.collection_ids);
        let id = collection.get_id();
        self.collections.push(collection);
        proof {
            assert(self.collections.deep_view() =~= before.push(collection@));
            assert(self@.collections =~= old(self)@.add_collection(title@).collections);
            lemma_add_collection_wf(old(self)@, title@);
        }
        id
    }

    /// Takes out the collection whose identifier is `id`, and says whether
    /// there was one.
    pub fn remove_collection_by_id(&mut self, id: u64) -> (found: bool)
        requires
            old(self).wf(),
        ensures
            final(self).wf(),
            final(self)@ == old(self)@.remove_collection(id),
            found == place_of(old(self)@.collections, id) is Some,
    {
        let ghost before = self.collections.deep_view();
        proof {
            lemma_remove_collection_wf(self@, id);
        }
        match self.position_of(id) {
            Some(p) => {
                let _ = self.collections.remove(p);
                assert(self.collections.deep_view() =~= before.remove(p as int));
                true
            },
            None => false,
        }
    }

    /// Adds a task to the selected collection, named by what was entered
    /// without the white space around it, and returns the task's
    /// identifier. Nothing is added where no collection is selected, where
    /// the selected one is not there, or where no more than white space was
    /// entered.
    pub fn add_task(&mut self, selected: Option<u64>, text: &str) -> (id: Option<u64>)
        requires
            old(self).wf(),
            old(self)@.next_task < u64::MAX,
        ensures
            final(self).wf(),
            final(self)@ == old(self)@.add_task(selected, text@),
            match old(self)@.entry(selected, text@) {
                Some(_) => id matches Some(found) && found == old(self)@.next_task,
                None => id is None,
            },
    {
        let ghost before = self.collections.deep_view();
        proof {
            lemma_add_task_wf(self@, selected, text@);
        }
        let collection = match selected {
            Some(c) => c,
            None => {
                return None;
            },
        };
        let name = match accepted_entry(text) {
            Some(name) => name,
            None => {
                return None;
            },
        };
        let p = match self.position_of(collection) {
            Some(p) => p,
            None => {
                return None;
            },
        };
        let id = self.collections[p].add_task(name, &mut self.task_ids);
        proof {
            assert(self.collections.deep_view() =~= before.update(
                p as int,
                self.collections[p as int]@,
            ));
            assert(self@.collections =~= old(self)@.add_task(selected, text@).collections);
        }
        Some(id)
    }

    /// Takes the task whose identifier is `task` out of the selected
    /// collection, and returns its name.
    pub fn remove_task_by_id(&mut self, selected: Option<u64>, task: u64) -> (name: Option<String>)
        requires
            old(self).wf(),
        ensures
            final(self).wf(),
            final(self)@ == old(self)@.remove_task(selected, task),
            match old(self)@.selected_place(selected) {
                Some(p) => match name_of_task(old(self)@.collections[p].tasks, task) {
                    Some(n) => name matches Some(found) && found@ == n,
                    None => name is None,
                },
                None => name is None,
            },
    {
        let ghost before = self.collections.deep_view();
        proof {
            lemma_remove_task_wf(self@, selected, task);
        }
        let collection = match selected {
            Some(c) => c,
            None => {
                return None;
            },
        };
        let p = match self.position_of(collection) {
            Some(p) => p,
            None => {
                return None;
            },
        };
        let name = self.collections[p].remove_task_by_id(task);
        proof {
            assert(self.collections.deep_view() =~= before.update(
                p as int,
                self.collections[p as int]@,
            ));
            assert(self@.collections =~= old(self)@.remove_task(selected, task).collections);
        }
        name
    }

    /// Takes the done tasks out of the selected collection, and says whether
    /// a collection was selected.
    pub fn remove_done_tasks(&mut self, selected: Option<u64>) -> (acted: bool)
        requires
            old(self).wf(),
        ensures
            final(self).wf(),
            final(self)@ == old(self)@.remove_done(selected),
            acted == old(self)@.selected_place(selected) is Some,
    {
        let ghost before = self.collections.deep_view();
        proof {
            lemma_remove_done_wf(self@, selected);
        }
        let collection = match selected {
            Some(c) => c,
            None => {
                return false;
            },
        };
        let p = match self.position_of(collection) {
            Some(p) => p,
            None => {
                return false;
            },
        };
        let _ = self.collections[p].remove_done_tasks();
        proof {
            assert(self.collections.deep_view() =~= before.update(
                p as int,
                self.collections[p as int]@,
            ));
            assert(self@.collections =~= old(self)@.remove_done(selected).collections);
        }
        true
    }

    /// Marks the task of that identifier in the collection of that
    /// identifier done or not done, and says whether the collection is
    /// there.
    pub fn set_task_checked(&mut self, collection: u64, task: u64, checked: bool) -> (found: bool)
        requires
            old(self).wf(),
        ensures
            final(self).wf(),
            final(self)@ == old(self)@.set_checked(collection, task, checked),
            found == place_of(old(self)@.collections, collection) is Some,
    {
        let ghost before = self.collections.deep_view();
        proof {
            lemma_set_checked_wf(self@, collection, task, checked);
        }
        let p = match self.position_of(collection) {
            Some(p) => p,
            None => {
                return false;
            },
        };
        let _ = self.collections[p].set_checked(task, checked);
        proof {
            assert(self.collections.deep_view() =~= before.update(
                p as int,
                self.collections[p as int]@,
            ));
            assert(self@.collections =~= old(self)@.set_checked(
                collection,
                task,
                checked,
            ).collections);
        }
        true
    }

    /// What is stored of the workspace: a record for each collection, in
    /// their order.
    pub fn records(&self) -> (records: Vec<CollectionRecord>)
        ensures
            records.deep_view() == collection_records(self@.collections),
    {
        let mut records: Vec<CollectionRecord> = Vec::new();
        let mut i: usize = 0;
        while i < self.collections.len()
            invariant
                i <= self.collections.len(),
                records.len() == i,
                forall|k: int|
                    0 <= k < i ==> (#[trigger] records[k])@ == self.collections[k]@.record(),
            decreases self.collections.len() - i,
        {
            records.push(self.collections[i].record());
            i += 1;
        }
        assert(records.deep_view() =~= collection_records(self@.collections));
        records
    }

    /// Whether there are identifiers left for all that the records
    /// describe.
    pub fn has_room_for(&self, records: &Vec<CollectionRecord>) -> (room: bool)
        requires
            self.wf(),
        ensures
            room == self@.has_room_for(records.deep_view()),
    {
        let ghost rs = records.deep_view();
        if records.len() as u64 > self.collection_ids.remaining() {
            return false;
        }
        let left = self.task_ids.remaining();
        let mut count: u64 = 0;
        let mut i: usize = 0;
        assert(rs.take(0) =~= Seq::<CollectionModel>::empty());
        while i < records.len()
            invariant
                i <= records.len(),
                rs == records.deep_view(),
                count == count_tasks(rs.take(i as int)),
                count <= left,
                left == u64::MAX - self@.next_task,
            decreases records.len() - i,
        {
            proof {
                lemma_count_tasks(rs, i as int);
                lemma_count_tasks(rs, i + 1);
                assert(records[i as int]@ == rs[i as int]);
            }
            let n = records[i].tasks.len() as u64;
            if n > left - count {
                return false;
            }
            count = count + n;
            i += 1;
        }
        assert(rs.take(i as int) =~= rs);
        true
    }

    /// Adds the collections that the records describe, in their order, with
    /// fresh identifiers for them and for their tasks.
    pub fn load(&mut self, records: &Vec<CollectionRecord>)
        requires
            old(self).wf(),
            old(self)@.has_room_for(records.deep_view()),
        ensures
            final(self).wf(),
            final(self)@ == old(self)@.add_records(records.deep_view()),
    {
        let ghost rs = records.deep_view();
        let ghost start = self@;
        let mut i: usize = 0;
        assert(rs.take(0) =~= Seq::<CollectionModel>::empty());
        while i < records.len()
            invariant
                i <= records.len(),
                rs == records.deep_view(),
                start.wf(),
                start.has_room_for(rs),
                self@ == start.add_records(rs.take(i as int)),
            decreases records.len() - i,
        {
            let ghost before = self.collections.deep_view();
            proof {
                lemma_count_tasks(rs, i as int);
                lemma_count_tasks(rs, i + 1);
                lemma_add_records(start, rs.take(i as int));
                assert(records[i as int]@ == rs[i as int]);
                assert(rs.take(i + 1).drop_last() =~= rs.take(i as int));
                assert(rs.take(i + 1).last() == rs[i as int]);
            }
            let collection = Collection::from_record(
                &records[i],
                &mut self.collection_ids,
                &mut self.task_ids,
            );
            self.collections.push(collection);
            proof {
                assert(self.collections.deep_view() =~= before.push(collection@));
                assert(self@.collections =~= start.add_records(rs.take(i + 1)).collections);
            }
            i += 1;
        }
        proof {
            assert(rs.take(i as int) =~= rs);
            lemma_add_records(start, rs);
        }
    }
}

} // verus!
