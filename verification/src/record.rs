//! The records that are stored: tasks, and the collections that hold them.

use vstd::prelude::*;

verus! {

/// A task as it is stored: whether it is done, and its name.
#[derive(Clone, Debug, PartialEq, Eq)]
pub struct TaskRecord {
    pub checked: bool,
    pub name: String,
}

/// A collection as it is stored: its title, and its tasks in their order.
#[derive(Clone, Debug, PartialEq, Eq)]
pub struct CollectionRecord {
    pub title: String,
    pub tasks: Vec<TaskRecord>,
}

/// A task record, as the contracts see it.
pub ghost struct TaskModel {
    pub checked: bool,
    pub name: Seq<char>,
}

/// A collection record, as the contracts see it.
pub ghost struct CollectionModel {
    pub title: Seq<char>,
    pub tasks: Seq<TaskModel>,
}

impl DeepView for TaskRecord {
    type V = TaskModel;

    open spec fn deep_view(&self) -> TaskModel {
        TaskModel { checked: self.checked, name: self.name@ }
    }
}

impl View for TaskRecord {
    type V = TaskModel;

    open spec fn view(&self) -> TaskModel {
        self.deep_view()
    }
}

impl DeepView for CollectionRecord {
    type V = CollectionModel;

    open spec fn deep_view(&self) -> CollectionModel {
        CollectionModel { title: self.title@, tasks: self.tasks.deep_view() }
    }
}

impl View for CollectionRecord {
    type V = CollectionModel;

    open spec fn view(&self) -> CollectionModel {
        self.deep_view()
    }
}

} // verus!
