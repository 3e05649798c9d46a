use todo_core::decode::decode_collections;
use todo_core::encode::encode_collections;
use todo_core::ids::IdAllocator;
use todo_core::model::{Collection, Task};
use todo_core::record::{CollectionRecord, TaskRecord};
use todo_core::workspace::Workspace;

fn task_record(checked: bool, name: &str) -> TaskRecord {
    TaskRecord { checked, name: name.to_string() }
}

fn collection_record(title: &str, tasks: Vec<TaskRecord>) -> CollectionRecord {
    CollectionRecord { title: title.to_string(), tasks }
}

fn names(collection: &Collection) -> Vec<(u64, String, bool)> {
    collection
        .tasks()
        .iter()
        .map(|t| (t.get_id(), t.name().to_string(), t.checked()))
        .collect()
}

#[test]
fn identifiers_count_up_from_zero() {
    let mut ids = IdAllocator::new();
    assert_eq!(ids.remaining(), u64::MAX);
    assert_eq!(ids.allocate(), 0);
    assert_eq!(ids.allocate(), 1);
    assert_eq!(ids.allocate(), 2);
    assert_eq!(ids.remaining(), u64::MAX - 3);
}

#[test]
fn each_kind_of_entity_counts_for_itself() {
    let mut collection_ids = IdAllocator::new();
    let mut task_ids = IdAllocator::new();
    let mut first = Collection::new("a", &mut collection_ids);
    let mut second = Collection::new("b", &mut collection_ids);
    assert_eq!(first.get_id(), 0);
    assert_eq!(second.get_id(), 1);
    assert_eq!(first.title(), "a");
    assert_eq!(first.add_task("x", &mut task_ids), 0);
    assert_eq!(second.add_task("y", &mut task_ids), 1);
    assert_eq!(first.add_task("z", &mut task_ids), 2);
    assert_eq!(
        names(&first),
        vec![(0, "x".to_string(), false), (2, "z".to_string(), false)]
    );
    let lone = Task::new("w", &mut task_ids);
    assert_eq!((lone.get_id(), lone.name(), lone.checked()), (3, "w", false));
}

#[test]
fn a_new_workspace_is_empty() {
    let w = Workspace::new();
    assert!(w.collections().is_empty());
    assert!(w.records().is_empty());
    assert!(w.has_room_for_collection());
    assert!(w.has_room_for_task());
    assert_eq!(w.position_of(0), None);
}

#[test]
fn collections_are_added_behind_the_others() {
    let mut w = Workspace::new();
    assert_eq!(w.add_collection("Home"), 0);
    assert_eq!(w.add_collection("Work"), 1);
    assert_eq!(w.add_collection("Home"), 2);
    let titles: Vec<&str> = w.collections().iter().map(|c| c.title()).collect();
    assert_eq!(titles, vec!["Home", "Work", "Home"]);
    assert_eq!(w.position_of(1), Some(1));
    assert_eq!(w.position_of(2), Some(2));
    assert_eq!(w.position_of(3), None);
}

#[test]
fn a_removed_collection_is_gone_and_its_identifier_is_not_used_again() {
    let mut w = Workspace::new();
    w.add_collection("a");
    w.add_collection("b");
    w.add_collection("c");
    assert!(w.remove_collection_by_id(1));
    assert!(!w.remove_collection_by_id(1));
    assert!(!w.remove_collection_by_id(7));
    let ids: Vec<u64> = w.collections().iter().map(|c| c.get_id()).collect();
    assert_eq!(ids, vec![0, 2]);
    assert_eq!(w.position_of(2), Some(1));
    assert_eq!(w.add_collection("d"), 3);
}

#[test]
fn a_task_is_added_to_the_selected_collection() {
    let mut w = Workspace::new();
    let home = w.add_collection("Home");
    let work = w.add_collection("Work");
    assert_eq!(w.add_task(Some(work), "  Write report "), Some(0));
    assert_eq!(w.add_task(Some(home), "Buy milk"), Some(1));
    assert_eq!(w.add_task(Some(work), "Call"), Some(2));
    assert_eq!(names(&w.collections()[0]), vec![(1, "Buy milk".to_string(), false)]);
    assert_eq!(
        names(&w.collections()[1]),
        vec![(0, "Write report".to_string(), false), (2, "Call".to_string(), false)]
    );
}

#[test]
fn nothing_is_added_without_a_selection_or_a_name() {
    let mut w = Workspace::new();
    let home = w.add_collection("Home");
    assert_eq!(w.add_task(None, "Buy milk"), None);
    assert_eq!(w.add_task(Some(home), "   "), None);
    assert_eq!(w.add_task(Some(home), ""), None);
    assert_eq!(w.add_task(Some(home + 1), "Buy milk"), None);
    assert!(w.collections()[0].tasks().is_empty());
    assert_eq!(w.add_task(Some(home), "Buy milk"), Some(0));
}

#[test]
fn a_task_is_removed_from_the_selected_collection_only() {
    let mut w = Workspace::new();
    let home = w.add_collection("Home");
    let work = w.add_collection("Work");
    let milk = w.add_task(Some(home), "Buy milk").unwrap();
    let report = w.add_task(Some(work), "Write report").unwrap();
    let bread = w.add_task(Some(home), "Buy bread").unwrap();
    assert_eq!(w.remove_task_by_id(Some(work), milk), None);
    assert_eq!(w.remove_task_by_id(None, milk), None);
    assert_eq!(w.remove_task_by_id(Some(9), milk), None);
    assert_eq!(w.collections()[0].tasks().len(), 2);
    assert_eq!(w.remove_task_by_id(Some(home), milk), Some("Buy milk".to_string()));
    assert_eq!(w.remove_task_by_id(Some(home), milk), None);
    assert_eq!(names(&w.collections()[0]), vec![(bread, "Buy bread".to_string(), false)]);
    assert_eq!(names(&w.collections()[1]), vec![(report, "Write report".to_string(), false)]);
}

#[test]
fn done_tasks_are_removed_and_the_others_keep_their_order() {
    let mut w = Workspace::new();
    let home = w.add_collection("Home");
    let work = w.add_collection("Work");
    let a = w.add_task(Some(home), "a").unwrap();
    let b = w.add_task(Some(home), "b").unwrap();
    let c = w.add_task(Some(home), "c").unwrap();
    let d = w.add_task(Some(home), "d").unwrap();
    let e = w.add_task(Some(work), "e").unwrap();
    assert!(w.set_task_checked(home, a, true));
    assert!(w.set_task_checked(home, c, true));
    assert!(w.set_task_checked(work, e, true));
    assert!(w.set_task_checked(home, d, true));
    assert!(w.set_task_checked(home, d, false));
    assert!(!w.set_task_checked(7, d, true));
    assert!(!w.remove_done_tasks(None));
    assert!(!w.remove_done_tasks(Some(7)));
    assert_eq!(w.collections()[0].tasks().len(), 4);
    assert!(w.remove_done_tasks(Some(home)));
    assert_eq!(
        names(&w.collections()[0]),
        vec![(b, "b".to_string(), false), (d, "d".to_string(), false)]
    );
    assert_eq!(names(&w.collections()[1]), vec![(e, "e".to_string(), true)]);
    assert!(w.remove_done_tasks(Some(home)));
    assert_eq!(w.collections()[0].tasks().len(), 2);
}

#[test]
fn collections_keep_what_their_own_operations_leave() {
    let mut collection_ids = IdAllocator::new();
    let mut task_ids = IdAllocator::new();
    let mut c = Collection::new("c", &mut collection_ids);
    let x = c.add_task("x", &mut task_ids);
    let y = c.add_task("y", &mut task_ids);
    assert!(c.set_checked(y, true));
    assert!(!c.set_checked(9, true));
    assert_eq!(c.remove_task_by_id(9), None);
    assert_eq!(c.remove_task_by_id(x), Some("x".to_string()));
    assert_eq!(names(&c), vec![(y, "y".to_string(), true)]);
    assert_eq!(c.record(), collection_record("c", vec![task_record(true, "y")]));
    assert!(c.remove_done_tasks());
    assert!(!c.remove_done_tasks());
    assert!(c.tasks().is_empty());
}

#[test]
fn what_is_stored_is_titles_and_tasks_without_identifiers() {
    let mut w = Workspace::new();
    let home = w.add_collection("Home");
    w.add_collection("");
    let milk = w.add_task(Some(home), "Buy milk").unwrap();
    w.add_task(Some(home), "Buy bread").unwrap();
    w.set_task_checked(home, milk, true);
    assert_eq!(
        w.records(),
        vec![
            collection_record(
                "Home",
                vec![task_record(true, "Buy milk"), task_record(false, "Buy bread")]
            ),
            collection_record("", vec![]),
        ]
    );
}

#[test]
fn loaded_collections_get_fresh_identifiers_in_order() {
    let records = vec![
        collection_record("a", vec![task_record(true, "x"), task_record(false, "y")]),
        collection_record("b", vec![]),
        collection_record("c", vec![task_record(false, "z")]),
    ];
    let mut w = Workspace::new();
    let first = w.add_collection("first");
    w.add_task(Some(first), "t");
    assert!(w.has_room_for(&records));
    w.load(&records);
    let ids: Vec<u64> = w.collections().iter().map(|c| c.get_id()).collect();
    assert_eq!(ids, vec![0, 1, 2, 3]);
    assert_eq!(
        names(&w.collections()[1]),
        vec![(1, "x".to_string(), true), (2, "y".to_string(), false)]
    );
    assert!(w.collections()[2].tasks().is_empty());
    assert_eq!(names(&w.collections()[3]), vec![(3, "z".to_string(), false)]);
    assert_eq!(w.add_collection("next"), 4);
    assert_eq!(w.add_task(Some(4), "next"), Some(4));
}

#[test]
fn a_stored_workspace_is_loaded_with_the_same_contents() {
    let mut w = Workspace::new();
    let home = w.add_collection("Home");
    let work = w.add_collection("Work \"2\"");
    let milk = w.add_task(Some(home), "Buy milk\n").unwrap();
    w.add_task(Some(work), "Report").unwrap();
    w.set_task_checked(home, milk, true);
    w.remove_collection_by_id(home);
    w.add_collection("Last");

    let text = encode_collections(&w.records());
    let records = decode_collections(&text).unwrap();
    let mut loaded = Workspace::new();
    assert!(loaded.has_room_for(&records));
    loaded.load(&records);
    assert_eq!(loaded.records(), w.records());
    let ids: Vec<u64> = loaded.collections().iter().map(|c| c.get_id()).collect();
    assert_eq!(ids, vec![0, 1]);
    let old_ids: Vec<u64> = w.collections().iter().map(|c| c.get_id()).collect();
    assert_eq!(old_ids, vec![1, 2]);
}
