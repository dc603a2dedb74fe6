use todo_store::store::{StoreError, TaskStore};
use todo_store::task::Task;

#[test]
fn new_task_is_unsaved_and_not_completed() {
    let t = Task::new("write report".to_string());
    assert_eq!(t.id, None);
    assert_eq!(t.description, "write report");
    assert_eq!(t.completed, Some(false));
}

#[test]
fn insert_toggle_delete_scenario() {
    let mut store = TaskStore::new();

    assert_eq!(Task::insert(Task::new("buy milk".to_string()), &mut store), Ok(1));
    let listed = Task::all(&store).unwrap();
    assert_eq!(listed.len(), 1);
    assert_eq!(listed[0].id, Some(1));
    assert_eq!(listed[0].description, "buy milk");
    assert_eq!(listed[0].completed, Some(false));

    assert_eq!(Task::toggle_with_id(1, &mut store), Ok(1));
    let listed = Task::all(&store).unwrap();
    assert_eq!(listed.len(), 1);
    assert_eq!(listed[0].id, Some(1));
    assert_eq!(listed[0].description, "buy milk");
    assert_eq!(listed[0].completed, Some(true));

    assert_eq!(Task::delete_with_id(1, &mut store), Ok(1));
    let listed = Task::all(&store).unwrap();
    assert!(listed.is_empty());
}

#[test]
fn insert_lists_newest_first() {
    let mut store = TaskStore::new();
    assert_eq!(Task::insert(Task::new("first".to_string()), &mut store), Ok(1));
    assert_eq!(Task::insert(Task::new("second".to_string()), &mut store), Ok(1));
    assert_eq!(Task::insert(Task::new("third".to_string()), &mut store), Ok(1));

    let listed = Task::all(&store).unwrap();
    assert_eq!(listed.len(), 3);
    assert_eq!(listed[0].id, Some(3));
    assert_eq!(listed[0].description, "third");
    assert_eq!(listed[0].completed, Some(false));
    assert_eq!(listed[1].id, Some(2));
    assert_eq!(listed[1].description, "second");
    assert_eq!(listed[2].id, Some(1));
    assert_eq!(listed[2].description, "first");
}

#[test]
fn insert_ignores_client_supplied_id_and_flag() {
    let mut store = TaskStore::new();
    let forged = Task { id: Some(99), description: "pay rent".to_string(), completed: Some(true) };
    assert_eq!(Task::insert(forged, &mut store), Ok(1));

    let listed = Task::all(&store).unwrap();
    assert_eq!(listed.len(), 1);
    assert_eq!(listed[0].id, Some(1));
    assert_eq!(listed[0].description, "pay rent");
    assert_eq!(listed[0].completed, Some(false));
}

#[test]
fn toggle_absent_id_is_not_found() {
    let mut store = TaskStore::new();
    assert_eq!(Task::toggle_with_id(1, &mut store), Err(StoreError::NotFound));

    assert_eq!(Task::insert(Task::new("water plants".to_string()), &mut store), Ok(1));
    assert_eq!(Task::toggle_with_id(2, &mut store), Err(StoreError::NotFound));
    // the failed toggle touched nothing
    let listed = Task::all(&store).unwrap();
    assert_eq!(listed.len(), 1);
    assert_eq!(listed[0].completed, Some(false));
}

#[test]
fn delete_absent_id_counts_zero_rows() {
    let mut store = TaskStore::new();
    assert_eq!(Task::delete_with_id(5, &mut store), Ok(0));

    assert_eq!(Task::insert(Task::new("call plumber".to_string()), &mut store), Ok(1));
    assert_eq!(Task::delete_with_id(5, &mut store), Ok(0));
    assert_eq!(Task::all(&store).unwrap().len(), 1);
}

#[test]
fn toggle_twice_restores_the_flag() {
    let mut store = TaskStore::new();
    assert_eq!(Task::insert(Task::new("sweep stairs".to_string()), &mut store), Ok(1));

    assert_eq!(Task::toggle_with_id(1, &mut store), Ok(1));
    assert_eq!(Task::all(&store).unwrap()[0].completed, Some(true));
    assert_eq!(Task::toggle_with_id(1, &mut store), Ok(1));
    assert_eq!(Task::all(&store).unwrap()[0].completed, Some(false));
}

#[test]
fn toggle_after_delete_is_not_found() {
    let mut store = TaskStore::new();
    assert_eq!(Task::insert(Task::new("return books".to_string()), &mut store), Ok(1));
    assert_eq!(Task::delete_with_id(1, &mut store), Ok(1));
    assert_eq!(Task::toggle_with_id(1, &mut store), Err(StoreError::NotFound));
}

#[test]
fn delete_all_then_list_is_empty() {
    let mut store = TaskStore::new();
    assert_eq!(Task::insert(Task::new("one".to_string()), &mut store), Ok(1));
    assert_eq!(Task::insert(Task::new("two".to_string()), &mut store), Ok(1));
    assert_eq!(Task::insert(Task::new("three".to_string()), &mut store), Ok(1));

    assert_eq!(Task::delete_all(&mut store), Ok(3));
    assert!(Task::all(&store).unwrap().is_empty());
    assert_eq!(Task::delete_all(&mut store), Ok(0));
}

#[test]
fn ids_are_not_reused_after_deletes() {
    let mut store = TaskStore::new();
    assert_eq!(Task::insert(Task::new("one".to_string()), &mut store), Ok(1));
    assert_eq!(Task::insert(Task::new("two".to_string()), &mut store), Ok(1));
    assert_eq!(Task::delete_all(&mut store), Ok(2));

    assert_eq!(Task::insert(Task::new("three".to_string()), &mut store), Ok(1));
    let listed = Task::all(&store).unwrap();
    assert_eq!(listed.len(), 1);
    assert_eq!(listed[0].id, Some(3));
}

#[test]
fn delete_middle_row_keeps_the_others_in_order() {
    let mut store = TaskStore::new();
    assert_eq!(Task::insert(Task::new("one".to_string()), &mut store), Ok(1));
    assert_eq!(Task::insert(Task::new("two".to_string()), &mut store), Ok(1));
    assert_eq!(Task::insert(Task::new("three".to_string()), &mut store), Ok(1));

    assert_eq!(Task::delete_with_id(2, &mut store), Ok(1));
    let listed = Task::all(&store).unwrap();
    assert_eq!(listed.len(), 2);
    assert_eq!(listed[0].id, Some(3));
    assert_eq!(listed[0].description, "three");
    assert_eq!(listed[1].id, Some(1));
    assert_eq!(listed[1].description, "one");
}

#[test]
fn toggle_only_touches_the_requested_row() {
    let mut store = TaskStore::new();
    assert_eq!(Task::insert(Task::new("one".to_string()), &mut store), Ok(1));
    assert_eq!(Task::insert(Task::new("two".to_string()), &mut store), Ok(1));

    assert_eq!(Task::toggle_with_id(1, &mut store), Ok(1));
    let listed = Task::all(&store).unwrap();
    assert_eq!(listed[0].id, Some(2));
    assert_eq!(listed[0].completed, Some(false));
    assert_eq!(listed[1].id, Some(1));
    assert_eq!(listed[1].completed, Some(true));
}

#[test]
fn cloned_task_matches_the_original() {
    let t = Task { id: Some(4), description: "walk dog".to_string(), completed: Some(true) };
    let c = t.clone();
    assert_eq!(c.id, t.id);
    assert_eq!(c.description, t.description);
    assert_eq!(c.completed, t.completed);
}
