use todo_list::ops;
use todo_list::record::Todo;

fn sample() -> Vec<Todo> {
    vec![
        Todo { description: String::from("buy milk"), completed: false },
        Todo { description: String::from("walk dog"), completed: true },
        Todo { description: String::from("write letter"), completed: false },
    ]
}

#[test]
fn new_record_is_uncompleted() {
    let t = Todo::new(String::from("buy milk"));
    assert_eq!(t.description, "buy milk");
    assert!(!t.completed);
}

#[test]
fn add_appends_one_uncompleted_record() {
    let mut list = sample();
    ops::add(&mut list, String::from("new task"));
    assert_eq!(list.len(), 4);
    assert_eq!(list[0].description, "buy milk");
    assert_eq!(list[1].description, "walk dog");
    assert_eq!(list[2].description, "write letter");
    assert_eq!(list[3].description, "new task");
    assert!(!list[3].completed);
}

#[test]
fn add_to_empty_list() {
    let mut list: Vec<Todo> = Vec::new();
    ops::add(&mut list, String::from("first"));
    assert_eq!(list.len(), 1);
    assert_eq!(list[0].description, "first");
    assert!(!list[0].completed);
}

#[test]
fn remove_valid_index_shifts_left() {
    let mut list = sample();
    let removed = ops::remove(&mut list, 1);
    let removed = removed.expect("index 1 exists");
    assert_eq!(removed.description, "walk dog");
    assert!(removed.completed);
    assert_eq!(list.len(), 2);
    assert_eq!(list[0].description, "buy milk");
    assert_eq!(list[1].description, "write letter");
}

#[test]
fn remove_first_and_last() {
    let mut list = sample();
    let removed = ops::remove(&mut list, 0).expect("index 0 exists");
    assert_eq!(removed.description, "buy milk");
    let removed = ops::remove(&mut list, 1).expect("index 1 exists");
    assert_eq!(removed.description, "write letter");
    assert_eq!(list.len(), 1);
    assert_eq!(list[0].description, "walk dog");
}

#[test]
fn remove_out_of_range_changes_nothing() {
    let mut list = sample();
    assert!(ops::remove(&mut list, 3).is_none());
    assert_eq!(list, sample());
    assert!(ops::remove(&mut list, 1000).is_none());
    assert_eq!(list, sample());
}

#[test]
fn remove_from_empty_list() {
    let mut list: Vec<Todo> = Vec::new();
    assert!(ops::remove(&mut list, 0).is_none());
    assert!(list.is_empty());
}

#[test]
fn complete_valid_index_sets_only_that_flag() {
    let mut list = sample();
    let desc = ops::complete(&mut list, 2).expect("index 2 exists");
    assert_eq!(desc, "write letter");
    assert_eq!(list[0].completed, false);
    assert_eq!(list[1].completed, true);
    assert_eq!(list[2].completed, true);
    assert_eq!(list[2].description, "write letter");
    assert_eq!(list.len(), 3);
}

#[test]
fn complete_already_completed_record() {
    let mut list = sample();
    let desc = ops::complete(&mut list, 1).expect("index 1 exists");
    assert_eq!(desc, "walk dog");
    assert!(list[1].completed);
}

#[test]
fn complete_out_of_range_changes_nothing() {
    let mut list = sample();
    assert!(ops::complete(&mut list, 3).is_none());
    assert_eq!(list, sample());
    assert!(ops::complete(&mut list, usize::MAX).is_none());
    assert_eq!(list, sample());
}
