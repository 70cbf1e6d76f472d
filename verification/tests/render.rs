use todo_list::json::from_json;
use todo_list::json::to_json;
use todo_list::ops;
use todo_list::record::Todo;
use todo_list::render::render_list;

#[test]
fn listing_empty_list_outputs_nothing() {
    let list: Vec<Todo> = Vec::new();
    assert_eq!(render_list(&list), "");
}

#[test]
fn listing_shows_index_description_and_marker() {
    let list = vec![
        Todo { description: String::from("buy milk"), completed: false },
        Todo { description: String::from("walk dog"), completed: true },
    ];
    assert_eq!(render_list(&list), "0: buy milk [ ]\n1: walk dog [x]\n");
}

#[test]
fn listing_indices_run_past_nine() {
    let mut list: Vec<Todo> = Vec::new();
    for i in 0..12 {
        list.push(Todo { description: format!("task {}", i), completed: false });
    }
    let out = render_list(&list);
    let lines: Vec<&str> = out.lines().collect();
    assert_eq!(lines.len(), 12);
    assert_eq!(lines[9], "9: task 9 [ ]");
    assert_eq!(lines[10], "10: task 10 [ ]");
    assert_eq!(lines[11], "11: task 11 [ ]");
}

#[test]
fn fresh_store_scenario() {
    // A fresh store: the empty array text denotes the empty list.
    let fresh = to_json(&Vec::new());
    assert_eq!(fresh, "[]");
    let mut list = from_json(&fresh).expect("fresh store parses");
    assert!(list.is_empty());
    assert_eq!(render_list(&list), "");

    ops::add(&mut list, String::from("write spec"));
    let list = from_json(&to_json(&list)).expect("saved store parses");
    assert_eq!(render_list(&list), "0: write spec [ ]\n");

    let mut list = list;
    ops::complete(&mut list, 0).expect("index 0 exists");
    let list = from_json(&to_json(&list)).expect("saved store parses");
    assert_eq!(render_list(&list), "0: write spec [x]\n");

    let mut list = list;
    ops::remove(&mut list, 0).expect("index 0 exists");
    let list = from_json(&to_json(&list)).expect("saved store parses");
    assert_eq!(render_list(&list), "");
}
