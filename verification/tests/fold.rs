use serde_json::Value;
use things_cloud::account::Account;
use things_cloud::tasks::{fold_events, HistoryApiResponse, HistoryItem, ItemAction, TaskStatus};
use things_cloud::History;

fn object(fields: &[(&str, Value)]) -> serde_json::Map<String, Value> {
    let mut map = serde_json::Map::new();
    for (name, value) in fields {
        map.insert((*name).to_string(), value.clone());
    }
    map
}

fn text(s: &str) -> Value {
    Value::String(s.to_string())
}

fn number(n: u64) -> Value {
    Value::from(n)
}

fn entry(
    id: &str,
    kind: &str,
    action: ItemAction,
    fields: &[(&str, Value)],
) -> Vec<(String, HistoryItem)> {
    vec![(
        id.to_string(),
        HistoryItem { kind: kind.to_string(), action, payload: object(fields) },
    )]
}

fn account() -> Account {
    Account {
        email: "someone@example.com".to_string(),
        maildrop_email: "drop@example.com".to_string(),
        history_key: "key".to_string(),
    }
}

#[test]
fn fold_merges_fields_and_drops_deleted_records() {
    let items = vec![
        entry(
            "A",
            "Task6",
            ItemAction::Create,
            &[("title", text("Buy milk")), ("status", number(0))],
        ),
        entry("A", "Task6", ItemAction::Modified, &[("status", number(3))]),
        entry("B", "Task6", ItemAction::Create, &[("title", text("Call Bob"))]),
        entry("B", "Task6", ItemAction::Deleted, &[]),
    ];
    let tasks = fold_events(&items);
    assert_eq!(
        tasks,
        vec![Value::Object(object(&[("title", text("Buy milk")), ("status", number(3))]))]
    );
}

#[test]
fn a_deleted_record_stays_away_whatever_follows() {
    let items = vec![
        entry("A", "Task6", ItemAction::Create, &[("title", text("one"))]),
        entry("A", "Task6", ItemAction::Deleted, &[]),
        entry("A", "Task6", ItemAction::Create, &[("title", text("again"))]),
        entry("A", "Task6", ItemAction::Modified, &[("status", number(0))]),
    ];
    assert_eq!(fold_events(&items), Vec::<Value>::new());
}

#[test]
fn a_deletion_before_any_creation_counts_too() {
    let items = vec![
        entry("A", "Task6", ItemAction::Deleted, &[]),
        entry("A", "Task6", ItemAction::Create, &[("title", text("one"))]),
        entry("B", "Task6", ItemAction::Create, &[("title", text("two"))]),
    ];
    assert_eq!(fold_events(&items), vec![Value::Object(object(&[("title", text("two"))]))]);
}

#[test]
fn the_last_event_that_sets_a_field_decides_it() {
    let items = vec![
        entry("A", "Task6", ItemAction::Create, &[("title", text("first")), ("notes", text("n"))]),
        entry("A", "Task6", ItemAction::Modified, &[("title", text("second"))]),
        entry("A", "Task6", ItemAction::Modified, &[("status", number(2))]),
        entry("A", "Task6", ItemAction::Modified, &[("title", text("third"))]),
    ];
    let tasks = fold_events(&items);
    assert_eq!(tasks.len(), 1);
    assert_eq!(tasks[0]["title"], text("third"));
    assert_eq!(tasks[0]["notes"], text("n"));
    assert_eq!(tasks[0]["status"], number(2));
    assert_eq!(tasks[0].as_object().map(|o| o.len()), Some(3));
}

#[test]
fn a_later_create_overrides_only_the_fields_it_sets() {
    let items = vec![
        entry("A", "Task6", ItemAction::Modified, &[("a", number(1)), ("b", number(2))]),
        entry("A", "Task6", ItemAction::Create, &[("b", number(20)), ("c", number(30))]),
    ];
    assert_eq!(
        fold_events(&items),
        vec![Value::Object(object(&[("a", number(1)), ("b", number(20)), ("c", number(30))]))]
    );
}

#[test]
fn events_of_other_records_leave_no_trace() {
    let with_others = vec![
        entry("L", "Area3", ItemAction::Create, &[("title", text("an area"))]),
        entry("A", "Task6", ItemAction::Create, &[("title", text("one"))]),
        entry("A", "Tag4", ItemAction::Deleted, &[]),
        entry("A", "ChecklistItem3", ItemAction::Modified, &[("title", text("not mine"))]),
        entry("A", "Task6", ItemAction::Modified, &[("status", number(3))]),
        entry("T", "Tag4", ItemAction::Create, &[("title", text("a tag"))]),
    ];
    let tasks_only = vec![
        entry("A", "Task6", ItemAction::Create, &[("title", text("one"))]),
        entry("A", "Task6", ItemAction::Modified, &[("status", number(3))]),
    ];
    let expected = vec![Value::Object(object(&[("title", text("one")), ("status", number(3))]))];
    assert_eq!(fold_events(&with_others), expected);
    assert_eq!(fold_events(&tasks_only), expected);
}

#[test]
fn a_task_kind_begins_with_the_marker() {
    let items = vec![
        entry("a", "Task", ItemAction::Create, &[("n", number(1))]),
        entry("b", "Task6", ItemAction::Create, &[("n", number(2))]),
        entry("c", "Tas", ItemAction::Create, &[("n", number(3))]),
        entry("d", "task6", ItemAction::Create, &[("n", number(4))]),
        entry("e", "", ItemAction::Create, &[("n", number(5))]),
        entry("f", "MyTask", ItemAction::Create, &[("n", number(6))]),
    ];
    assert_eq!(
        fold_events(&items),
        vec![
            Value::Object(object(&[("n", number(1))])),
            Value::Object(object(&[("n", number(2))])),
        ]
    );
}

#[test]
fn snapshots_come_in_the_order_of_first_occurrence() {
    let items = vec![
        entry("B", "Task6", ItemAction::Create, &[("n", number(2))]),
        entry("A", "Task6", ItemAction::Create, &[("n", number(1))]),
        entry("B", "Task6", ItemAction::Modified, &[("m", number(0))]),
        entry("C", "Task6", ItemAction::Create, &[("n", number(3))]),
    ];
    assert_eq!(
        fold_events(&items),
        vec![
            Value::Object(object(&[("n", number(2)), ("m", number(0))])),
            Value::Object(object(&[("n", number(1))])),
            Value::Object(object(&[("n", number(3))])),
        ]
    );
}

#[test]
fn a_batch_may_hold_several_records() {
    let mut batch = entry("A", "Task6", ItemAction::Create, &[("n", number(1))]);
    batch.extend(entry("B", "Task6", ItemAction::Create, &[("n", number(2))]));
    batch.extend(entry("X", "Area3", ItemAction::Create, &[("n", number(9))]));
    let items = vec![batch, entry("B", "Task6", ItemAction::Deleted, &[])];
    assert_eq!(fold_events(&items), vec![Value::Object(object(&[("n", number(1))]))]);
}

#[test]
fn a_record_without_fields_is_an_empty_object() {
    let items = vec![entry("A", "Task6", ItemAction::Create, &[])];
    let tasks = fold_events(&items);
    assert_eq!(tasks, vec![Value::Object(serde_json::Map::new())]);
    assert!(tasks[0].is_object());
}

#[test]
fn an_empty_log_folds_into_nothing() {
    assert_eq!(fold_events(&Vec::new()), Vec::<Value>::new());
    assert_eq!(fold_events(&vec![Vec::new(), Vec::new()]), Vec::<Value>::new());
}

#[test]
fn folding_twice_gives_the_same() {
    let items = vec![
        entry("A", "Task6", ItemAction::Create, &[("title", text("one"))]),
        entry("B", "Task6", ItemAction::Create, &[("title", text("two"))]),
        entry("A", "Task6", ItemAction::Modified, &[("title", text("uno"))]),
        entry("B", "Task6", ItemAction::Deleted, &[]),
    ];
    let first = fold_events(&items);
    let second = fold_events(&items);
    assert_eq!(first, second);
    assert_eq!(first, vec![Value::Object(object(&[("title", text("uno"))]))]);
    assert_eq!(items[0][0].1.payload, object(&[("title", text("one"))]));
}

#[test]
fn batching_does_not_change_the_fold() {
    let mut one_batch = entry("A", "Task6", ItemAction::Create, &[("n", number(1))]);
    one_batch.extend(entry("B", "Task6", ItemAction::Create, &[("n", number(2))]));
    let two_batches = vec![
        entry("A", "Task6", ItemAction::Create, &[("n", number(1))]),
        entry("B", "Task6", ItemAction::Create, &[("n", number(2))]),
    ];
    assert_eq!(fold_events(&vec![one_batch]), fold_events(&two_batches));
}

#[test]
fn a_history_keeps_the_log_length_of_its_response() {
    let account = account();
    let response = HistoryApiResponse {
        last_index: 7,
        items: vec![
            entry("A", "Task6", ItemAction::Create, &[("title", text("one"))]),
            entry("B", "Task6", ItemAction::Deleted, &[]),
        ],
    };
    let history = History::from_response(&account, &response);
    assert_eq!(history.tasks, vec![Value::Object(object(&[("title", text("one"))]))]);
    assert_eq!(history.tasks(), &history.tasks);
    assert_eq!(history.last_index(), 7);
    assert_eq!(history.account().history_key, "key");
}

#[test]
fn a_history_from_an_index_has_no_tasks() {
    let account = account();
    let history = History::from_index(&account, 42);
    assert!(history.tasks.is_empty());
    assert_eq!(history.last_index(), 42);
    assert_eq!(history.account().email, "someone@example.com");
    let none = History::from_index(&account, 0);
    assert_eq!(none.last_index(), 0);
}

#[test]
fn status_codes() {
    assert_eq!(TaskStatus::Pending.code(), 0);
    assert_eq!(TaskStatus::Cancelled.code(), 2);
    assert_eq!(TaskStatus::Completed.code(), 3);
    assert_eq!(TaskStatus::from_code(0), Some(TaskStatus::Pending));
    assert_eq!(TaskStatus::from_code(1), None);
    assert_eq!(TaskStatus::from_code(2), Some(TaskStatus::Cancelled));
    assert_eq!(TaskStatus::from_code(3), Some(TaskStatus::Completed));
    assert_eq!(TaskStatus::from_code(4), None);
    assert_eq!(TaskStatus::from_code(255), None);
}

#[test]
fn action_codes() {
    assert_eq!(ItemAction::from_code(0), Some(ItemAction::Create));
    assert_eq!(ItemAction::from_code(1), Some(ItemAction::Modified));
    assert_eq!(ItemAction::from_code(2), Some(ItemAction::Deleted));
    assert_eq!(ItemAction::from_code(3), None);
    assert_eq!(ItemAction::from_code(255), None);
}
