use llh::record::{Record, Value};
use llh::store::{MergeOutcome, RecordStore};

fn text(s: &str) -> Value {
    Value::Text(s.to_string())
}

fn json(s: &str) -> Value {
    Value::Json(s.to_string())
}

fn record(key: &str, extra: &[(&str, &str)]) -> Record {
    let mut r = Record::new();
    r.insert("o1".to_string(), text(key));
    for (name, value) in extra {
        r.insert(name.to_string(), json(value));
    }
    r
}

fn stored_field(store: &RecordStore, key: &str, field: &str) -> Option<String> {
    let rec = store.get(&key.to_string())?;
    match rec.get(&field.to_string())? {
        Value::Text(s) => Some(s.clone()),
        Value::Json(s) => Some(s.clone()),
    }
}

#[test]
fn new_key_is_inserted() {
    let mut store = RecordStore::new("o1".to_string());
    assert_eq!(store.len(), 0);
    let outcome = store.merge(record("X1", &[("pins", "1"), ("package", "2")]));
    assert_eq!(outcome, MergeOutcome::Inserted);
    assert_eq!(store.len(), 1);
    assert_eq!(store.get(&"X1".to_string()).unwrap().len(), 3);
    assert_eq!(stored_field(&store, "X1", "package"), Some("2".to_string()));
    assert!(store.get(&"X2".to_string()).is_none());
}

#[test]
fn larger_record_replaces_smaller() {
    let mut store = RecordStore::new("o1".to_string());
    let a = record("X1", &[("pins", "1"), ("package", "2")]);
    let b = record("X1", &[("pins", "10"), ("package", "20"), ("rating", "30"), ("status", "40")]);
    assert_eq!(a.len(), 3);
    assert_eq!(b.len(), 5);
    assert_eq!(store.merge(a), MergeOutcome::Inserted);
    assert_eq!(store.merge(b), MergeOutcome::Replaced);
    assert_eq!(store.len(), 1);
    assert_eq!(store.get(&"X1".to_string()).unwrap().len(), 5);
    assert_eq!(stored_field(&store, "X1", "pins"), Some("10".to_string()));
}

#[test]
fn larger_record_survives_smaller_arriving_later() {
    let mut store = RecordStore::new("o1".to_string());
    let a = record("X1", &[("pins", "1"), ("package", "2")]);
    let b = record("X1", &[("pins", "10"), ("package", "20"), ("rating", "30"), ("status", "40")]);
    assert_eq!(store.merge(b), MergeOutcome::Inserted);
    assert_eq!(store.merge(a), MergeOutcome::KeptExisting);
    assert_eq!(store.len(), 1);
    assert_eq!(store.get(&"X1".to_string()).unwrap().len(), 5);
    assert_eq!(stored_field(&store, "X1", "pins"), Some("10".to_string()));
    assert_eq!(stored_field(&store, "X1", "status"), Some("40".to_string()));
}

#[test]
fn same_record_twice_is_silent() {
    let mut store = RecordStore::new("o1".to_string());
    assert_eq!(store.merge(record("X1", &[("pins", "1")])), MergeOutcome::Inserted);
    assert_eq!(store.merge(record("X1", &[("pins", "1")])), MergeOutcome::Unchanged);
    assert_eq!(store.len(), 1);
    assert_eq!(store.get(&"X1".to_string()).unwrap().len(), 2);
    assert_eq!(stored_field(&store, "X1", "pins"), Some("1".to_string()));
}

#[test]
fn identical_fields_in_another_order_are_the_same_record() {
    let mut a = Record::new();
    a.insert("o1".to_string(), text("X1"));
    a.insert("pins".to_string(), json("1"));
    a.insert("package".to_string(), json("[1,2]"));
    let mut b = Record::new();
    b.insert("package".to_string(), json("[1,2]"));
    b.insert("pins".to_string(), json("1"));
    b.insert("o1".to_string(), text("X1"));
    assert!(a.same(&b));
    assert!(b.same(&a));
    let mut store = RecordStore::new("o1".to_string());
    assert_eq!(store.merge(a), MergeOutcome::Inserted);
    assert_eq!(store.merge(b), MergeOutcome::Unchanged);
}

#[test]
fn tie_keeps_the_first_sighting() {
    let mut store = RecordStore::new("o1".to_string());
    assert_eq!(store.merge(record("X1", &[("pins", "1")])), MergeOutcome::Inserted);
    assert_eq!(store.merge(record("X1", &[("pins", "2")])), MergeOutcome::KeptExisting);
    assert_eq!(stored_field(&store, "X1", "pins"), Some("1".to_string()));
    let mut other = RecordStore::new("o1".to_string());
    assert_eq!(other.merge(record("X1", &[("pins", "2")])), MergeOutcome::Inserted);
    assert_eq!(other.merge(record("X1", &[("pins", "1")])), MergeOutcome::KeptExisting);
    assert_eq!(stored_field(&other, "X1", "pins"), Some("2".to_string()));
}

#[test]
fn record_without_key_is_rejected() {
    let mut store = RecordStore::new("o1".to_string());
    let mut no_key = Record::new();
    no_key.insert("pins".to_string(), json("1"));
    assert_eq!(store.merge(no_key), MergeOutcome::Rejected);
    let mut numeric_key = Record::new();
    numeric_key.insert("o1".to_string(), json("17"));
    assert_eq!(store.merge(numeric_key), MergeOutcome::Rejected);
    assert_eq!(store.len(), 0);
}

#[test]
fn text_and_json_values_differ() {
    assert!(!text("1").same(&json("1")));
    assert!(text("1").same(&text("1")));
    assert!(!json("1").same(&json("2")));
    assert!(json("{}").duplicate().same(&json("{}")));
}

#[test]
fn record_insert_replaces_a_field() {
    let mut r = Record::new();
    assert!(!r.insert("a".to_string(), json("1")));
    assert!(!r.insert("b".to_string(), json("2")));
    assert!(r.insert("a".to_string(), json("3")));
    assert_eq!(r.len(), 2);
    assert!(r.get(&"a".to_string()).unwrap().same(&json("3")));
    assert!(r.get(&"c".to_string()).is_none());
    assert!(r.primary_key(&"a".to_string()).is_none());
    let copy = r.duplicate();
    assert!(copy.same(&r));
    let mut smaller = Record::new();
    smaller.insert("b".to_string(), json("2"));
    assert!(smaller.included_in(&r));
    assert!(!r.included_in(&smaller));
}

#[test]
fn batch_merges_in_order() {
    let mut store = RecordStore::new("o1".to_string());
    let batch = vec![
        record("X1", &[("pins", "1")]),
        record("X2", &[("pins", "1"), ("package", "2")]),
        record("X1", &[("pins", "1"), ("package", "2")]),
        record("X2", &[("pins", "9")]),
        record("X1", &[("pins", "1"), ("package", "2")]),
    ];
    let outcomes = store.merge_batch(batch);
    assert_eq!(
        outcomes,
        vec![
            MergeOutcome::Inserted,
            MergeOutcome::Inserted,
            MergeOutcome::Replaced,
            MergeOutcome::KeptExisting,
            MergeOutcome::Unchanged,
        ]
    );
    assert_eq!(store.len(), 2);
    assert_eq!(store.key_at(0), "X1");
    assert_eq!(store.key_at(1), "X2");
    assert_eq!(store.get(&"X1".to_string()).unwrap().len(), 3);
    assert_eq!(store.get(&"X2".to_string()).unwrap().len(), 3);
    assert_eq!(store.merge_batch(Vec::new()), Vec::new());
}

#[test]
fn values_from_json_text() {
    assert!(Value::from_json("\"LM358\"").unwrap().same(&text("LM358")));
    assert!(Value::from_json("  \"a\\\"b\\u00e9\" ").unwrap().same(&text("a\"b\u{e9}")));
    assert!(Value::from_json("17").unwrap().same(&json("17")));
    assert!(Value::from_json("[1, {\"a\": null}]").unwrap().same(&json("[1, {\"a\": null}]")));
    assert!(Value::from_json("true").unwrap().same(&json("true")));
    assert!(Value::from_json("{").is_none());
    assert!(Value::from_json("").is_none());
    assert!(Value::from_json("LM358").is_none());
    assert!(Value::from_json("1 2").is_none());
}

#[test]
fn values_from_a_given_decoding() {
    assert!(Value::from_decoding("x", None).is_none());
    assert!(Value::from_decoding("x", Some(None)).unwrap().same(&json("x")));
    assert!(Value::from_decoding("x", Some(Some("y".to_string()))).unwrap().same(&text("y")));
}

#[test]
fn values_to_json_text() {
    assert_eq!(text("LM358").to_json(), Some("\"LM358\"".to_string()));
    assert_eq!(text("a\"b\n").to_json(), Some("\"a\\\"b\\n\"".to_string()));
    assert_eq!(json("[1,2]").to_json(), Some("[1,2]".to_string()));
    let back = Value::from_json(&text("tab\there").to_json().unwrap()).unwrap();
    assert!(back.same(&text("tab\there")));
}

#[test]
fn merged_records_come_from_json() {
    let mut store = RecordStore::new("o1".to_string());
    let mut r = Record::new();
    r.insert("o1".to_string(), Value::from_json("\"X1\"").unwrap());
    r.insert("pins".to_string(), Value::from_json("3.3").unwrap());
    assert_eq!(r.primary_key(&"o1".to_string()), Some(&"X1".to_string()));
    assert_eq!(store.merge(r), MergeOutcome::Inserted);
    assert_eq!(stored_field(&store, "X1", "pins"), Some("3.3".to_string()));
}

#[test]
fn fields_keep_their_order() {
    let r = record("X1", &[("pins", "8"), ("package", "\"SOIC\"")]);
    assert_eq!(r.len(), 3);
    let names: Vec<&str> = (0..r.len()).map(|i| r.name_at(i).as_str()).collect();
    assert_eq!(names, vec!["o1", "pins", "package"]);
    assert!(r.value_at(0).same(&text("X1")));
    assert!(r.value_at(2).same(&json("\"SOIC\"")));
}

#[test]
fn restore_puts_a_record_under_its_key() {
    let mut store = RecordStore::new("o1".to_string());
    store.restore("K1".to_string(), record("X1", &[("pins", "8")]));
    store.restore("K2".to_string(), record("X2", &[]));
    store.restore("K1".to_string(), record("X3", &[]));
    assert_eq!(store.len(), 2);
    assert_eq!(store.key_at(0), "K1");
    assert_eq!(store.key_at(1), "K2");
    assert_eq!(stored_field(&store, "K1", "o1"), Some("X3".to_string()));
    assert_eq!(store.get(&"K1".to_string()).unwrap().len(), 1);
    assert!(store.get(&"X1".to_string()).is_none());
}

#[test]
fn larger_record_wins_over_a_stored_one_in_both_orders() {
    let small = || record("X1", &[("pins", "8")]);
    let large = || record("X1", &[("pins", "14"), ("package", "1"), ("rating", "2")]);
    let stored = || record("X1", &[("pins", "16"), ("status", "0")]);
    let mut first = RecordStore::new("o1".to_string());
    first.merge(stored());
    assert_eq!(first.merge(small()), MergeOutcome::KeptExisting);
    assert_eq!(first.merge(large()), MergeOutcome::Replaced);
    let mut second = RecordStore::new("o1".to_string());
    second.merge(stored());
    assert_eq!(second.merge(large()), MergeOutcome::Replaced);
    assert_eq!(second.merge(small()), MergeOutcome::KeptExisting);
    assert!(first.get(&"X1".to_string()).unwrap().same(&large()));
    assert!(second.get(&"X1".to_string()).unwrap().same(&large()));
}
