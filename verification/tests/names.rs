use binlang::names::{Interner, NameMap};
use binlang::text::numbered;

#[test]
fn interner_hands_out_dense_ids() {
    let mut table = Interner::new();
    assert_eq!(table.reference("a"), 0);
    assert_eq!(table.reference("b"), 1);
    assert_eq!(table.reference("c"), 2);
    assert_eq!(table.len(), 3);
}

#[test]
fn interner_returns_the_same_id_for_a_repeated_name() {
    let mut table = Interner::new();
    assert_eq!(table.reference("x"), 0);
    assert_eq!(table.reference("y"), 1);
    assert_eq!(table.reference("x"), 0);
    assert_eq!(table.len(), 2);
    assert_eq!(table.lookup("y"), Some(1));
    assert_eq!(table.lookup("z"), None);
}

#[test]
fn interner_lists_its_names_in_id_order() {
    let mut table = Interner::new();
    table.reference("one");
    table.reference("two");
    table.reference("one");
    assert_eq!(table.to_vec(), vec!["one".to_string(), "two".to_string()]);
    assert_eq!(table.get(1).map(|s| s.as_str()), Some("two"));
    assert!(table.get(2).is_none());
}

#[test]
fn name_map_keeps_the_last_item_of_a_name() {
    let mut map: NameMap<usize> = NameMap::new();
    map.insert("a".to_string(), 1);
    map.insert("b".to_string(), 2);
    map.insert("a".to_string(), 3);
    assert_eq!(map.len(), 2);
    assert_eq!(map.get("a"), Some(&3));
    assert_eq!(map.get("b"), Some(&2));
    assert_eq!(map.get("c"), None);
    assert!(map.contains_key("b"));
    assert!(!map.contains_key("c"));
}

#[test]
fn name_map_remembers_insertion_order() {
    let mut map: NameMap<usize> = NameMap::new();
    map.insert("z".to_string(), 26);
    map.insert("a".to_string(), 1);
    assert_eq!(map.name_at(0), "z");
    assert_eq!(map.name_at(1), "a");
    assert_eq!(*map.item_at(0), 26);
    assert_eq!(map.index_of("a"), Some(1));
    let copy = map.duplicate();
    assert_eq!(copy.get("z"), Some(&26));
    assert_eq!(copy.len(), 2);
}

#[test]
fn numbered_appends_the_decimal_numeral() {
    assert_eq!(numbered("end_", 0), "end_0");
    assert_eq!(numbered("while_", 7), "while_7");
    assert_eq!(numbered("if_", 1234567890), "if_1234567890");
}
