use binlang::bincore::object::{Object, ObjectBuilder, ObjectDescriptor, Value};
use binlang::names::NameMap;

fn pair() -> ObjectDescriptor {
    let mut members: NameMap<usize> = NameMap::new();
    members.insert("first".to_string(), 0);
    members.insert("second".to_string(), 1);
    ObjectDescriptor { name: "Pair".to_string(), members }
}

fn built() -> Object {
    ObjectBuilder::new("Pair".to_string(), pair())
        .build(vec![Value::Int(1), Value::Str("two".to_string())])
}

#[test]
fn builder_keeps_name_and_shape() {
    let builder = ObjectBuilder::new("Pair".to_string(), pair());
    assert_eq!(builder.name, "Pair");
    assert_eq!(builder.descriptor.name, "Pair");
    assert!(builder.accepts(2));
    assert!(!builder.accepts(1));
    let object = builder.build(vec![Value::Int(1), Value::Bool(true)]);
    assert_eq!(object.members.len(), 2);
    assert_eq!(object.descriptor.name, "Pair");
}

#[test]
fn members_are_found_by_name_and_by_index() {
    let mut object = built();
    assert!(object.has_member("first"));
    assert!(!object.has_member("third"));
    assert_eq!(object.get_member_index("second"), 1);
    assert_eq!(object.get_member("first").as_int(), Some(1));
    assert_eq!(object.get_member("second").as_str().map(|s| s.as_str()), Some("two"));
    assert_eq!(object.get_member_by_index(0).as_int(), Some(1));
    object.set_member("first", Value::Bool(false));
    assert_eq!(object.get_member("first").as_bool(), Some(false));
    object.set_member_by_index(1, Value::Float(3));
    assert_eq!(object.get_member("second").as_float(), Some(3));
    *object.get_member_mut("second") = Value::Int(9);
    assert_eq!(object.get_member_by_index(1).as_int(), Some(9));
}

#[test]
fn owned_value_accessors() {
    let list = Value::List(vec![Value::Int(1)]);
    assert_eq!(list.as_list().map(|l| l.len()), Some(1));
    assert!(list.as_int().is_none());
    assert!(list.as_object().is_none());
    assert!(!list.is_object());
    let mut object = Value::Object(built());
    assert!(object.is_object());
    assert_eq!(object.as_object().map(|o| o.members.len()), Some(2));
    object.as_object_mut().unwrap().set_member_by_index(0, Value::Int(5));
    assert_eq!(object.as_object().unwrap().get_member_by_index(0).as_int(), Some(5));
    assert!(Value::Int(1).as_object_mut().is_none());
    assert_eq!(Value::Int(4).as_int(), Some(4));
    assert_eq!(Value::Bool(true).as_bool(), Some(true));
    assert_eq!(Value::Float(1).as_float(), Some(1));
    assert_eq!(Value::Str("s".to_string()).as_str().map(|s| s.as_str()), Some("s"));
}
