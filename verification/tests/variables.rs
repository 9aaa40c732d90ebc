use ugdb::completion::variables::{children_of, completes_identifier, variable_names, VarObject};
use ugdb::mi::value::MiValue;

fn s(t: &str) -> MiValue {
    MiValue::Str(t.to_owned())
}

fn obj(members: Vec<(&str, MiValue)>) -> MiValue {
    MiValue::Object(members.into_iter().map(|(k, v)| (k.to_owned(), v)).collect())
}

#[test]
fn variable_objects_are_read() {
    let v = obj(vec![("name", s("var1.x")), ("exp", s("x")), ("type", s("int"))]);
    let o = VarObject::from_val(&v).unwrap();
    assert_eq!(o, VarObject { name: "var1.x".to_owned(), expr: Some("x".to_owned()), typ: Some("int".to_owned()) });
    assert!(!o.is_pseudo_child());
    let p = VarObject::from_val(&obj(vec![("name", s("var1.public")), ("exp", s("public"))])).unwrap();
    assert!(p.is_pseudo_child());
    let u = VarObject::from_val(&obj(vec![("name", s("v")), ("exp", s("<anonymous union>")), ("type", s("union {...}"))]))
        .unwrap();
    assert!(u.is_pseudo_child());
    assert_eq!(VarObject::from_val(&obj(vec![("exp", s("x"))])), Err("Missing field 'name'".to_owned()));

    let results = vec![(
        "children".to_owned(),
        MiValue::Array(vec![
            obj(vec![("name", s("a")), ("exp", s("a")), ("type", s("int"))]),
            obj(vec![("name", s("b")), ("exp", s("b"))]),
        ]),
    )];
    let c = children_of(&results).unwrap();
    assert_eq!(c.len(), 2);
    assert_eq!(c[1].typ, None);
    let bad = vec![("children".to_owned(), MiValue::Array(vec![obj(vec![("exp", s("a"))])]))];
    assert_eq!(children_of(&bad), Err("Missing field 'name'".to_owned()));
    assert_eq!(children_of(&[]).unwrap().len(), 0);
}

#[test]
fn local_variable_names() {
    let results = vec![(
        "variables".to_owned(),
        MiValue::Array(vec![obj(vec![("name", s("argc"))]), obj(vec![("name", s("argv")), ("arg", s("1"))])]),
    )];
    assert_eq!(variable_names(&results), vec!["argc".to_owned(), "argv".to_owned()]);
    assert_eq!(variable_names(&[]), Vec::<String>::new());
}

#[test]
fn identifier_or_command() {
    assert!(!completes_identifier("brea", 4));
    assert!(completes_identifier("print fo", 8));
    assert!(!completes_identifier("print fo", 5));
}
