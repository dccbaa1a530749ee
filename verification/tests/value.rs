use zenlang::value::ForeignObject;

#[derive(Debug, Clone, PartialEq)]
struct TestObj {
    name: String,
    value: i64,
}

#[test]
fn test_foreign_new_downcast() {
    let fo = ForeignObject::new(
        "TestObj",
        TestObj {
            name: "foo".into(),
            value: 42,
        },
    );
    let inner: &TestObj = fo.downcast().unwrap();
    assert_eq!(inner.name, "foo");
    assert_eq!(inner.value, 42);
}

#[test]
fn test_foreign_downcast_wrong_type() {
    let fo = ForeignObject::new(
        "TestObj",
        TestObj {
            name: "x".into(),
            value: 1,
        },
    );
    let result: Option<&String> = fo.downcast();
    assert!(result.is_none());
}

#[test]
fn test_foreign_downcast_mut() {
    let mut fo = ForeignObject::new(
        "TestObj",
        TestObj {
            name: "x".into(),
            value: 0,
        },
    );
    let inner: &mut TestObj = fo.downcast_mut().unwrap();
    inner.value = 99;
    assert_eq!(fo.downcast::<TestObj>().unwrap().value, 99);
}

#[test]
fn test_foreign_clone() {
    let fo = ForeignObject::new(
        "TestObj",
        TestObj {
            name: "orig".into(),
            value: 7,
        },
    );
    let cloned = fo.clone();
    let a: &TestObj = fo.downcast().unwrap();
    let b: &TestObj = cloned.downcast().unwrap();
    assert_eq!(a, b);
}

#[test]
fn test_foreign_type_name() {
    let fo = ForeignObject::new(
        "TestObj",
        TestObj {
            name: "".into(),
            value: 0,
        },
    );
    assert_eq!(fo.type_label, "TestObj");
}

#[test]
fn foreign_clone_is_independent() {
    let fo = ForeignObject::new("TestObj", TestObj { name: "a".into(), value: 1 });
    let mut copy = fo.clone();
    copy.downcast_mut::<TestObj>().unwrap().value = 5;
    assert_eq!(fo.downcast::<TestObj>().unwrap().value, 1);
    assert_eq!(copy.downcast::<TestObj>().unwrap().value, 5);
}
