use fallgray::cvars::{CVarRegistry, CVarValue};

#[test]
fn init_and_get() {
    let mut reg = CVarRegistry::new();
    assert!(reg.init("mouse.sensitivity", CVarValue::Float(500)).is_ok());
    assert_eq!(reg.get("mouse.sensitivity"), Some(CVarValue::Float(500)));
    assert_eq!(reg.get("unknown"), None);
    assert_eq!(reg.len(), 1);
}

#[test]
fn init_twice_fails() {
    let mut reg = CVarRegistry::new();
    assert!(reg.init("a", CVarValue::Int(1)).is_ok());
    let err = reg.init("a", CVarValue::Int(2)).unwrap_err();
    assert_eq!(err, "Variable already defined: a");
    // The first value stays.
    assert_eq!(reg.get("a"), Some(CVarValue::Int(1)));
}

#[test]
fn set_updates_value() {
    let mut reg = CVarRegistry::new();
    reg.init("speed", CVarValue::Float(1000000)).unwrap();
    assert!(reg.set("speed", CVarValue::Float(2500000)).is_ok());
    assert_eq!(reg.get("speed"), Some(CVarValue::Float(2500000)));
}

#[test]
fn set_absent_fails() {
    let mut reg = CVarRegistry::new();
    let err = reg.set("ghosted", CVarValue::Float(1)).unwrap_err();
    assert_eq!(err, "Variable not found: ghosted");
}

#[test]
fn set_wrong_kind_fails() {
    let mut reg = CVarRegistry::new();
    reg.init("mouse_smooth", CVarValue::Int(1)).unwrap();
    let err = reg.set("mouse_smooth", CVarValue::Float(0)).unwrap_err();
    assert_eq!(err, "Type mismatch: mouse_smooth");
    assert_eq!(reg.get("mouse_smooth"), Some(CVarValue::Int(1)));
}

#[test]
fn list_keeps_creation_order() {
    let mut reg = CVarRegistry::new();
    reg.init("b", CVarValue::Int(2)).unwrap();
    reg.init("a", CVarValue::Float(1500000)).unwrap();
    let all = reg.list();
    assert_eq!(all.len(), 2);
    assert_eq!(all[0].0, "b");
    assert_eq!(all[0].1, CVarValue::Int(2));
    assert_eq!(all[1].0, "a");
    assert_eq!(all[1].1, CVarValue::Float(1500000));
}

#[test]
fn value_formatting() {
    assert_eq!(CVarValue::Float(1000).format(), "0.001");
    assert_eq!(CVarValue::Float(-2500000).format(), "-2.5");
    assert_eq!(CVarValue::Int(7).format(), "7");
    assert_eq!(CVarValue::Int(-7).format(), "-7");
}

#[test]
fn default_is_empty() {
    let reg = CVarRegistry::default();
    assert_eq!(reg.len(), 0);
}
