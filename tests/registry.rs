use broadcast_hub::{Registry, RegistryError};

#[test]
fn register_lookup_and_refuse_duplicates() {
    let mut r = Registry::new();
    assert_eq!(r.register("a".to_string(), 1), Ok(()));
    assert_eq!(r.register("b".to_string(), 2), Ok(()));
    assert_eq!(r.register("a".to_string(), 3), Err(RegistryError::AlreadyRegistered));
    assert_eq!(r.lookup(&"a".to_string()), Some(1));
    assert_eq!(r.lookup(&"c".to_string()), None);
    assert_eq!(r.len(), 2);
}

#[test]
fn unregister_absent_is_no_op() {
    let mut r = Registry::new();
    assert_eq!(r.unregister(&"ghost".to_string()), None);
    assert_eq!(r.len(), 0);
    r.register("a".to_string(), 7).unwrap();
    assert_eq!(r.unregister(&"a".to_string()), Some(7));
    assert_eq!(r.unregister(&"a".to_string()), None);
    assert_eq!(r.len(), 0);
    assert_eq!(r.register("a".to_string(), 8), Ok(()));
    assert_eq!(r.lookup(&"a".to_string()), Some(8));
}
