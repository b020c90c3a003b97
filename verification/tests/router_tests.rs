use jrow_server::{ServerError, HandlerTable};

#[test]
fn test_router_basic() {
    let mut table: HandlerTable<&str> = HandlerTable::new();
    table.register("test", "handler-a");
    assert!(table.has_method("test"));
    assert!(!table.has_method("unknown"));
    assert_eq!(table.resolve("test"), Ok(&"handler-a"));
}

#[test]
fn test_router_method_not_found() {
    let table: HandlerTable<u32> = HandlerTable::new();
    assert_eq!(table.resolve("unknown"), Err(ServerError::MethodNotFound("unknown".to_string())));
    assert_eq!(table.get("unknown"), None);
}

#[test]
fn test_router_builder() {
    let mut table: HandlerTable<u32> = HandlerTable::new();
    table.register("method1", 1);
    table.register("method2", 2);
    table.register("method1", 3);
    assert_eq!(table.get("method1"), Some(&3));
    assert_eq!(table.get("method2"), Some(&2));
    assert_eq!(table.methods(), vec!["method1".to_string(), "method2".to_string()]);
}
