use jrow_server::template::{add_handler, echo_handler, status_handler, AddParams, EchoParams, StatusParams};

#[test]
fn template_handlers() {
    assert_eq!(add_handler(AddParams { a: 2, b: 40 }).sum, 42);
    assert_eq!(add_handler(AddParams { a: -5, b: 3 }).sum, -2);
    assert_eq!(echo_handler(EchoParams { message: "hi".to_string() }).message, "hi");
    let s = status_handler(StatusParams {}, 12);
    assert_eq!(s.status, "running");
    assert_eq!(s.uptime_seconds, 12);
}
