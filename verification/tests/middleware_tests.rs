use jrow_server::middleware::{
    after_handler, after_post, after_pre, chain_start, elapsed_ms, first_chars, metrics_log_line,
    request_log_line, ChainAction, ChainState, PreOutcome,
};
use jrow_server::{LoggingMiddleware, MetricsMiddleware, TracingMiddleware};

fn run(len: usize, outcomes: &[PreOutcome]) -> Vec<ChainAction> {
    let mut trace = Vec::new();
    let (mut state, mut action) = chain_start(len);
    loop {
        trace.push(action);
        let next = match (state, action) {
            (ChainState::Before { .. }, ChainAction::RunPre(i)) => after_pre(len, i, outcomes[i]),
            (ChainState::Handling, ChainAction::RunHandler) => after_handler(len),
            (ChainState::After { .. }, ChainAction::RunPost(i)) => after_post(i),
            _ => break,
        };
        state = next.0;
        action = next.1;
    }
    trace
}

#[test]
fn test_middleware_execution_order() {
    let trace = run(2, &[PreOutcome::Continue, PreOutcome::Continue]);
    assert_eq!(
        trace,
        vec![
            ChainAction::RunPre(0),
            ChainAction::RunPre(1),
            ChainAction::RunHandler,
            ChainAction::RunPost(1),
            ChainAction::RunPost(0),
            ChainAction::AnswerResult
        ]
    );
}

#[test]
fn test_middleware_short_circuit() {
    let trace = run(3, &[PreOutcome::Continue, PreOutcome::ShortCircuit, PreOutcome::Continue]);
    assert_eq!(
        trace,
        vec![ChainAction::RunPre(0), ChainAction::RunPre(1), ChainAction::AnswerShortCircuit]
    );
}

#[test]
fn test_middleware_error_handling() {
    let trace = run(1, &[PreOutcome::Failed]);
    assert_eq!(trace, vec![ChainAction::RunPre(0), ChainAction::AnswerPreError]);
    let empty = run(0, &[]);
    assert_eq!(empty, vec![ChainAction::RunHandler, ChainAction::AnswerResult]);
}

#[test]
fn test_metrics_middleware() {
    let mut metrics = MetricsMiddleware::new();
    let initial_count = metrics.get_request_count();
    metrics.count_request();
    assert_eq!(metrics.get_request_count(), initial_count + 1);
    assert_eq!(MetricsMiddleware::default().get_request_count(), 0);
}

#[test]
fn test_logging_middleware() {
    let _ = LoggingMiddleware::new();
    let _ = LoggingMiddleware::default();
    assert_eq!(request_log_line("test_method", 1), "[Middleware] Request: method=test_method, conn_id=1");
    assert_eq!(first_chars("abcdef", 3), "abc");
    assert_eq!(first_chars("ab", 100), "ab");
}

#[test]
fn test_tracing_middleware() {
    let _ = TracingMiddleware::new();
    let _ = TracingMiddleware::default();
}

#[test]
fn metrics_lines_show_duration() {
    assert_eq!(elapsed_ms(1000, 1250), 250);
    assert_eq!(metrics_log_line("m", 250), "[Metrics] method=m, duration=250ms");
}
