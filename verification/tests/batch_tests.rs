use jrow_server::batch::{collect_responses, element_action, BatchElement, BatchElementAction};
use jrow_server::{BatchMode, BatchProcessor, ServerError, RpcErrorData};

#[test]
fn test_batch_size_limit_within() {
    let processor = BatchProcessor::with_limit(BatchMode::Parallel, Some(3));
    assert!(processor.check_size(2).is_ok());
}

#[test]
fn test_batch_size_limit_exceeded() {
    let processor = BatchProcessor::with_limit(BatchMode::Parallel, Some(2));
    let error = processor.check_size(3).unwrap_err();
    assert_eq!(error.code, -32600);
    assert!(error.message.contains("Batch size limit exceeded"));
    assert_eq!(error.message, "Batch size limit exceeded: 3 > 2");
}

#[test]
fn test_batch_size_unlimited() {
    let processor = BatchProcessor::with_limit(BatchMode::Parallel, None);
    assert!(processor.check_size(100).is_ok());
    assert!(BatchProcessor::new(BatchMode::Sequential).check_size(usize::MAX).is_ok());
}

#[test]
fn test_batch_size_limit_edge_case_one() {
    let processor = BatchProcessor::with_limit(BatchMode::Parallel, Some(1));
    assert!(processor.check_size(1).is_ok());
    assert!(processor.check_size(2).is_err());
}

#[test]
fn batch_mode_defaults_to_parallel() {
    assert_eq!(BatchMode::default(), BatchMode::Parallel);
    let p = BatchProcessor::new(BatchMode::Sequential);
    assert_eq!(p.mode(), BatchMode::Sequential);
    assert_eq!(p.max_size(), None);
}

#[test]
fn test_batch_with_notification() {
    let outcomes = vec![Some("response"), None];
    assert_eq!(collect_responses(outcomes), vec!["response"]);
    assert_eq!(element_action(&BatchElement::Notification), BatchElementAction::Notify);
    assert_eq!(element_action(&BatchElement::Request), BatchElementAction::Respond);
    assert_eq!(element_action(&BatchElement::Response), BatchElementAction::Skip);
}

#[test]
fn nested_and_invalid_elements_are_rejected() {
    assert_eq!(
        element_action(&BatchElement::Batch),
        BatchElementAction::Reject(RpcErrorData {
            code: -32600,
            message: "Nested batches are not allowed".to_string()
        })
    );
    assert_eq!(
        element_action(&BatchElement::Invalid(ServerError::Serialization("bad".to_string()))),
        BatchElementAction::Reject(RpcErrorData {
            code: -32600,
            message: "Serialization error: bad".to_string()
        })
    );
}
