use page_cache::generation::{reply_text, service_failure, ConverseReply, GenerationFailure, ReplyContent, ServiceFault};

#[test]
fn reply_text_takes_first_text() {
    let reply = ConverseReply::Message(vec![
        ReplyContent::Text("<!DOCTYPE html>x</html>".to_string()),
        ReplyContent::Text("ignored".to_string()),
    ]);
    assert_eq!(reply_text(reply), Ok("<!DOCTYPE html>x</html>".to_string()));
}

#[test]
fn reply_text_errors() {
    assert_eq!(reply_text(ConverseReply::Missing), Err(GenerationFailure::NoOutput));
    assert_eq!(reply_text(ConverseReply::NotMessage), Err(GenerationFailure::OutputNotMessage));
    assert_eq!(reply_text(ConverseReply::Message(Vec::new())), Err(GenerationFailure::NoContent));
    let other_first = ConverseReply::Message(vec![ReplyContent::Other, ReplyContent::Text("t".to_string())]);
    assert_eq!(reply_text(other_first), Err(GenerationFailure::ContentNotText));
}

#[test]
fn service_failure_kinds() {
    assert_eq!(service_failure(None), GenerationFailure::UnknownServiceError);
    assert_eq!(service_failure(Some(ServiceFault::ModelTimeout)), GenerationFailure::ModelTimeout);
    assert_eq!(service_failure(Some(ServiceFault::ModelNotReady)), GenerationFailure::ModelNotReady);
    assert_eq!(service_failure(Some(ServiceFault::Other)), GenerationFailure::UnknownModelError);
}
