use vstd::prelude::*;

verus! {

/// Why a content generation produced no page.
#[derive(Clone, Copy, Debug, PartialEq, Eq, Structural)]
pub enum GenerationFailure {
    /// The request to the model could not be assembled.
    MessageBuild,
    /// The model took too long.
    ModelTimeout,
    /// The model was not ready.
    ModelNotReady,
    /// The service rejected the call for another reason.
    UnknownModelError,
    /// The call failed before the service answered.
    UnknownServiceError,
    /// The reply held no output.
    NoOutput,
    /// The reply's output was not a message.
    OutputNotMessage,
    /// The reply's message had no content.
    NoContent,
    /// The first content of the reply's message was not text.
    ContentNotText,
    /// The page's last `</html>` ends before its first `<!DOCTYPE html>`.
    NoDocument,
}

/// The kind of error that the model service reported.
#[derive(Clone, Copy, Debug, PartialEq, Eq, Structural)]
pub enum ServiceFault {
    ModelTimeout,
    ModelNotReady,
    Other,
}

/// One piece of content of a model's reply message.
pub enum ReplyContent {
    Text(String),
    Other,
}

/// The shape of a model's reply, as far as text extraction reads it.
pub enum ConverseReply {
    /// The reply carried no output.
    Missing,
    /// The output was something other than a message.
    NotMessage,
    /// A message with its content, in order.
    Message(Vec<ReplyContent>),
}

/// The failure reported for a failed call: `fault` is the service's error,
/// or `None` when the call failed without one.
pub fn service_failure(fault: Option<ServiceFault>) -> (r: GenerationFailure)
    ensures
        r == match fault {
            None => GenerationFailure::UnknownServiceError,
            Some(ServiceFault::ModelTimeout) => GenerationFailure::ModelTimeout,
            Some(ServiceFault::ModelNotReady) => GenerationFailure::ModelNotReady,
            Some(ServiceFault::Other) => GenerationFailure::UnknownModelError,
        },
{
    match fault {
        None => GenerationFailure::UnknownServiceError,
        Some(ServiceFault::ModelTimeout) => GenerationFailure::ModelTimeout,
        Some(ServiceFault::ModelNotReady) => GenerationFailure::ModelNotReady,
        Some(ServiceFault::Other) => GenerationFailure::UnknownModelError,
    }
}

/// The text of a reply: the first content of its message, which must be text.
pub fn reply_text(reply: ConverseReply) -> (r: Result<String, GenerationFailure>)
    ensures
        match reply {
            ConverseReply::Missing => r == Err::<String, _>(GenerationFailure::NoOutput),
            ConverseReply::NotMessage => r == Err::<String, _>(GenerationFailure::OutputNotMessage),
            ConverseReply::Message(content) => if content@.len() == 0 {
                r == Err::<String, _>(GenerationFailure::NoContent)
            } else {
                match content@[0] {
                    ReplyContent::Text(t) => r matches Ok(s) && s@ == t@,
                    ReplyContent::Other => r == Err::<String, _>(GenerationFailure::ContentNotText),
                }
            },
        },
{
    match reply {
        ConverseReply::Missing => Err(GenerationFailure::NoOutput),
        ConverseReply::NotMessage => Err(GenerationFailure::OutputNotMessage),
        ConverseReply::Message(mut content) => {
            if content.len() == 0 {
                Err(GenerationFailure::NoContent)
            } else {
                match content.swap_remove(0) {
                    ReplyContent::Text(t) => Ok(t),
                    ReplyContent::Other => Err(GenerationFailure::ContentNotText),
                }
            }
        },
    }
}

} // verus!
