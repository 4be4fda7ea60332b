use vstd::prelude::*;
use vstd::string::StringExecFns;

use crate::message::{Direction, Message};
use crate::processed_message::ProcessedMessage;

verus! {

/// The one way in which a hook can fail.
#[derive(Debug, PartialEq)]
pub enum HookError {
    ProcessingFailed(String),
}

impl HookError {
    /// The text that describes the failure.
    pub fn message(&self) -> (r: String)
        ensures
            match self {
                HookError::ProcessingFailed(m) => r@ == "Hook processing failed: "@ + m@,
            },
    {
        match self {
            HookError::ProcessingFailed(m) => String::from_str("Hook processing failed: ").concat(
                m.as_str(),
            ),
        }
    }
}

/// What a hook returns: the message to forward in place of the one it was given (none:
/// drop it), and further messages with the direction each one is to travel.
#[derive(Debug, PartialEq)]
pub struct HookOutput {
    pub message: Option<Message>,
    pub generated_messages: Vec<(Direction, Message)>,
}

pub type HookResult = Result<HookOutput, HookError>;

impl HookOutput {
    /// Forward `message`, with nothing generated.
    pub fn new(message: Message) -> (r: HookOutput)
        ensures
            r.message == Some(message),
            r.generated_messages@.len() == 0,
    {
        HookOutput { message: Some(message), generated_messages: Vec::new() }
    }

    /// Forward nothing, with nothing generated.
    pub fn empty() -> (r: HookOutput)
        ensures
            r.message is None,
            r.generated_messages@.len() == 0,
    {
        HookOutput { message: None, generated_messages: Vec::new() }
    }

    /// Appends one generated message.
    pub fn with_message(self, direction: Direction, message: Message) -> (r: HookOutput)
        ensures
            r.message == self.message,
            r.generated_messages@ == self.generated_messages@.push((direction, message)),
    {
        let mut out = self;
        out.generated_messages.push((direction, message));
        out
    }

    /// Appends generated messages, keeping their order.
    pub fn with_messages(self, messages: Vec<(Direction, Message)>) -> (r: HookOutput)
        ensures
            r.message == self.message,
            r.generated_messages@ == self.generated_messages@ + messages@,
    {
        let mut out = self;
        let mut messages = messages;
        out.generated_messages.append(&mut messages);
        out
    }

    /// The same decision as a processed message.
    pub fn as_processed(self) -> (r: ProcessedMessage)
        ensures
            r.primary() == self.message,
            r.generated() == self.generated_messages@,
            self.message is Some && self.generated_messages@.len() == 0 ==> r is Forward,
    {
        match self.message {
            Some(message) => {
                if self.generated_messages.len() == 0 {
                    ProcessedMessage::Forward(message)
                } else {
                    ProcessedMessage::WithMessages {
                        message,
                        generated_messages: self.generated_messages,
                    }
                }
            },
            None => ProcessedMessage::Ignore { generated_messages: self.generated_messages },
        }
    }
}

} // verus!
