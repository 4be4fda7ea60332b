use vstd::prelude::*;

use crate::message::{Direction, Message};

verus! {

/// What a dispatch decided to send: the primary message, if any, and the messages that a
/// hook generated, in the order it produced them.
#[derive(Debug, PartialEq)]
pub enum ProcessedMessage {
    Forward(Message),
    WithMessages { message: Message, generated_messages: Vec<(Direction, Message)> },
    Ignore { generated_messages: Vec<(Direction, Message)> },
}

impl ProcessedMessage {
    /// The primary message, if any.
    pub open spec fn primary(&self) -> Option<Message> {
        match self {
            ProcessedMessage::Forward(m) => Some(*m),
            ProcessedMessage::WithMessages { message, .. } => Some(*message),
            ProcessedMessage::Ignore { .. } => None,
        }
    }

    /// The generated messages, in order.
    pub open spec fn generated(&self) -> Seq<(Direction, Message)> {
        match self {
            ProcessedMessage::Forward(_) => Seq::empty(),
            ProcessedMessage::WithMessages { generated_messages, .. } => generated_messages@,
            ProcessedMessage::Ignore { generated_messages } => generated_messages@,
        }
    }

    pub fn get_message(&self) -> (r: Option<&Message>)
        ensures
            match r {
                Some(m) => self.primary() == Some(*m),
                None => self.primary() is None,
            },
    {
        match self {
            ProcessedMessage::Forward(msg) => Some(msg),
            ProcessedMessage::WithMessages { message, .. } => Some(message),
            ProcessedMessage::Ignore { .. } => None,
        }
    }

    pub fn get_generated_messages(&self) -> (r: &[(Direction, Message)])
        ensures
            r@ == self.generated(),
    {
        match self {
            ProcessedMessage::Forward(_) => &[],
            ProcessedMessage::WithMessages { generated_messages, .. } => generated_messages.as_slice(),
            ProcessedMessage::Ignore { generated_messages } => generated_messages.as_slice(),
        }
    }

    pub fn into_parts(self) -> (r: (Option<Message>, Vec<(Direction, Message)>))
        ensures
            r.0 == self.primary(),
            r.1@ == self.generated(),
    {
        match self {
            ProcessedMessage::Forward(msg) => (Some(msg), Vec::new()),
            ProcessedMessage::WithMessages { message, generated_messages } => (
                Some(message),
                generated_messages,
            ),
            ProcessedMessage::Ignore { generated_messages } => (None, generated_messages),
        }
    }
}

} // verus!
