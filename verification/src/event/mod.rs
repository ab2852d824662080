use vstd::prelude::*;
use crate::common::ID;

mod handler;
pub use self::handler::{Handler, responses_given, law_subscribe_unsubscribe, law_deregister_unsubscribes};
mod message_response;
pub use self::message_response::{Message, Response};

verus! {

/// Something that answers messages from a handler.
pub trait Observer {
    /// Answers `message`, if at all; an answer is of the message's kind. An observer that needs
    /// to change to answer does so through interior mutability.
    fn respond(&self, message: Message) -> Option<Response>;

    /// Takes `observer_id` as the identifier a handler gave it; refused, with `false`, when it
    /// already has one.
    fn set_observer_id(&self, observer_id: ID) -> bool;
}

/// Something that sends messages to a handler.
pub trait Subject {
    /// Sends `message` to the handler and gathers the answers.
    fn notify(&self, message: Message) -> Vec<Response>;
}

} // verus!
