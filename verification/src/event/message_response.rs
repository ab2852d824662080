use vstd::prelude::*;
use vstd::std_specs::cmp::PartialEqSpecImpl;
use crate::common::ID;

verus! {

/// A message that a subject sends to the observers subscribed to it.
#[derive(Debug, Clone, Copy, PartialEq, Eq, Structural)]
pub enum Message {
    TestAdd,
    TestSubtract,
}

impl Message {
    /// The identifier of the message's kind, which observers subscribe to.
    pub open spec fn kind(&self) -> ID {
        match self {
            Message::TestAdd => 0,
            Message::TestSubtract => 1,
        }
    }

    /// Gets the identifier of the message's kind.
    pub fn discriminant(&self) -> (discriminant: ID)
        ensures
            discriminant == self.kind(),
    {
        match self {
            Message::TestAdd => 0,
            Message::TestSubtract => 1,
        }
    }
}

/// An observer's answer to a message.
#[derive(Debug, Clone, Copy)]
pub enum Response {
    TestAdd(u8),
    TestSubtract(u8),
}

impl Response {
    /// The identifier of the response's kind: that of the message it answers.
    pub open spec fn kind(&self) -> ID {
        match self {
            Response::TestAdd(..) => 0,
            Response::TestSubtract(..) => 1,
        }
    }

    /// Gets the identifier of the response's kind.
    pub fn discriminant(&self) -> (discriminant: ID)
        ensures
            discriminant == self.kind(),
    {
        match self {
            Response::TestAdd(..) => 0,
            Response::TestSubtract(..) => 1,
        }
    }
}

/// Two responses are equal when they are of the same kind, whatever they carry.
impl PartialEq for Response {
    fn eq(&self, other: &Self) -> (is_eq: bool) {
        self.discriminant() == other.discriminant()
    }
}

impl PartialEqSpecImpl for Response {
    open spec fn obeys_eq_spec() -> bool {
        true
    }

    open spec fn eq_spec(&self, other: &Self) -> bool {
        self.kind() == other.kind()
    }
}

} // verus!
