use vstd::prelude::*;

use crate::protocol::{error_body, Message, MessageView};

verus! {

/// Application errors. These do not correspond one-to-one with the Maelstrom
/// protocol errors: each maps onto a protocol error code.
#[derive(Debug)]
pub enum AppError {
    /// The request is missing a required field, named by its dot-notation path.
    MissingField(String),
    /// An initialisation request arrived after the node was initialised.
    AlreadyInitialised,
    /// No handler is registered for the request's message type.
    NotImplemented,
    /// A generated response could not be encoded.
    SerializationFailed,
}

/// The Maelstrom error code of an application error.
pub open spec fn error_code(e: AppError) -> u16 {
    match e {
        AppError::MissingField(_) => 12,
        AppError::AlreadyInitialised => 22,
        AppError::NotImplemented => 10,
        AppError::SerializationFailed => 13,
    }
}

/// Whether the error is definite: the requested operation certainly did not
/// happen and never will.
pub open spec fn error_is_definite(e: AppError) -> bool {
    match e {
        AppError::MissingField(_) | AppError::AlreadyInitialised | AppError::NotImplemented => true,
        AppError::SerializationFailed => false,
    }
}

impl AppError {
    /// The error reply to a request: the error's code, and a text that, for a
    /// missing field, is the field's path.
    pub fn to_message(&self, source: &str, destination: &str, in_reply_to: usize) -> (r: Message)
        ensures
            r@ == (MessageView {
                src: source@,
                dest: destination@,
                body: error_body(in_reply_to, error_code(*self), r@.body.text.unwrap()),
            }),
            self matches AppError::MissingField(path) ==> r@.body.text == Some(path@),
    {
        let code = self.code();
        match self {
            AppError::MissingField(path) => Message::error(source, destination, in_reply_to, code, path.as_str()),
            AppError::AlreadyInitialised => Message::error(
                source,
                destination,
                in_reply_to,
                code,
                "Node already initialised",
            ),
            AppError::NotImplemented => Message::error(
                source,
                destination,
                in_reply_to,
                code,
                "Not yet implemented",
            ),
            AppError::SerializationFailed => Message::error(
                source,
                destination,
                in_reply_to,
                code,
                "Unable to serialise response",
            ),
        }
    }

    /// Maelstrom's protocol distinguishes definite errors (the operation did
    /// not and never will happen) from indefinite ones (it may have happened,
    /// or may happen later). A failed encoding of a response says nothing
    /// about whether the request took effect, so it is indefinite.
    pub fn _is_definite(&self) -> (r: bool)
        ensures
            r == error_is_definite(*self),
    {
        match self {
            AppError::MissingField(_) | AppError::AlreadyInitialised | AppError::NotImplemented => true,
            AppError::SerializationFailed => false,
        }
    }

    /// The Maelstrom error code of this error.
    pub fn code(&self) -> (r: u16)
        ensures
            r == error_code(*self),
    {
        match self {
            AppError::MissingField(_) => 12,
            AppError::AlreadyInitialised => 22,
            AppError::NotImplemented => 10,
            AppError::SerializationFailed => 13,
        }
    }
}

/// A node in a Maelstrom cluster.
#[derive(Debug)]
pub struct Node {
    /// The node's identifier; a placeholder until the node is initialised.
    pub node_id: String,
    /// The counter from which message identifiers are drawn.
    pub next_message_id: usize,
    /// All the node identifiers in the cluster, this one included.
    pub node_ids: Vec<String>,
    /// Whether the initialisation handshake has completed.
    pub initialized: bool,
}

impl Node {
    /// A node that has not been initialised yet.
    pub fn new() -> (r: Node)
        ensures
            !r.initialized,
            r.next_message_id == 0,
            r.node_ids@.len() == 0,
    {
        Node {
            node_id: "Uninitialised Node".to_owned(),
            next_message_id: 0,
            node_ids: Vec::new(),
            initialized: false,
        }
    }

    /// Records the node's identity. The identity is written once: a second
    /// call fails with `AlreadyInitialised` and leaves the node unchanged.
    pub fn init(&mut self, node_id: String, node_ids: Vec<String>) -> (r: Result<(), AppError>)
        ensures
            old(self).initialized ==> r == Err::<(), AppError>(AppError::AlreadyInitialised)
                && *final(self) == *old(self),
            !old(self).initialized ==> r is Ok && final(self).initialized
                && final(self).node_id == node_id && final(self).node_ids == node_ids
                && final(self).next_message_id == old(self).next_message_id,
    {
        if self.initialized {
            return Err(AppError::AlreadyInitialised);
        }
        self.node_id = node_id;
        self.node_ids = node_ids;
        self.initialized = true;
        Ok(())
    }

    /// Returns the next message identifier and advances the counter.
    pub fn get_and_increment_message_id(&mut self) -> (r: usize)
        requires
            old(self).next_message_id < usize::MAX,
        ensures
            r == old(self).next_message_id,
            final(self).next_message_id == old(self).next_message_id + 1,
            final(self).node_id == old(self).node_id,
            final(self).node_ids == old(self).node_ids,
            final(self).initialized == old(self).initialized,
    {
        let id = self.next_message_id;
        self.next_message_id = id + 1;
        id
    }
}

} // verus!
