use vstd::prelude::*;

use crate::node::{error_code, AppError, Node};
use crate::protocol::{
    bare_body, error_body, reply_body, BodyView, Message, MessageBody, MessageType, MessageView,
};

verus! {

/// What the initialisation phase does with one parsed input.
pub enum InitStep {
    /// Dropped: the input carries no message identifier or is not an `init`.
    Ignored,
    /// Answered with an error; the node stays uninitialised.
    Rejected(Message),
    /// The node is initialised; the `init_ok` reply is enclosed.
    Initialised(Message),
}

/// What the dispatch phase does with one parsed input.
pub enum Route {
    /// Dropped: without a message identifier no reply can reference it.
    Drop,
    /// Answered by the runtime itself with the enclosed error.
    Reply(Message),
    /// Handed to the handler registered for its type, with its identifier.
    Handle(usize),
}

/// Handles one input before the node is initialised. Inputs without a
/// message identifier and inputs other than `init` are dropped. An `init`
/// that lacks `node_id` or `node_ids` gets a missing-field error. A complete
/// `init` records the node's identity and gets `init_ok`.
pub fn initialise(node: &mut Node, request: &Message) -> (r: InitStep)
    requires
        !old(node).initialized,
        old(node).next_message_id < usize::MAX,
    ensures
        (request.body.msg_id is None || request.body.message_type != MessageType::init) ==> r is Ignored,
        !(r is Initialised) ==> *final(node) == *old(node),
        request.body.msg_id is Some && request.body.message_type == MessageType::init ==> {
            let id = request.body.msg_id.unwrap();
            &&& request.body.node_id is None ==> (r matches InitStep::Rejected(m) && m@ == (MessageView {
                src: old(node).node_id@,
                dest: request.src@,
                body: error_body(id, 12, "body.node_id"@),
            }))
            &&& request.body.node_id is Some && request.body.node_ids is None ==> (r matches InitStep::Rejected(m)
                && m@ == (MessageView {
                src: old(node).node_id@,
                dest: request.src@,
                body: error_body(id, 12, "body.node_ids"@),
            }))
            &&& request.body.node_id is Some && request.body.node_ids is Some ==> {
                &&& (r matches InitStep::Initialised(m) && m@ == (MessageView {
                    src: request.body.node_id.unwrap()@,
                    dest: request.src@,
                    body: reply_body(MessageType::init_ok, old(node).next_message_id, id),
                }))
                &&& final(node).initialized
                &&& final(node).node_id@ == request.body.node_id.unwrap()@
                &&& final(node).node_ids.deep_view() == request.body.node_ids.unwrap().deep_view()
                &&& final(node).next_message_id == old(node).next_message_id + 1
            }
        },
{
    let id = match request.body.msg_id {
        None => return InitStep::Ignored,
        Some(id) => id,
    };
    if request.body.message_type != MessageType::init {
        return InitStep::Ignored;
    }
    let node_id = match &request.body.node_id {
        None => {
            let error = AppError::MissingField("body.node_id".to_owned());
            return InitStep::Rejected(error.to_message(node.node_id.as_str(), request.src.as_str(), id));
        },
        Some(node_id) => node_id,
    };
    let node_ids = match &request.body.node_ids {
        None => {
            let error = AppError::MissingField("body.node_ids".to_owned());
            return InitStep::Rejected(error.to_message(node.node_id.as_str(), request.src.as_str(), id));
        },
        Some(node_ids) => node_ids,
    };
    let initialised = node.init(node_id.clone(), crate::protocol::copy_strings(node_ids));
    assert(initialised is Ok);
    let message_id = node.get_and_increment_message_id();
    InitStep::Initialised(
        Message::init_ok(node.node_id.as_str(), request.src.as_str(), message_id, id),
    )
}

/// Decides what happens to one input once the node is initialised. Inputs
/// without a message identifier are dropped; a second `init` gets
/// `AlreadyInitialised`; an unknown type, or one with no registered handler,
/// gets `NotImplemented`; anything else goes to its handler.
pub fn route(node: &Node, request: &Message, registered: bool) -> (r: Route)
    ensures
        request.body.msg_id is None ==> r is Drop,
        request.body.msg_id is Some ==> {
            let id = request.body.msg_id.unwrap();
            &&& request.body.message_type == MessageType::init ==> (r matches Route::Reply(m) && m@
                == (MessageView {
                src: node.node_id@,
                dest: request.src@,
                body: error_body(id, 22, m@.body.text.unwrap()),
            }))
            &&& request.body.message_type != MessageType::init && (!registered
                || request.body.message_type == MessageType::unknown) ==> (r matches Route::Reply(
                m,
            ) && m@ == (MessageView {
                src: node.node_id@,
                dest: request.src@,
                body: error_body(id, 10, m@.body.text.unwrap()),
            }))
            &&& request.body.message_type != MessageType::init && request.body.message_type
                != MessageType::unknown && registered ==> r == Route::Handle(id)
        },
{
    let id = match request.body.msg_id {
        None => return Route::Drop,
        Some(id) => id,
    };
    if request.body.message_type == MessageType::init {
        return Route::Reply(AppError::AlreadyInitialised.to_message(node.node_id.as_str(), request.src.as_str(), id));
    }
    if !registered || request.body.message_type == MessageType::unknown {
        return Route::Reply(AppError::NotImplemented.to_message(node.node_id.as_str(), request.src.as_str(), id));
    }
    Route::Handle(id)
}

/// The error that replaces a message that could not be encoded: code 13,
/// with the message's addressing and its `in_reply_to`, absent when the
/// message replied to nothing.
pub fn serialization_failure(message: &Message) -> (r: Message)
    ensures
        r@ == (MessageView {
            src: message.src@,
            dest: message.dest@,
            body: BodyView {
                in_reply_to: message.body.in_reply_to,
                code: Some(error_code(AppError::SerializationFailed)),
                text: r@.body.text,
                ..bare_body(MessageType::error)
            },
        }),
        r@.body.text is Some,
{
    let mut body = MessageBody::bare(MessageType::error);
    body.in_reply_to = message.body.in_reply_to;
    body.code = Some(AppError::SerializationFailed.code());
    body.text = Some("Unable to serialise response".to_owned());
    Message { src: message.src.clone(), dest: message.dest.clone(), body }
}

/// The handler for messages that are accepted without a reply, such as
/// acknowledgements.
pub struct NoOpHandler;

/// The empty response.
pub struct NoOpResponse;

impl NoOpHandler {
    /// Accepts any request.
    pub fn handle_request(&self, _node: &Node, _request: &Message) -> (r: Result<NoOpResponse, AppError>)
        ensures
            r is Ok,
    {
        Ok(NoOpResponse)
    }
}

impl NoOpResponse {
    /// No messages.
    pub fn to_messages(&self, _node: &Node, _caller: &str, _in_reply_to: usize) -> (r: Vec<Message>)
        ensures
            r@.len() == 0,
    {
        Vec::new()
    }
}

} // verus!
