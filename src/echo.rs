use vstd::prelude::*;

use crate::node::{AppError, Node};
use crate::protocol::{reply_body, BodyView, Message, MessageType, MessageView};

verus! {

/// The text to send back to an echo client.
pub struct EchoResponse {
    pub text: String,
}

/// An `echo_ok` reply carrying `text`.
pub open spec fn echo_ok_body(msg_id: usize, in_reply_to: usize, text: Seq<char>) -> BodyView {
    BodyView { echo: Some(text), ..reply_body(MessageType::echo_ok, msg_id, in_reply_to) }
}

/// Echo idempotence: two echo requests with equal text get `echo_ok`
/// replies with equal text, whatever their identifiers.
pub proof fn lemma_echo_idempotent(
    a: MessageView,
    b: MessageView,
    id_a: usize,
    id_b: usize,
    reply_to_a: usize,
    reply_to_b: usize,
)
    requires
        a.body.echo is Some,
        a.body.echo == b.body.echo,
    ensures
        echo_ok_body(id_a, reply_to_a, a.body.echo.unwrap()).echo == echo_ok_body(
            id_b,
            reply_to_b,
            b.body.echo.unwrap(),
        ).echo,
{
}

/// Answers an `echo` request with its own text; a request without one gets
/// a missing-field error.
pub fn echo(_node: &Node, request: &Message) -> (r: Result<EchoResponse, AppError>)
    ensures
        request.body.echo is None ==> (r matches Err(AppError::MissingField(path)) && path@
            == "body.echo"@),
        request.body.echo is Some ==> (r matches Ok(response) && response.text@
            == request.body.echo.unwrap()@),
{
    match &request.body.echo {
        None => Err(AppError::MissingField("body.echo".to_owned())),
        Some(text) => Ok(EchoResponse { text: text.clone() }),
    }
}

impl EchoResponse {
    /// One `echo_ok` reply to the caller, with a fresh message identifier.
    pub fn to_messages(&self, node: &mut Node, caller: &str, in_reply_to: usize) -> (r: Vec<Message>)
        requires
            old(node).next_message_id < usize::MAX,
        ensures
            r@.len() == 1,
            r@[0]@ == (MessageView {
                src: old(node).node_id@,
                dest: caller@,
                body: echo_ok_body(old(node).next_message_id, in_reply_to, self.text@),
            }),
            final(node).next_message_id == old(node).next_message_id + 1,
            final(node).node_id == old(node).node_id,
            final(node).node_ids == old(node).node_ids,
            final(node).initialized == old(node).initialized,
    {
        let id = node.get_and_increment_message_id();
        let mut reply = Message::reply(node.node_id.as_str(), caller, MessageType::echo_ok, id, in_reply_to);
        reply.body.echo = Some(self.text.clone());
        vec![reply]
    }
}

} // verus!
