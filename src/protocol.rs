use vstd::prelude::*;

verus! {

/// The Maelstrom message types this runtime knows.
#[derive(Debug, Clone, Copy, PartialEq, Eq, Hash, Structural)]
#[allow(non_camel_case_types)]
pub enum MessageType {
    init,
    init_ok,
    error,
    /// A client sends text and expects the same text back.
    echo,
    echo_ok,
    /// A value to be broadcast to every node.
    broadcast,
    broadcast_ok,
    /// The network topology: for each node, its neighbours.
    topology,
    topology_ok,
    /// A request for every value present on a node.
    read,
    read_ok,
    /// Any type this runtime does not know; no handler can serve it.
    unknown,
}

/// The payload of a message. JSON payloads of broadcasts (`message`,
/// `messages`) are kept as their exact JSON text.
#[derive(Debug, Clone)]
pub struct MessageBody {
    pub message_type: MessageType,
    /// A message identifier unique to the sender.
    pub msg_id: Option<usize>,
    /// For responses, the identifier of the request.
    pub in_reply_to: Option<usize>,
    /// `init` only: this node's identifier.
    pub node_id: Option<String>,
    /// `init` only: all the nodes of the cluster, this one included.
    pub node_ids: Option<Vec<String>>,
    /// `echo` and `echo_ok`: the text to send back.
    pub echo: Option<String>,
    /// `error` only: the protocol error code.
    pub code: Option<u16>,
    /// `error` only: a human-readable description.
    pub text: Option<String>,
    /// `topology` only: each node with its neighbours.
    pub topology: Option<Vec<(String, Vec<String>)>>,
    /// `broadcast` only: the JSON text of the value.
    pub message: Option<String>,
    /// `read_ok` only: the JSON texts of all the values present on the node.
    pub messages: Option<Vec<String>>,
}

/// A Maelstrom message, an input to or an output of a node.
#[derive(Debug, Clone)]
pub struct Message {
    /// The sender.
    pub src: String,
    /// The recipient.
    pub dest: String,
    pub body: MessageBody,
}

/// Two bodies are equal when their type and both identifiers agree; the
/// payload fields are not compared.
impl PartialEq for MessageBody {
    fn eq(&self, other: &MessageBody) -> (r: bool) {
        self.message_type == other.message_type && self.msg_id == other.msg_id
            && self.in_reply_to == other.in_reply_to
    }
}

impl vstd::std_specs::cmp::PartialEqSpecImpl for MessageBody {
    open spec fn obeys_eq_spec() -> bool {
        true
    }

    open spec fn eq_spec(&self, other: &MessageBody) -> bool {
        self.message_type == other.message_type && self.msg_id == other.msg_id
            && self.in_reply_to == other.in_reply_to
    }
}

impl Eq for MessageBody {

}

/// Two messages are equal when their addresses agree and their bodies are
/// equal.
impl PartialEq for Message {
    fn eq(&self, other: &Message) -> (r: bool) {
        self.src == other.src && self.dest == other.dest && self.body == other.body
    }
}

impl vstd::std_specs::cmp::PartialEqSpecImpl for Message {
    open spec fn obeys_eq_spec() -> bool {
        true
    }

    open spec fn eq_spec(&self, other: &Message) -> bool {
        self.src@ == other.src@ && self.dest@ == other.dest@ && self.body.message_type
            == other.body.message_type && self.body.msg_id == other.body.msg_id
            && self.body.in_reply_to == other.body.in_reply_to
    }
}

impl Eq for Message {

}

/// The mathematical value of a message body: strings as character sequences.
pub struct BodyView {
    pub message_type: MessageType,
    pub msg_id: Option<usize>,
    pub in_reply_to: Option<usize>,
    pub node_id: Option<Seq<char>>,
    pub node_ids: Option<Seq<Seq<char>>>,
    pub echo: Option<Seq<char>>,
    pub code: Option<u16>,
    pub text: Option<Seq<char>>,
    pub topology: Option<Seq<(Seq<char>, Seq<Seq<char>>)>>,
    pub message: Option<Seq<char>>,
    pub messages: Option<Seq<Seq<char>>>,
}

/// The mathematical value of a message.
pub struct MessageView {
    pub src: Seq<char>,
    pub dest: Seq<char>,
    pub body: BodyView,
}

impl View for MessageBody {
    type V = BodyView;

    open spec fn view(&self) -> BodyView {
        BodyView {
            message_type: self.message_type,
            msg_id: self.msg_id,
            in_reply_to: self.in_reply_to,
            node_id: self.node_id.deep_view(),
            node_ids: self.node_ids.deep_view(),
            echo: self.echo.deep_view(),
            code: self.code,
            text: self.text.deep_view(),
            topology: self.topology.deep_view(),
            message: self.message.deep_view(),
            messages: self.messages.deep_view(),
        }
    }
}

impl View for Message {
    type V = MessageView;

    open spec fn view(&self) -> MessageView {
        MessageView { src: self.src@, dest: self.dest@, body: self.body@ }
    }
}

/// A body of the given type with every optional field absent.
pub open spec fn bare_body(t: MessageType) -> BodyView {
    BodyView {
        message_type: t,
        msg_id: None,
        in_reply_to: None,
        node_id: None,
        node_ids: None,
        echo: None,
        code: None,
        text: None,
        topology: None,
        message: None,
        messages: None,
    }
}

/// A reply of type `t` that carries its own identifier and the request's.
pub open spec fn reply_body(t: MessageType, msg_id: usize, in_reply_to: usize) -> BodyView {
    BodyView { msg_id: Some(msg_id), in_reply_to: Some(in_reply_to), ..bare_body(t) }
}

/// An error reply: no identifier of its own, the request's, a code and a text.
pub open spec fn error_body(in_reply_to: usize, code: u16, text: Seq<char>) -> BodyView {
    BodyView {
        in_reply_to: Some(in_reply_to),
        code: Some(code),
        text: Some(text),
        ..bare_body(MessageType::error)
    }
}

/// A copy of a list of strings.
pub fn copy_strings(v: &Vec<String>) -> (r: Vec<String>)
    ensures
        r.deep_view() == v.deep_view(),
{
    let mut r: Vec<String> = Vec::new();
    let mut i: usize = 0;
    while i < v.len()
        invariant
            i <= v.len(),
            r@.len() == i,
            forall|j: int| 0 <= j < i ==> r@[j]@ == v@[j]@,
        decreases v.len() - i,
    {
        r.push(v[i].clone());
        i = i + 1;
    }
    assert(r.deep_view() =~= v.deep_view());
    r
}

fn copy_optional_string(s: &Option<String>) -> (r: Option<String>)
    ensures
        r.deep_view() == s.deep_view(),
{
    match s {
        Some(t) => Some(t.clone()),
        None => None,
    }
}

fn copy_optional_strings(v: &Option<Vec<String>>) -> (r: Option<Vec<String>>)
    ensures
        r.deep_view() == v.deep_view(),
{
    match v {
        Some(t) => Some(copy_strings(t)),
        None => None,
    }
}

fn copy_topology(v: &Vec<(String, Vec<String>)>) -> (r: Vec<(String, Vec<String>)>)
    ensures
        r.deep_view() == v.deep_view(),
{
    let mut r: Vec<(String, Vec<String>)> = Vec::new();
    let mut i: usize = 0;
    while i < v.len()
        invariant
            i <= v.len(),
            r@.len() == i,
            forall|j: int|
                0 <= j < i ==> r@[j].0@ == v@[j].0@ && r@[j].1.deep_view() == v@[j].1.deep_view(),
        decreases v.len() - i,
    {
        let entry = (v[i].0.clone(), copy_strings(&v[i].1));
        r.push(entry);
        i = i + 1;
    }
    assert(r.deep_view() =~= v.deep_view());
    r
}

impl MessageBody {
    /// A body of the given type with every optional field absent.
    pub fn bare(message_type: MessageType) -> (r: MessageBody)
        ensures
            r@ == bare_body(message_type),
    {
        MessageBody {
            message_type,
            msg_id: None,
            in_reply_to: None,
            node_id: None,
            node_ids: None,
            echo: None,
            code: None,
            text: None,
            topology: None,
            message: None,
            messages: None,
        }
    }

    /// A field-for-field copy of this body.
    pub fn duplicate(&self) -> (r: MessageBody)
        ensures
            r@ == self@,
    {
        MessageBody {
            message_type: self.message_type,
            msg_id: self.msg_id,
            in_reply_to: self.in_reply_to,
            node_id: copy_optional_string(&self.node_id),
            node_ids: copy_optional_strings(&self.node_ids),
            echo: copy_optional_string(&self.echo),
            code: self.code,
            text: copy_optional_string(&self.text),
            topology: match &self.topology {
                Some(t) => Some(copy_topology(t)),
                None => None,
            },
            message: copy_optional_string(&self.message),
            messages: copy_optional_strings(&self.messages),
        }
    }
}

impl Message {
    /// A field-for-field copy of this message.
    pub fn duplicate(&self) -> (r: Message)
        ensures
            r@ == self@,
    {
        Message { src: self.src.clone(), dest: self.dest.clone(), body: self.body.duplicate() }
    }

    /// The acknowledgement of a successful initialisation.
    pub fn init_ok(source: &str, destination: &str, message_id: usize, in_reply_to: usize) -> (r: Self)
        ensures
            r@ == (MessageView {
                src: source@,
                dest: destination@,
                body: reply_body(MessageType::init_ok, message_id, in_reply_to),
            }),
    {
        Message::reply(source, destination, MessageType::init_ok, message_id, in_reply_to)
    }

    /// A reply of the given type with no fields but the two identifiers.
    pub fn reply(
        source: &str,
        destination: &str,
        message_type: MessageType,
        message_id: usize,
        in_reply_to: usize,
    ) -> (r: Self)
        ensures
            r@ == (MessageView {
                src: source@,
                dest: destination@,
                body: reply_body(message_type, message_id, in_reply_to),
            }),
    {
        let mut body = MessageBody::bare(message_type);
        body.msg_id = Some(message_id);
        body.in_reply_to = Some(in_reply_to);
        Message { src: source.to_owned(), dest: destination.to_owned(), body }
    }

    /// An error reply. It carries no identifier of its own: errors are not
    /// acknowledged.
    pub fn error(source: &str, destination: &str, in_reply_to: usize, code: u16, text: &str) -> (r: Self)
        ensures
            r@ == (MessageView {
                src: source@,
                dest: destination@,
                body: error_body(in_reply_to, code, text@),
            }),
    {
        let mut body = MessageBody::bare(MessageType::error);
        body.in_reply_to = Some(in_reply_to);
        body.code = Some(code);
        body.text = Some(text.to_owned());
        Message { src: source.to_owned(), dest: destination.to_owned(), body }
    }
}

} // verus!
