//! The data types that the bot exchanges and stores.

use vstd::prelude::*;

verus! {

/// An error reported by the bot's message gateway.
#[derive(Debug)]
pub struct GocqhttpError {
    message: String,
}

impl View for GocqhttpError {
    type V = Seq<char>;

    closed spec fn view(&self) -> Seq<char> {
        self.message@
    }
}

impl GocqhttpError {
    pub fn new(message: String) -> (e: GocqhttpError)
        ensures
            e@ == message@,
    {
        GocqhttpError { message }
    }

    /// The text under which the error is shown: `MyError: ` and the message.
    pub fn describe(&self) -> (s: String)
        ensures
            s@ == "MyError: "@ + self@,
    {
        let s = String::from_str("MyError: ");
        s.concat(self.message.as_str())
    }
}

/// The abstract value of a [`Message`].
pub struct MessageView {
    pub type_: Seq<char>,
    pub data: Seq<(Seq<char>, Seq<char>)>,
}

/// A message segment in the gateway's format: a type such as `text`, `at` or
/// `image`, and its named string fields.
#[derive(Debug, Clone)]
pub struct Message {
    pub type_: String,
    pub data: Vec<(String, String)>,
}

pub open spec fn field_view(f: (String, String)) -> (Seq<char>, Seq<char>) {
    (f.0@, f.1@)
}

impl View for Message {
    type V = MessageView;

    open spec fn view(&self) -> MessageView {
        MessageView { type_: self.type_@, data: self.data@.map_values(|f: (String, String)| field_view(f)) }
    }
}

impl Message {
    pub fn new(type_: String, data: Vec<(String, String)>) -> (m: Message)
        ensures
            m.type_ == type_,
            m.data == data,
    {
        Message { type_, data }
    }
}

/// The body of a request that sends one message to a group.
pub struct PostBodySendGroupMsg {
    group_id: i64,
    message: Message,
}

/// One entry of the fortune dictionary.
#[derive(Debug, Clone)]
pub struct FortuneData {
    pub text: String,
    pub result1: String,
    pub result2: String,
}

/// A user's fortune of the day: its level (`1` best to `5` worst) and the
/// dictionary entries drawn for it.
#[derive(Debug, Clone)]
pub struct FortuneState {
    pub level: usize,
    pub index: Vec<usize>,
}

impl FortuneState {
    pub fn new(level: usize, index: Vec<usize>) -> (s: FortuneState)
        ensures
            s.level == level,
            s.index == index,
    {
        FortuneState { level, index }
    }
}

/// The abstract value of a [`GPTModel`].
pub struct GPTModelView {
    pub id: Seq<char>,
    pub name: Seq<char>,
    pub max_length: usize,
    pub token_limit: usize,
}

/// The chat model that requests are addressed to.
#[derive(Debug, Clone)]
pub struct GPTModel {
    id: String,
    name: String,
    max_length: usize,
    token_limit: usize,
}

impl View for GPTModel {
    type V = GPTModelView;

    closed spec fn view(&self) -> GPTModelView {
        GPTModelView {
            id: self.id@,
            name: self.name@,
            max_length: self.max_length,
            token_limit: self.token_limit,
        }
    }
}

impl GPTModel {
    /// The abstract value of the model that the bot uses.
    pub open spec fn default_spec() -> GPTModelView {
        GPTModelView {
            id: "openchat_v3.2_mistral"@,
            name: "OpenChat Aura"@,
            max_length: 3000,
            token_limit: 65536,
        }
    }

    /// The model that the bot uses.
    pub fn default() -> (m: GPTModel)
        ensures
            m@ == GPTModel::default_spec(),
    {
        GPTModel {
            id: String::from_str("openchat_v3.2_mistral"),
            name: String::from_str("OpenChat Aura"),
            max_length: 3000,
            token_limit: 65536,
        }
    }

    pub fn id(&self) -> (s: &String)
        ensures
            s@ == self@.id,
    {
        &self.id
    }

    pub fn name(&self) -> (s: &String)
        ensures
            s@ == self@.name,
    {
        &self.name
    }

    pub fn max_length(&self) -> (n: usize)
        ensures
            n == self@.max_length,
    {
        self.max_length
    }

    pub fn token_limit(&self) -> (n: usize)
        ensures
            n == self@.token_limit,
    {
        self.token_limit
    }
}

/// The abstract value of a [`ChatMessage`].
pub struct ChatMessageView {
    pub role: Seq<char>,
    pub content: Seq<char>,
}

/// One turn of a conversation: who spoke, and what.
#[derive(Debug, Clone)]
pub struct ChatMessage {
    pub role: String,
    pub content: String,
}

impl View for ChatMessage {
    type V = ChatMessageView;

    open spec fn view(&self) -> ChatMessageView {
        ChatMessageView { role: self.role@, content: self.content@ }
    }
}

/// The abstract value of a conversation.
pub open spec fn history_view(h: Seq<ChatMessage>) -> Seq<ChatMessageView> {
    h.map_values(|m: ChatMessage| m@)
}

impl ChatMessage {
    /// A message spoken by the user.
    pub fn default(content: String) -> (m: ChatMessage)
        ensures
            m.role@ == "user"@,
            m.content == content,
    {
        ChatMessage { role: String::from_str("user"), content }
    }

    pub fn new(role: String, content: String) -> (m: ChatMessage)
        ensures
            m.role == role,
            m.content == content,
    {
        ChatMessage { role, content }
    }

    /// A copy of this message.
    pub fn duplicate(&self) -> (m: ChatMessage)
        ensures
            m@ == self@,
    {
        ChatMessage { role: self.role.clone(), content: self.content.clone() }
    }
}

/// A request to the chat model: the model, a prompt, and the conversation.
/// The sampling temperature, a constant, is added where the request is
/// serialised.
#[derive(Debug)]
pub struct GPTRequestBody {
    model: GPTModel,
    prompt: String,
    messages: Vec<ChatMessage>,
}

/// The abstract value of a [`GPTRequestBody`].
pub struct GPTRequestBodyView {
    pub model: GPTModelView,
    pub prompt: Seq<char>,
    pub messages: Seq<ChatMessageView>,
}

impl View for GPTRequestBody {
    type V = GPTRequestBodyView;

    closed spec fn view(&self) -> GPTRequestBodyView {
        GPTRequestBodyView {
            model: self.model@,
            prompt: self.prompt@,
            messages: history_view(self.messages@),
        }
    }
}

impl GPTRequestBody {
    pub fn new(model: GPTModel, messages: Vec<ChatMessage>) -> (b: GPTRequestBody)
        ensures
            b@ == (GPTRequestBodyView {
                model: model@,
                prompt: Seq::<char>::empty(),
                messages: history_view(messages@),
            }),
    {
        GPTRequestBody { model, prompt: String::new(), messages }
    }

    pub fn model(&self) -> (m: &GPTModel)
        ensures
            m@ == self@.model,
    {
        &self.model
    }

    pub fn prompt(&self) -> (s: &String)
        ensures
            s@ == self@.prompt,
    {
        &self.prompt
    }

    pub fn messages(&self) -> (v: &Vec<ChatMessage>)
        ensures
            history_view(v@) == self@.messages,
    {
        &self.messages
    }
}

} // verus!
