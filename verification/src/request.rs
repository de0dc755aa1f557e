//! What is sent to the model service: the prompts and the request bodies.

use crate::history::{ConversationHistory, Message, MessageView};
use crate::record::Mode;
use vstd::prelude::*;
use vstd::string::StringExecFns;

verus! {

/// The identifier of the model that every request names.
pub open spec fn model_name() -> Seq<char> {
    "llama3.2"@
}

/// The content of the system message: the instruction, then the task list
/// in its serialized form.
pub open spec fn system_prompt_text(tasks_json: Seq<char>) -> Seq<char> {
    "You are a helpful assistant. Here are the user's tasks:\n"@ + tasks_json
}

/// The prompt of a one-shot request: the system prompt, then the question.
pub open spec fn one_shot_prompt_text(tasks_json: Seq<char>, question: Seq<char>) -> Seq<char> {
    system_prompt_text(tasks_json) + "\n\nQuestion: "@ + question
}

/// The endpoint that requests of `mode` are posted to.
pub open spec fn endpoint_text(mode: Mode) -> Seq<char> {
    match mode {
        Mode::OneShot => "http://localhost:11434/api/generate"@,
        Mode::Chat => "http://localhost:11434/api/chat"@,
    }
}

/// The endpoint that requests of `mode` are posted to.
pub fn endpoint(mode: Mode) -> (r: &'static str)
    ensures
        r@ == endpoint_text(mode),
{
    match mode {
        Mode::OneShot => "http://localhost:11434/api/generate",
        Mode::Chat => "http://localhost:11434/api/chat",
    }
}

/// Builds the content of the system message.
pub fn system_prompt(tasks_json: &str) -> (r: String)
    ensures
        r@ == system_prompt_text(tasks_json@),
{
    let mut out = String::from_str("You are a helpful assistant. Here are the user's tasks:\n");
    out.append(tasks_json);
    out
}

/// Builds the prompt of a one-shot request.
pub fn one_shot_prompt(tasks_json: &str, question: &str) -> (r: String)
    ensures
        r@ == one_shot_prompt_text(tasks_json@, question@),
{
    let mut out = system_prompt(tasks_json);
    out.append("\n\nQuestion: ");
    out.append(question);
    out
}

/// The body of a one-shot request.
#[derive(Debug, PartialEq, Eq)]
pub struct GenerateRequest {
    pub model: String,
    pub prompt: String,
    pub stream: bool,
}

/// The body of a chat request.
#[derive(Debug, PartialEq, Eq)]
pub struct ChatRequest {
    pub model: String,
    pub messages: Vec<Message>,
    pub stream: bool,
}

/// A request to the model service.
#[derive(Debug, PartialEq, Eq)]
pub enum Request {
    Generate(GenerateRequest),
    Chat(ChatRequest),
}

/// The mathematical value of a `Request`.
pub enum RequestView {
    Generate { model: Seq<char>, prompt: Seq<char>, stream: bool },
    Chat { model: Seq<char>, messages: Seq<MessageView>, stream: bool },
}

impl View for Request {
    type V = RequestView;

    open spec fn view(&self) -> RequestView {
        match self {
            Request::Generate(body) => RequestView::Generate {
                model: body.model@,
                prompt: body.prompt@,
                stream: body.stream,
            },
            Request::Chat(body) => RequestView::Chat {
                model: body.model@,
                messages: body.messages.deep_view(),
                stream: body.stream,
            },
        }
    }
}

/// The one-shot request for `question`: a streamed generation from the
/// prompt that embeds the task list.
pub open spec fn generate_request(tasks_json: Seq<char>, question: Seq<char>) -> RequestView {
    RequestView::Generate {
        model: model_name(),
        prompt: one_shot_prompt_text(tasks_json, question),
        stream: true,
    }
}

/// The chat request for `history`: a streamed reply to the whole history.
pub open spec fn chat_request(history: Seq<MessageView>) -> RequestView {
    RequestView::Chat { model: model_name(), messages: history, stream: true }
}

/// Builds the one-shot request for `question`.
pub fn build_generate_request(tasks_json: &str, question: &str) -> (r: Request)
    ensures
        r@ == generate_request(tasks_json@, question@),
{
    Request::Generate(
        GenerateRequest {
            model: String::from_str("llama3.2"),
            prompt: one_shot_prompt(tasks_json, question),
            stream: true,
        },
    )
}

/// Builds the chat request that carries every message of `history`, in order.
pub fn build_chat_request(history: &ConversationHistory) -> (r: Request)
    ensures
        r@ == chat_request(history@),
{
    Request::Chat(
        ChatRequest {
            model: String::from_str("llama3.2"),
            messages: history.to_vec(),
            stream: true,
        },
    )
}

} // verus!
