use taskchat::history::{ConversationHistory, Message, Role};
use taskchat::record::Mode;
use taskchat::request::{
    build_chat_request, build_generate_request, endpoint, one_shot_prompt, system_prompt,
    ChatRequest, GenerateRequest, Request,
};

#[test]
fn role_names_are_the_wire_names() {
    assert_eq!(Role::System.as_str(), "system");
    assert_eq!(Role::User.as_str(), "user");
    assert_eq!(Role::Assistant.as_str(), "assistant");
}

#[test]
fn history_starts_with_its_system_message() {
    let history = ConversationHistory::new("context".to_string());
    assert_eq!(history.len(), 1);
    assert_eq!(
        history.to_vec(),
        vec![Message { role: Role::System, content: "context".to_string() }]
    );
}

#[test]
fn history_grows_at_its_end() {
    let mut history = ConversationHistory::new("s".to_string());
    history.push_user("u1".to_string());
    history.push_assistant("a1".to_string());
    history.push_user("u1".to_string());
    assert_eq!(history.len(), 4);
    assert_eq!(
        history.to_vec(),
        vec![
            Message::new(Role::System, "s".to_string()),
            Message::new(Role::User, "u1".to_string()),
            Message::new(Role::Assistant, "a1".to_string()),
            Message::new(Role::User, "u1".to_string()),
        ]
    );
}

#[test]
fn message_clone_is_equal() {
    let m = Message::new(Role::Assistant, "text".to_string());
    assert_eq!(m.clone(), m);
}

#[test]
fn system_prompt_embeds_the_task_list() {
    assert_eq!(
        system_prompt("[]"),
        "You are a helpful assistant. Here are the user's tasks:\n[]"
    );
    assert_eq!(system_prompt(""), "You are a helpful assistant. Here are the user's tasks:\n");
}

#[test]
fn one_shot_prompt_appends_the_question() {
    assert_eq!(
        one_shot_prompt("[1]", "Why?"),
        "You are a helpful assistant. Here are the user's tasks:\n[1]\n\nQuestion: Why?"
    );
}

#[test]
fn endpoints_are_fixed() {
    assert_eq!(endpoint(Mode::OneShot), "http://localhost:11434/api/generate");
    assert_eq!(endpoint(Mode::Chat), "http://localhost:11434/api/chat");
}

#[test]
fn generate_request_is_streamed() {
    assert_eq!(
        build_generate_request("[]", "Q"),
        Request::Generate(GenerateRequest {
            model: "llama3.2".to_string(),
            prompt: "You are a helpful assistant. Here are the user's tasks:\n[]\n\nQuestion: Q"
                .to_string(),
            stream: true,
        })
    );
}

#[test]
fn chat_request_carries_the_whole_history() {
    let mut history = ConversationHistory::new("s".to_string());
    history.push_user("u".to_string());
    assert_eq!(
        build_chat_request(&history),
        Request::Chat(ChatRequest {
            model: "llama3.2".to_string(),
            messages: vec![
                Message::new(Role::System, "s".to_string()),
                Message::new(Role::User, "u".to_string()),
            ],
            stream: true,
        })
    );
}
