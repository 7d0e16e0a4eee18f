use qqbot::dialogue::{
    assistant_message, gpt_dialogue_path, load_gpt_chat_characters, normal_chat_to_gpt,
    qq_dialogue_path, storage_chat_message, storage_gpt_message, storage_qq_message,
    summarize_qq_message_via_gpt, transfer_chat_message_to_string,
    transfer_messages_to_gpt_request_body, transfer_single_message_to_gpt_request_body,
    transfer_single_string_to_gpt_request_body,
};
use qqbot::mytype::{ChatMessage, GPTModel};

fn msg(role: &str, content: &str) -> ChatMessage {
    ChatMessage::new(role.to_string(), content.to_string())
}

fn contents(h: &Vec<ChatMessage>) -> Vec<String> {
    h.iter().map(|m| m.content.clone()).collect()
}

#[test]
fn storage_drops_oldest_until_within_budget() {
    let h = vec![msg("a", "1234"), msg("b", "56"), msg("c", "789")];
    let r = storage_chat_message(h, msg("d", "0"), 6);
    assert_eq!(contents(&r), vec!["56", "789", "0"]);
    let r = storage_chat_message(r, msg("e", "abcdefg"), 6);
    assert!(r.is_empty());
}

#[test]
fn storage_keeps_at_most_two_hundred_messages() {
    let mut h = Vec::new();
    for i in 0..200 {
        h.push(msg("u", &i.to_string()));
    }
    let r = storage_gpt_message(h, msg("u", "new"));
    assert_eq!(r.len(), 200);
    assert_eq!(r[0].content, "1");
    assert_eq!(r[199].content, "new");
}

#[test]
fn storage_counts_characters_not_bytes() {
    let h = vec![msg("a", "你好")];
    let r = storage_chat_message(h, msg("b", "世界"), 4);
    assert_eq!(contents(&r), vec!["你好", "世界"]);
}

#[test]
fn newest_message_is_kept_when_it_fits() {
    let h = vec![msg("a", &"x".repeat(2999))];
    let r = storage_gpt_message(h, msg("b", "yy"));
    assert_eq!(contents(&r), vec!["yy"]);
}

#[test]
fn qq_storage_ignores_empty_messages() {
    let h = vec![msg("a", "hi")];
    let r = storage_qq_message(h, String::new(), "bob".to_string());
    assert_eq!(contents(&r), vec!["hi"]);
    let r = storage_qq_message(r, "yo".to_string(), "bob".to_string());
    assert_eq!(r[1].role, "bob");
    assert_eq!(contents(&r), vec!["hi", "yo"]);
}

#[test]
fn chat_lines_take_the_last_messages() {
    let h = vec![msg("a", "1"), msg("b", "2"), msg("c", "3")];
    assert_eq!(transfer_chat_message_to_string(&h, 2), "b:2\nc:3\n");
    assert_eq!(transfer_chat_message_to_string(&h, 0), "");
    assert_eq!(transfer_chat_message_to_string(&vec![], 5), "");
}

#[test]
fn loading_a_character_sheet_stores_each_message() {
    let source = vec![msg("system", "你是一只猫"), msg("assistant", "喵")];
    let h = load_gpt_chat_characters(source, vec![msg("user", "hi")]);
    assert_eq!(contents(&h), vec!["hi", "你是一只猫", "喵"]);
    assert_eq!(h[1].role, "system");
}

#[test]
fn chat_turn_builds_request_and_history() {
    let (req, stored) = normal_chat_to_gpt(vec![msg("user", "hi"), msg("assistant", "hello")], "你好".to_string());
    let sent = req.messages();
    assert_eq!(contents(sent), vec!["hi", "hello", "你好"]);
    assert_eq!(sent[2].role, "user");
    assert_eq!(req.prompt(), "");
    assert_eq!(req.model().id(), "openchat_v3.2_mistral");
    assert_eq!(contents(&stored), vec!["hi", "hello", "你好"]);
    let reply = assistant_message("喵".to_string());
    assert_eq!(reply.role, "assistant");
}

#[test]
fn request_builders() {
    let req = transfer_single_string_to_gpt_request_body("q".to_string());
    assert_eq!(req.messages().len(), 1);
    assert_eq!(req.messages()[0].role, "user");
    assert_eq!(req.messages()[0].content, "q");
    let req = transfer_single_message_to_gpt_request_body("r".to_string());
    assert_eq!(req.messages()[0].content, "r");
    let req = transfer_messages_to_gpt_request_body(vec![msg("a", "1"), msg("b", "2")]);
    assert_eq!(contents(req.messages()), vec!["1", "2"]);
    let m = GPTModel::default();
    assert_eq!(m.name(), "OpenChat Aura");
    assert_eq!(m.max_length(), 3000);
    assert_eq!(m.token_limit(), 65536);
}

#[test]
fn summary_request_holds_header_and_lines() {
    let h = vec![msg("a", "1"), msg("b", "2")];
    let req = summarize_qq_message_via_gpt(&h, 1);
    assert_eq!(
        req.messages()[0].content,
        "以下为一段群聊的聊天记录，请总结主要聊天内容并概括每个人的聊天方式与性格\nb:2\n"
    );
}

#[test]
fn dialogue_paths() {
    assert_eq!(qq_dialogue_path(863770345), "./data/dialogue/qq/863770345.json");
    assert_eq!(gpt_dialogue_path(1), "./data/dialogue/gpt/1.json");
}

#[test]
fn chat_message_constructors() {
    let m = ChatMessage::default("hey".to_string());
    assert_eq!(m.role, "user");
    assert_eq!(m.content, "hey");
    let d = m.duplicate();
    assert_eq!(d.content, "hey");
}

#[test]
fn more_messages_only_add_lines_in_front() {
    let h = vec![msg("a", "1"), msg("b", "2"), msg("c", "3")];
    for cnt in 0..5 {
        let small = transfer_chat_message_to_string(&h, cnt);
        let big = transfer_chat_message_to_string(&h, cnt + 1);
        assert!(big.ends_with(&small));
    }
    assert_eq!(transfer_chat_message_to_string(&h, 7), transfer_chat_message_to_string(&h, 3));
}
