use qqbot::bot::parse_message;
use qqbot::dialogue::{clear_gpt_chat_message, transfer_chat_message_to_string};
use qqbot::mytype::{ChatMessage, FortuneData, FortuneState};
use qqbot::produce::{get_fortune_state, produce_fortune_message};

fn sample_fortune_data() -> Vec<FortuneData> {
    let mut data = Vec::new();
    for i in 0..40 {
        data.push(FortuneData {
            text: format!("事{}", i),
            result1: format!("好{}", i),
            result2: format!("坏{}", i),
        });
    }
    data
}

#[test]
fn test_parse_message() {
    let string = String::from("hello world");
    println!("{:?}", parse_message(&string));
    let (command, args) = parse_message(&string);
    assert_eq!(command, "hello");
    assert_eq!(args, vec!["world"]);
    let string = String::from("");
    println!("{:?}", parse_message(&string));
    let (command, args) = parse_message(&string);
    assert_eq!(command, "");
    assert!(args.is_empty());
}

#[test]
fn test_clear_gpt_chat_message() {
    let path = clear_gpt_chat_message(0);
    assert_eq!(path, "./data/dialogue/gpt/0.json");
}

#[test]
fn test_transfer_chat_message_to_string() {
    let data = vec![
        ChatMessage::new(String::from("alice"), String::from("hi")),
        ChatMessage::new(String::from("bob"), String::from("hello")),
        ChatMessage::new(String::from("carol"), String::from("早上好")),
    ];
    let text = transfer_chat_message_to_string(&data, 10);
    println!("its:\n{}", text);
    assert_eq!(text, "alice:hi\nbob:hello\ncarol:早上好\n");
    let args: Vec<&str> = Vec::new();
    let cnt = if args.len() == 0 {
        50
    } else {
        args[0].parse::<usize>().unwrap_or(50)
    };
    println!("cnt:{}", cnt);
    assert_eq!(cnt, 50);
}

#[test]
fn test_get_fortune_state() {
    let data = sample_fortune_data();
    let state = get_fortune_state(None, data.len());
    println!("{:?}", state);
    assert!(state.level >= 1 && state.level <= 5);
    let expected = if state.level == 1 || state.level == 5 { 2 } else { 4 };
    assert_eq!(state.index.len(), expected);
    let saved = FortuneState::new(3, vec![1, 33, 10, 2]);
    let again = get_fortune_state(Some(saved.clone()), data.len());
    println!("{:?}", again);
    assert_eq!(again.level, 3);
    assert_eq!(again.index, vec![1, 33, 10, 2]);
}

#[test]
fn test_produce_fortune_message() {
    let data = sample_fortune_data();
    let state = FortuneState::new(1, vec![0, 1]);
    let message = produce_fortune_message(114514, &state, &data);
    println!("{:?}", message);
    assert_eq!(message.len(), 2);
    assert_eq!(message[0].type_, "at");
    assert_eq!(message[0].data, vec![(String::from("qq"), String::from("114514"))]);
    let state = FortuneState::new(5, vec![2, 3]);
    let message = produce_fortune_message(1919810, &state, &data);
    println!("{:?}", message);
    assert_eq!(message[0].data, vec![(String::from("qq"), String::from("1919810"))]);
    assert_eq!(
        message[1].data,
        vec![(
            String::from("text"),
            String::from("你的今日运势为\n§大凶§\n忌：事2 (坏2)\n忌：事3 (坏3)")
        )]
    );
}
