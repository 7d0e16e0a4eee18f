use qqbot::bot::{
    analyze_message, analyze_post_body, seconds_until_daily_work, BotAction, EventField,
    PostBody,
};

fn group_post(raw: &str) -> PostBody {
    PostBody {
        post_type: EventField::Text("message".to_string()),
        message_type: EventField::Text("group".to_string()),
        group_id: Some(10),
        user_id: Some(20),
        raw_message: Some(raw.to_string()),
    }
}

#[test]
fn plain_messages_are_counted() {
    assert!(matches!(analyze_message("hello"), BotAction::Count));
    assert!(matches!(analyze_message("!ping"), BotAction::Count));
    assert!(matches!(analyze_message(" !!ping"), BotAction::Count));
    assert!(matches!(analyze_message("!!unknown"), BotAction::Count));
    assert!(matches!(analyze_message(""), BotAction::Count));
}

#[test]
fn commands_are_recognised() {
    match analyze_message("!!ping") {
        BotAction::Reply(s) => assert_eq!(s, "pong!!"),
        other => panic!("{:?}", other),
    }
    assert!(matches!(analyze_message("!!daily-rank"), BotAction::DailyRank));
    assert!(matches!(analyze_message("!!total-rank extra"), BotAction::TotalRank));
    assert!(matches!(analyze_message("!!petpet-list"), BotAction::PetList));
    assert!(matches!(analyze_message("!!群友老婆"), BotAction::Wife));
    assert!(matches!(analyze_message("!!抽签"), BotAction::Fortune));
    match analyze_message("!!chat  how   are you") {
        BotAction::Chat(s) => assert_eq!(s, "how are you"),
        other => panic!("{:?}", other),
    }
    match analyze_message("!!chat") {
        BotAction::Chat(s) => assert_eq!(s, ""),
        other => panic!("{:?}", other),
    }
}

#[test]
fn only_group_messages_are_acted_on() {
    let m = analyze_post_body(&group_post("!!抽签")).unwrap();
    assert_eq!(m.group_id, 10);
    assert_eq!(m.user_id, 20);
    assert!(matches!(m.action, BotAction::Fortune));
    let mut private = group_post("hi");
    private.message_type = EventField::Text("private".to_string());
    assert!(analyze_post_body(&private).is_none());
    let mut notice = group_post("hi");
    notice.post_type = EventField::Text("notice".to_string());
    notice.message_type = EventField::Absent;
    assert!(analyze_post_body(&notice).is_none());
    let mut odd = group_post("hi");
    odd.post_type = EventField::Other;
    assert!(analyze_post_body(&odd).is_none());
    let mut missing = group_post("hi");
    missing.post_type = EventField::Absent;
    assert!(analyze_post_body(&missing).is_none());
}

#[test]
fn daily_work_waits_until_twenty_hundred() {
    assert_eq!(seconds_until_daily_work(0), 72000);
    assert_eq!(seconds_until_daily_work(71999), 1);
    assert_eq!(seconds_until_daily_work(72000), 86400);
    assert_eq!(seconds_until_daily_work(86400 + 80000), 78400);
    let now = 1_700_000_000u64;
    let w = seconds_until_daily_work(now);
    assert_eq!((now + w) % 86400, 72000);
    assert!(w >= 1 && w <= 86400);
}
