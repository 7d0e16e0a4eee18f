use qqbot::mytype::{FortuneData, FortuneState, GocqhttpError};
use qqbot::produce::{
    at_message, avatar_needs_download, avatar_path, avatar_stamp_path, avatar_url,
    convert_string_to_message, daily_report_start, discode_fortune_state, fortune_weight,
    get_pet_list, get_wife, get_wife_message, image_message, image_message_from_base64,
    pet_folder_skipped, report_next, report_record, total_report_entries, total_report_start,
    PetEntry, ReportStep,
};
use qqbot::tally::CountMap;

fn table(entries: &[(&str, i64)]) -> CountMap {
    let mut t = CountMap::new();
    for (k, v) in entries {
        t.insert(k.to_string(), *v);
    }
    t
}

fn text_of(m: &qqbot::mytype::Message) -> String {
    m.data[0].1.clone()
}

fn fortune_data() -> Vec<FortuneData> {
    (0..6)
        .map(|i| FortuneData {
            text: format!("t{}", i),
            result1: format!("g{}", i),
            result2: format!("b{}", i),
        })
        .collect()
}

#[test]
fn message_segments() {
    let m = convert_string_to_message("hi".to_string());
    assert_eq!(m.type_, "text");
    assert_eq!(m.data, vec![("text".to_string(), "hi".to_string())]);
    let m = at_message(-12);
    assert_eq!(m.type_, "at");
    assert_eq!(m.data, vec![("qq".to_string(), "-12".to_string())]);
}

#[test]
fn image_segment_encodes_base64() {
    let m = image_message(&b"abc".to_vec());
    assert_eq!(m.type_, "image");
    assert_eq!(m.data, vec![("file".to_string(), "base64://YWJj".to_string())]);
    let m = image_message(&vec![0xff, 0x00]);
    assert_eq!(text_of(&m), "base64:///wA=");
    let m = image_message_from_base64("QQ==".to_string());
    assert_eq!(text_of(&m), "base64://QQ==");
}

#[test]
fn wife_is_drawn_once_then_kept() {
    let total = table(&[("1", 500), ("2", 300), ("3", 10)]);
    let mut wives = CountMap::new();
    let w = get_wife(&mut wives, &total, 1);
    assert_eq!(w, 2);
    assert_eq!(wives.get(&"1".to_string()), Some(2));
    let again = get_wife(&mut wives, &total, 1);
    assert_eq!(again, 2);
    assert_eq!(wives.entries().len(), 1);
}

#[test]
fn wife_message_has_four_segments() {
    let ms = get_wife_message(1, 2, &b"ab".to_vec(), "Bob".to_string());
    assert_eq!(ms.len(), 4);
    assert_eq!(ms[0].data, vec![("qq".to_string(), "1".to_string())]);
    assert_eq!(text_of(&ms[1]), "你的今日老婆是");
    assert_eq!(text_of(&ms[2]), "base64://YWI=");
    assert_eq!(text_of(&ms[3]), "Bob(2)");
}

#[test]
fn fortune_text_by_level() {
    let data = fortune_data();
    let m = discode_fortune_state(&FortuneState::new(1, vec![0, 1]), &data);
    assert_eq!(text_of(&m), "你的今日运势为\n§大吉§\n宜：t0 (g0)\n宜：t1 (g1)");
    let m = discode_fortune_state(&FortuneState::new(3, vec![2, 3, 4, 5]), &data);
    assert_eq!(
        text_of(&m),
        "你的今日运势为\n§中平§\n宜：t2 (g2)\n宜：t3 (g3)\n忌：t4 (b4)\n忌：t5 (b5)"
    );
    let m = discode_fortune_state(&FortuneState::new(4, vec![]), &data);
    assert_eq!(text_of(&m), "你的今日运势为\n§中凶§");
    let m = discode_fortune_state(&FortuneState::new(2, vec![5]), &data);
    assert_eq!(text_of(&m), "你的今日运势为\n§中吉§\n宜：t5 (g5)");
}

#[test]
fn fortune_weights() {
    let ws: Vec<u32> = (0..7).map(fortune_weight).collect();
    assert_eq!(ws, vec![0, 1, 2, 3, 2, 1, 0]);
}

#[test]
fn small_dictionary_gives_every_entry() {
    let s = qqbot::produce::get_fortune_state(None, 1);
    assert_eq!(s.index, vec![0]);
    let s = qqbot::produce::get_fortune_state(None, 0);
    assert!(s.index.is_empty());
}

#[test]
fn report_steps() {
    let mut st = daily_report_start();
    assert_eq!(st.text, "以下为今天的水群榜：");
    match report_next(&st, &"12".to_string()) {
        ReportStep::Lookup(id) => assert_eq!(id, 12),
        _ => panic!("expected a lookup"),
    }
    st = report_record(st, Some("Alice".to_string()), 42);
    st = report_record(st, None, 40);
    st = report_record(st, Some("Bob".to_string()), 7);
    assert_eq!(st.text, "以下为今天的水群榜：\n1.Alice: 42\n2.Bob: 7");
    assert_eq!(st.shown, 2);
    assert!(matches!(report_next(&st, &"abc".to_string()), ReportStep::Invalid));
    for _ in 0..28 {
        st = report_record(st, Some("x".to_string()), 1);
    }
    assert_eq!(st.shown, 30);
    assert!(matches!(report_next(&st, &"12".to_string()), ReportStep::Done));
    let full_text = st.text.clone();
    st = report_record(st, Some("late".to_string()), 1);
    assert_eq!(st.shown, 30);
    assert_eq!(st.text, full_text);
    assert_eq!(total_report_start().text, "以下为水群总榜：");
}

#[test]
fn total_report_adds_the_day() {
    let total = table(&[("1", 10), ("2", 20)]);
    let daily = table(&[("1", 15), ("3", 1)]);
    let r = total_report_entries(total, &daily);
    assert_eq!(
        r,
        vec![("1".to_string(), 25), ("2".to_string(), 20), ("3".to_string(), 1)]
    );
}

#[test]
fn pet_list_lines() {
    let entries = vec![
        PetEntry { folder_name: "fonts".to_string(), aliases: Some(vec!["f".to_string()]) },
        PetEntry { folder_name: "pat".to_string(), aliases: Some(vec!["摸".to_string(), "rua".to_string()]) },
        PetEntry { folder_name: "none".to_string(), aliases: None },
        PetEntry { folder_name: "hug".to_string(), aliases: Some(vec![]) },
    ];
    assert_eq!(get_pet_list(&entries), "以下为可用的petpet指令\npat  摸 rua\nhug ");
    assert!(pet_folder_skipped(&"fonts".to_string()));
    assert!(!pet_folder_skipped(&"font".to_string()));
}

#[test]
fn avatar_decisions() {
    assert!(!avatar_needs_download(true, Some(1000), 1000 + 86399));
    assert!(avatar_needs_download(true, Some(1000), 1000 + 86400));
    assert!(avatar_needs_download(true, None, 5));
    assert!(avatar_needs_download(false, Some(1000), 1000));
    assert_eq!(avatar_url(42), "http://q1.qlogo.cn/g?b=qq&nk=42&s=640");
    assert_eq!(avatar_path(42), "data/avatar/42.jpg");
    assert_eq!(avatar_stamp_path(42), "data/avatar/42.due");
}

#[test]
fn gateway_error_text() {
    let e = GocqhttpError::new("timeout".to_string());
    assert_eq!(e.describe(), "MyError: timeout");
}

#[test]
fn fortune_from_draw_keeps_the_first_entries() {
    let s = qqbot::produce::fortune_from_draw(1, vec![5, 3, 1, 0]);
    assert_eq!((s.level, s.index), (1, vec![5, 3]));
    let s = qqbot::produce::fortune_from_draw(3, vec![2, 1]);
    assert_eq!(s.index, vec![2, 1]);
    let s = qqbot::produce::fortune_from_draw(4, vec![9, 8, 7, 6, 5]);
    assert_eq!(s.index, vec![9, 8, 7, 6]);
    let s = qqbot::produce::fortune_from_draw(5, vec![9, 8, 7]);
    assert_eq!(s.index, vec![9, 8]);
}

#[test]
fn fresh_fortunes_are_well_formed() {
    for _ in 0..50 {
        let s = qqbot::produce::get_fortune_state(None, 10);
        assert!(s.level >= 1 && s.level <= 5);
        let n = if s.level == 1 || s.level == 5 { 2 } else { 4 };
        assert_eq!(s.index.len(), n);
        let mut idx = s.index.clone();
        idx.sort();
        idx.dedup();
        assert_eq!(idx.len(), n);
        assert!(s.index.iter().all(|i| *i < 10));
    }
}

#[test]
fn paired_user_keeps_partner_whatever_the_totals() {
    let total = table(&[("x", 500)]);
    let mut wives = table(&[("7", 9)]);
    assert_eq!(get_wife(&mut wives, &total, 7), 9);
    assert_eq!(wives.entries(), vec![("7".to_string(), 9)]);
}
