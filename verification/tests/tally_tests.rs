use qqbot::tally::{add_cnt, transfer_daily_to_total, wife_candidates, CountMap};

fn table(entries: &[(&str, i64)]) -> CountMap {
    let mut t = CountMap::new();
    for (k, v) in entries {
        t.insert(k.to_string(), *v);
    }
    t
}

#[test]
fn add_cnt_counts_one_message() {
    let mut t = CountMap::new();
    add_cnt(&mut t, 42);
    add_cnt(&mut t, 42);
    add_cnt(&mut t, 7);
    assert_eq!(t.get(&"42".to_string()), Some(2));
    assert_eq!(t.get(&"7".to_string()), Some(1));
    assert_eq!(t.get(&"8".to_string()), None);
}

#[test]
fn insert_overwrites_and_entries_keep_order() {
    let mut t = table(&[("1", 5), ("2", 6)]);
    t.insert("1".to_string(), 9);
    t.insert("3".to_string(), 1);
    assert_eq!(
        t.entries(),
        vec![("1".to_string(), 9), ("2".to_string(), 6), ("3".to_string(), 1)]
    );
    assert!(t.contains_value(6));
    assert!(!t.contains_value(5));
    t.clear();
    assert!(t.entries().is_empty());
}

#[test]
fn transfer_adds_daily_counts_and_empties_the_day() {
    let mut total = table(&[("1", 100), ("2", 5)]);
    let mut daily = table(&[("2", 3), ("3", 4)]);
    transfer_daily_to_total(&mut daily, &mut total);
    assert!(daily.entries().is_empty());
    assert_eq!(total.get(&"1".to_string()), Some(100));
    assert_eq!(total.get(&"2".to_string()), Some(8));
    assert_eq!(total.get(&"3".to_string()), Some(4));
    let sum: i64 = total.entries().iter().map(|e| e.1).sum();
    assert_eq!(sum, 100 + 5 + 3 + 4);
}

#[test]
fn ranking_goes_from_most_to_least() {
    let t = table(&[("a", 3), ("b", 10), ("c", 7), ("d", 10)]);
    let r = t.ranking();
    let counts: Vec<i64> = r.iter().map(|e| e.1).collect();
    assert_eq!(counts, vec![10, 10, 7, 3]);
    assert_eq!(r[2].0, "c");
    assert_eq!(r[3].0, "a");
    assert!(CountMap::new().ranking().is_empty());
}

#[test]
fn wife_candidates_are_active_unpaired_others() {
    let total = table(&[("1", 500), ("2", 201), ("3", 200), ("4", 999), ("5", 300)]);
    let wives = table(&[("9", 4)]);
    let mut c = wife_candidates(&total, &wives, 1);
    c.sort();
    assert_eq!(c, vec![2, 5]);
}

#[test]
fn counting_order_does_not_matter() {
    let mut a = table(&[("1", 4)]);
    for u in [1, 2, 1, 3, 2, 1] {
        add_cnt(&mut a, u);
    }
    let mut b = table(&[("1", 4)]);
    for u in [3, 2, 2, 1, 1, 1] {
        add_cnt(&mut b, u);
    }
    for k in ["1", "2", "3", "4"] {
        assert_eq!(a.get(&k.to_string()), b.get(&k.to_string()));
    }
    assert_eq!(a.get(&"1".to_string()), Some(7));
    assert_eq!(a.get(&"2".to_string()), Some(2));
    assert_eq!(a.get(&"3".to_string()), Some(1));
    assert_eq!(a.get(&"4".to_string()), None);
}
