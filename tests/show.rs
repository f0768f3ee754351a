use clipd::clipd_fs::{Container, Item};
use clipd::util::{preview, truncate_utf8};

fn item(id: &str, keys: &[&str]) -> Item {
    Item {
        uuid: id.to_string(),
        custom_keys: keys.iter().map(|k| k.to_string()).collect(),
    }
}

fn three_items() -> Container {
    let mut c = Container::new("default".to_string());
    c.add_item(item("aaaaaaaa-1111", &[]));
    c.add_item(item("bbbbbbbb-2222", &["k"]));
    c.add_item(item("cccccccc-3333", &[]));
    c
}

#[test]
fn truncation_keeps_whole_characters() {
    assert_eq!(truncate_utf8("abc", 5), "abc");
    assert_eq!(truncate_utf8("abc", 3), "abc");
    assert_eq!(truncate_utf8("abcdef", 3), "abc");
    assert_eq!(truncate_utf8("héllo", 2), "h");
    assert_eq!(truncate_utf8("héllo", 3), "hé");
    assert_eq!(truncate_utf8("日本語", 4), "日");
    assert_eq!(truncate_utf8("日本語", 6), "日本");
    assert_eq!(truncate_utf8("😀x", 3), "");
    assert_eq!(truncate_utf8("", 0), "");
}

#[test]
fn long_value_preview_has_ellipsis() {
    let long = "x".repeat(40);
    let p = preview(&long, 32);
    assert!(p.ends_with("..."));
    assert!(p.len() <= 32 + 3);
    assert_eq!(p, format!("{}...", "x".repeat(32)));
    assert_eq!(preview("short", 32), "short");
    assert_eq!(preview(&"y".repeat(32), 32), "y".repeat(32));
    assert_eq!(preview(&"é".repeat(20), 32), format!("{}...", "é".repeat(16)));
}

#[test]
fn show_one_of_a_long_value() {
    let mut c = Container::new("default".to_string());
    c.add_item(item("0123456789abcdef", &[]));
    let ids = c.shown_ids(1);
    assert_eq!(ids, vec!["0123456789abcdef".to_string()]);
    let values = vec!["x".repeat(40)];
    let rows = c.rows(1, &values);
    assert_eq!(rows.len(), 1);
    assert_eq!(rows[0][0], "01234567");
    assert_eq!(rows[0][1], "[]");
    assert_eq!(rows[0][2], format!("{}...", "x".repeat(32)));
    let table = c.show(1, &values);
    assert!(table.contains(&format!("{}...", "x".repeat(32))));
    assert!(!table.contains(&"x".repeat(33)));
    assert!(table.contains("01234567"));
    assert!(!table.contains("0123456789"));
}

#[test]
fn show_caps_rows_at_n() {
    let c = three_items();
    assert_eq!(c.shown_ids(2), vec!["cccccccc-3333".to_string(), "bbbbbbbb-2222".to_string()]);
    let values = vec!["three".to_string(), "two".to_string()];
    let rows = c.rows(2, &values);
    assert_eq!(rows.len(), 2);
    assert_eq!(rows[0], vec!["cccccccc".to_string(), "[]".to_string(), "three".to_string()]);
    assert_eq!(rows[1], vec!["bbbbbbbb".to_string(), "[\"k\"]".to_string(), "two".to_string()]);
    let table = c.show(2, &values);
    assert!(table.contains("Custom Keys"));
    assert!(table.contains("three"));
    assert!(!table.contains("aaaaaaaa"));
}

#[test]
fn show_all_when_fewer_than_n() {
    let c = three_items();
    let ids = c.shown_ids(10);
    assert_eq!(ids.len(), 3);
    let values = vec!["3".to_string(), "2".to_string(), "1".to_string()];
    let rows = c.rows(10, &values);
    assert_eq!(rows.len(), 3);
    assert_eq!(rows[2][0], "aaaaaaaa");
    assert_eq!(c.shown_ids(0).len(), 0);
}
