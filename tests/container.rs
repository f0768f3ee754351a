use clipd::clipd_fs::{self, config_path, path, Container, Item};
use clipd::container::{create, ContainerType, Error};

fn item(id: &str, keys: &[&str]) -> Item {
    Item {
        uuid: id.to_string(),
        custom_keys: keys.iter().map(|k| k.to_string()).collect(),
    }
}

fn key(k: &str) -> Option<String> {
    Some(k.to_string())
}

#[test]
fn fresh_container_is_empty() {
    let c = Container::new("default".to_string());
    assert_eq!(c.name, "default");
    assert_eq!(c.count, 0);
    assert!(c.ordered_items.is_empty());
    assert_eq!(c.resolve(None), Err(Error::IndexOutOfRange));
    assert_eq!(c.resolve(key("0")), Err(Error::IndexOutOfRange));
}

#[test]
fn add_then_get_zero_gives_it() {
    let mut c = Container::new("default".to_string());
    c.add_item(item("id-hello", &[]));
    assert_eq!(c.resolve(key("0")), Ok("id-hello".to_string()));
    assert_eq!(c.resolve(None), Ok("id-hello".to_string()));
    assert_eq!(c.count, 1);
}

#[test]
fn alias_and_positions() {
    let mut c = Container::new("default".to_string());
    c.add_item(item("id-hi", &["greet"]));
    c.add_item(item("id-bye", &[]));
    assert_eq!(c.resolve(key("greet")), Ok("id-hi".to_string()));
    assert_eq!(c.resolve(key("0")), Ok("id-bye".to_string()));
    assert_eq!(c.resolve(key("1")), Ok("id-hi".to_string()));
    assert_eq!(c.count, 2);
}

#[test]
fn index_past_the_end_is_absent() {
    let mut c = Container::new("default".to_string());
    c.add_item(item("a", &[]));
    c.add_item(item("b", &[]));
    assert_eq!(c.resolve(key("5")), Err(Error::IndexOutOfRange));
    assert_eq!(c.resolve(key("2")), Err(Error::IndexOutOfRange));
}

#[test]
fn unknown_alias_is_absent() {
    let mut c = Container::new("default".to_string());
    c.add_item(item("a", &["x"]));
    assert_eq!(c.resolve(key("nope")), Err(Error::UnknownKey));
    assert!(!Error::UnknownKey.is_fatal());
    assert!(!Error::IndexOutOfRange.is_fatal());
    assert!(Error::BlobIOFailure.is_fatal());
    assert!(Error::ManifestCorrupted.is_fatal());
}

#[test]
fn reverse_chronological_positions() {
    let mut c = Container::new("default".to_string());
    let ids = ["v0", "v1", "v2", "v3"];
    for id in ids.iter() {
        c.add_item(item(id, &[]));
    }
    for i in 0..ids.len() {
        assert_eq!(
            c.resolve(Some(i.to_string())),
            Ok(ids[ids.len() - 1 - i].to_string())
        );
    }
}

#[test]
fn random_ids_from_add() {
    let mut c = Container::new("default".to_string());
    let first = c.add(key("X"));
    assert_eq!(first.len(), 36);
    assert_eq!(c.resolve(key("X")), Ok(first.clone()));
    assert_eq!(c.resolve(key("X")), c.resolve(None));
    let second = c.add(None);
    assert_eq!(c.resolve(None), Ok(second.clone()));
    assert_eq!(c.resolve(key("1")), Ok(first));
    assert_eq!(c.ordered_items[1].custom_keys, vec!["X".to_string()]);
    assert!(c.ordered_items[0].custom_keys.is_empty());
}

#[test]
fn alias_overwrite_keeps_old_item_keys() {
    let mut c = Container::new("default".to_string());
    c.add_item(item("first", &["a"]));
    c.add_item(item("second", &["a"]));
    assert_eq!(c.resolve(key("a")), Ok("second".to_string()));
    assert_eq!(c.custom_keys.len(), 1);
    // the earlier item still lists the alias it was added under
    assert_eq!(c.ordered_items[1].custom_keys, vec!["a".to_string()]);
}

#[test]
fn numeric_alias_reads_as_position() {
    let mut c = Container::new("default".to_string());
    c.add_item(item("first", &["7"]));
    assert_eq!(c.resolve(key("7")), Err(Error::IndexOutOfRange));
    assert_eq!(c.lookup_alias(&"7".to_string()), Some("first".to_string()));
}

#[test]
fn index_keys_parse_like_usize() {
    assert_eq!(clipd_fs::parse_index("0"), Some(0));
    assert_eq!(clipd_fs::parse_index("007"), Some(7));
    assert_eq!(clipd_fs::parse_index("+5"), Some(5));
    assert_eq!(clipd_fs::parse_index("18446744073709551615"), Some(usize::MAX));
    assert_eq!(clipd_fs::parse_index("18446744073709551616"), None);
    assert_eq!(clipd_fs::parse_index(""), None);
    assert_eq!(clipd_fs::parse_index("+"), None);
    assert_eq!(clipd_fs::parse_index("-1"), None);
    assert_eq!(clipd_fs::parse_index("12a"), None);
    assert_eq!(clipd_fs::parse_index("greet"), None);
}

#[test]
fn open_after_clear_is_fresh() {
    let c = clipd_fs::open("default".to_string(), None);
    assert_eq!(c.count, 0);
    assert!(c.ordered_items.is_empty());
    assert_eq!(c.name, "default");
    let mut stored = Container::new("work".to_string());
    stored.add_item(item("a", &["k"]));
    let c = create(ContainerType::ClipdFs, "work".to_string(), Some(stored));
    assert_eq!(c.count, 1);
    assert_eq!(c.resolve(key("k")), Ok("a".to_string()));
}

#[test]
fn paths_under_root() {
    assert_eq!(path("/home/u/.clipd", "default"), "/home/u/.clipd/default");
    assert_eq!(
        config_path("/home/u/.clipd", "default"),
        "/home/u/.clipd/default/config.toml"
    );
    let c = Container::new("work".to_string());
    assert_eq!(c.path("/r"), "/r/work");
    assert_eq!(c.config_path("/r"), "/r/work/config.toml");
    assert_eq!(c.blob_path("/r", "abc"), "/r/work/abc");
}
