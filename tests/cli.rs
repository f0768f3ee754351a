use clipd::cli::{command, value_source, Command, ValueSource};

#[test]
fn missing_command_means_paste() {
    assert!(matches!(command(None), Command::Paste));
    assert!(matches!(command(Some(Command::Show { n: 3 })), Command::Show { n: 3 }));
    assert!(matches!(command(Some(Command::Clear)), Command::Clear));
}

#[test]
fn copy_value_sources() {
    match value_source(Some("v".to_string()), true) {
        ValueSource::Given(v) => assert_eq!(v, "v"),
        _ => panic!("expected the given value"),
    }
    assert!(matches!(value_source(None, true), ValueSource::Clipboard));
    assert!(matches!(value_source(None, false), ValueSource::Stdin));
}
