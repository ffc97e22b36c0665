use lanquetta::metadata::{validate_entry, EditableEntry, EditableState, ParsedEntry};

fn row(key: &str, value: &str) -> EditableEntry {
    EditableEntry { key: key.to_owned(), value: value.to_owned(), deleted: false }
}

#[test]
fn ascii_entry_keeps_its_text() {
    assert_eq!(
        validate_entry(&row("x-token", "abc def")),
        Ok(ParsedEntry::Ascii { key: "x-token".to_owned(), value: "abc def".to_owned() })
    );
}

#[test]
fn keys_are_normalized_to_lower_case() {
    assert_eq!(
        validate_entry(&row("X-Token", "v")),
        Ok(ParsedEntry::Ascii { key: "x-token".to_owned(), value: "v".to_owned() })
    );
}

#[test]
fn binary_entry_decodes_base64_with_or_without_padding() {
    let expected = Ok(ParsedEntry::Binary { key: "data-bin".to_owned(), value: b"hello".to_vec() });
    assert_eq!(validate_entry(&row("data-bin", "aGVsbG8=")), expected);
    assert_eq!(validate_entry(&row("data-bin", "aGVsbG8")), expected);
    assert_eq!(
        validate_entry(&row("data-bin", "")),
        Ok(ParsedEntry::Binary { key: "data-bin".to_owned(), value: Vec::new() })
    );
}

#[test]
fn binary_entry_that_is_not_base64_is_refused() {
    assert_eq!(validate_entry(&row("data-bin", "!!!")), Err("invalid base64".to_owned()));
}

#[test]
fn invalid_key_is_refused() {
    assert_eq!(validate_entry(&row("bad key", "v")), Err("invalid gRPC metadata key name".to_owned()));
    assert_eq!(validate_entry(&row("", "v")), Err("invalid gRPC metadata key name".to_owned()));
}

#[test]
fn control_characters_in_an_ascii_value_are_refused() {
    assert_eq!(validate_entry(&row("x-a", "a\u{7f}")), Err("failed to parse metadata value".to_owned()));
    assert_eq!(validate_entry(&row("x-a", "a\nb")), Err("failed to parse metadata value".to_owned()));
    assert!(validate_entry(&row("x-a", "tab\there")).is_ok());
    assert!(validate_entry(&row("x-a", "h\u{e9}llo")).is_ok());
}

#[test]
fn metadata_keeps_the_valid_rows_in_order() {
    let state = EditableState {
        entries: vec![row("x-b", "1"), row("bad key", "2"), row("y-bin", "AQI="), row("x-a", "3")],
    };
    assert_eq!(
        state.metadata(),
        vec![
            ParsedEntry::Ascii { key: "x-b".to_owned(), value: "1".to_owned() },
            ParsedEntry::Binary { key: "y-bin".to_owned(), value: vec![1, 2] },
            ParsedEntry::Ascii { key: "x-a".to_owned(), value: "3".to_owned() },
        ]
    );
}

#[test]
fn deleted_rows_are_dropped() {
    let mut state = EditableState {
        entries: vec![
            row("a", "1"),
            EditableEntry { key: "b".to_owned(), value: "2".to_owned(), deleted: true },
            row("c", "3"),
        ],
    };
    state.remove_deleted();
    let keys: Vec<&str> = state.entries.iter().map(|e| e.key.as_str()).collect();
    assert_eq!(keys, vec!["a", "c"]);
}

#[test]
fn binary_keys_are_normalized_too() {
    assert_eq!(
        validate_entry(&row("Trace-BIN", "AA==")),
        Ok(ParsedEntry::Binary { key: "trace-bin".to_owned(), value: vec![0] })
    );
}
