use lanquetta::stream::{ItemKind, StreamState};

#[test]
fn requests_and_responses_are_numbered_apart() {
    let mut s = StreamState::new();
    s.add_request("{\"a\":1}".to_owned());
    s.add_response("{\"b\":2}".to_owned(), "12.5 ms".to_owned());
    s.add_request("{\"a\":3}".to_owned());
    let labels: Vec<&str> = s.items().iter().map(|i| i.label.as_str()).collect();
    assert_eq!(labels, vec!["Request 1", "Response 1", "Request 2"]);
    assert_eq!(s.items()[1].kind, ItemKind::Response);
    assert_eq!(s.items()[1].duration, "12.5 ms");
    assert_eq!(s.items()[0].duration, "");
    assert_eq!(s.items()[2].body, "{\"a\":3}");
    assert_eq!(s.request_count(), 2);
    assert_eq!(s.response_count(), 1);
}

#[test]
fn only_the_newest_entry_is_expanded() {
    let mut s = StreamState::new();
    for n in 0..12 {
        if n % 3 == 0 {
            s.add_response(format!("{}", n), String::new());
        } else {
            s.add_request(format!("{}", n));
        }
        let expanded: Vec<bool> = s.items().iter().map(|i| i.expanded).collect();
        assert_eq!(expanded.iter().filter(|e| **e).count(), 1);
        assert!(*expanded.last().unwrap());
    }
    assert_eq!(s.items()[11].label, "Request 8");
    assert_eq!(s.items()[9].label, "Response 4");
}

#[test]
fn clearing_restarts_the_numbering() {
    let mut s = StreamState::new();
    s.add_request("x".to_owned());
    s.add_response("y".to_owned(), "1 s".to_owned());
    s.clear();
    assert!(s.items().is_empty());
    s.add_response("z".to_owned(), String::new());
    assert_eq!(s.items()[0].label, "Response 1");
    assert_eq!(s.request_count(), 0);
}

#[test]
fn duplicate_keeps_the_history() {
    let mut s = StreamState::new();
    s.add_request("x".to_owned());
    let d = s.duplicate();
    assert_eq!(d.items().len(), 1);
    assert_eq!(d.items()[0].label, "Request 1");
    assert_eq!(d.request_count(), 1);
}
