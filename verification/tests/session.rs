use lanquetta::method_kind::MethodKind;
use lanquetta::request::{RequestState, ServiceOptions};
use lanquetta::session::{MethodSession, ResponseEvent, SendAction};
use lanquetta::stream::ItemKind;
use lanquetta::tab::{MethodRef, MethodTabState, ServiceRef};

fn tab(kind: MethodKind, address: Option<&str>) -> MethodTabState {
    let service = ServiceRef { pool: 0, full_name: "pkg.S".to_owned(), name: "S".to_owned() };
    let method = MethodRef { service, index: 0, name: "M".to_owned(), kind };
    let options = ServiceOptions { default_address: address.map(|a| a.to_owned()), verify_certs: true };
    MethodTabState::empty(method, options, "{}".to_owned(), true)
}

#[test]
fn connecting_needs_a_valid_address() {
    let mut s = MethodSession::new();
    let mut t = tab(MethodKind::Unary, None);
    assert!(!s.start_connect(&mut t));
    assert_eq!(*t.address.request_state(), RequestState::NotStarted);
    let mut t = tab(MethodKind::Unary, Some("http://localhost:1"));
    assert!(s.start_connect(&mut t));
    assert_eq!(*t.address.request_state(), RequestState::ConnectInProgress);
}

#[test]
fn a_failed_connection_is_shown() {
    let mut s = MethodSession::new();
    let mut t = tab(MethodKind::Unary, Some("http://localhost:1"));
    s.start_connect(&mut t);
    s.finish_connect(&mut t, Err("connection refused".to_owned()));
    assert_eq!(*t.address.request_state(), RequestState::ConnectFailed("connection refused".to_owned()));
    assert!(!s.connected);
}

#[test]
fn a_unary_call_runs_from_send_to_response() {
    let mut s = MethodSession::new();
    let mut t = tab(MethodKind::Unary, Some("http://localhost:1"));
    s.start_connect(&mut t);
    s.finish_connect(&mut t, Ok(()));
    assert_eq!(*t.address.request_state(), RequestState::Connected);
    assert!(!s.start_connect(&mut t));
    assert_eq!(s.start_send(&mut t, Some("{\"a\":1}".to_owned())), SendAction::StartCall);
    assert_eq!(*t.address.request_state(), RequestState::SendInProgress);
    assert!(s.finish_send());
    assert_eq!(s.start_send(&mut t, Some("{\"a\":2}".to_owned())), SendAction::Nothing);
    s.handle_response(&mut t, ResponseEvent::Response { body: "{}".to_owned(), duration: "3 ms".to_owned() });
    let labels: Vec<&str> = t.stream.items().iter().map(|i| i.label.as_str()).collect();
    assert_eq!(labels, vec!["Request 1", "Request 2", "Response 1"]);
    assert_eq!(t.stream.items()[2].kind, ItemKind::Response);
    assert_eq!(t.stream.items()[2].duration, "3 ms");
    s.handle_response(&mut t, ResponseEvent::Finished);
    assert_eq!(*t.address.request_state(), RequestState::SendInProgress);
    s.handle_response(&mut t, ResponseEvent::Error { text: "status: Cancelled".to_owned() });
    assert_eq!(*t.address.request_state(), RequestState::Connected);
    assert_eq!(t.stream.items()[3].body, "status: Cancelled");
    s.disconnect(&mut t);
    assert_eq!(*t.address.request_state(), RequestState::NotStarted);
}

#[test]
fn streaming_requests_go_on_the_open_call() {
    let mut s = MethodSession::new();
    let mut t = tab(MethodKind::ClientStreaming, Some("http://localhost:1"));
    assert_eq!(s.start_send(&mut t, Some("{}".to_owned())), SendAction::Nothing);
    assert_eq!(t.stream.items().len(), 1);
    s.finish_connect(&mut t, Ok(()));
    assert_eq!(s.start_send(&mut t, Some("{}".to_owned())), SendAction::StartCall);
    assert_eq!(s.start_send(&mut t, Some("{}".to_owned())), SendAction::SendOnCall);
    assert_eq!(s.start_send(&mut t, None), SendAction::Nothing);
    assert_eq!(t.stream.items().len(), 3);
}

fn options_tab(address: Option<&str>) -> lanquetta::tab::OptionsTabState {
    let service = ServiceRef { pool: 0, full_name: "pkg.S".to_owned(), name: "S".to_owned() };
    let options = ServiceOptions { default_address: address.map(|a| a.to_owned()), verify_certs: true };
    lanquetta::tab::OptionsTabState::new(service, options)
}

#[test]
fn options_tab_connects_to_a_valid_address() {
    let mut t = options_tab(Some("http://h:1"));
    assert!(t.start_connect());
    assert_eq!(*t.default_address.request_state(), RequestState::ConnectInProgress);
    t.finish_connect(Err("refused".to_owned()));
    assert_eq!(*t.default_address.request_state(), RequestState::ConnectFailed("refused".to_owned()));
    t.finish_connect(Ok(()));
    assert_eq!(*t.default_address.request_state(), RequestState::Connected);
    t.disconnect();
    assert_eq!(*t.default_address.request_state(), RequestState::NotStarted);
    let mut t = options_tab(Some("no scheme"));
    assert!(!t.start_connect());
    assert_eq!(*t.default_address.request_state(), RequestState::NotStarted);
}

#[test]
fn changed_options_are_noticed() {
    let a = options_tab(Some("http://h:1"));
    let mut b = options_tab(Some("http://h:1"));
    assert!(!lanquetta::session::options_changed(&a, &b));
    b.verify_certs = false;
    assert!(lanquetta::session::options_changed(&a, &b));
    let c = options_tab(Some("http://h:2"));
    assert!(lanquetta::session::options_changed(&a, &c));
    let d = options_tab(Some("bad"));
    let e = options_tab(None);
    assert!(!lanquetta::session::options_changed(&d, &e));
}
