use lanquetta::address_bar::BarCommand;
use lanquetta::method_kind::MethodKind;
use lanquetta::request::{RequestState, ServiceOptions};
use lanquetta::tab::{MethodRef, MethodTabState, ServiceRef};

fn tab(kind: MethodKind, state: RequestState) -> MethodTabState {
    let service = ServiceRef { pool: 0, full_name: "p.S".to_owned(), name: "S".to_owned() };
    let method = MethodRef { service, index: 0, name: "M".to_owned(), kind };
    let options = ServiceOptions { default_address: Some("http://h:1".to_owned()), verify_certs: true };
    let mut t = MethodTabState::empty(method, options, "{}".to_owned(), true);
    t.address.set_request_state(state);
    t
}

#[test]
fn send_button_follows_the_request_state() {
    let t = tab(MethodKind::Unary, RequestState::NotStarted);
    assert_eq!(t.send_label(), "Connect");
    assert!(t.send_enabled());
    assert_eq!(t.send_command(), BarCommand::Connect);
    let t = tab(MethodKind::Unary, RequestState::ConnectInProgress);
    assert_eq!(t.send_label(), "Connecting...");
    assert!(!t.send_enabled());
    let t = tab(MethodKind::Unary, RequestState::Connected);
    assert_eq!(t.send_label(), "Send");
    assert_eq!(t.send_command(), BarCommand::Send);
    let t = tab(MethodKind::Unary, RequestState::SendInProgress);
    assert_eq!(t.send_label(), "Sending...");
    assert!(!t.send_enabled());
    let t = tab(MethodKind::Streaming, RequestState::SendInProgress);
    assert_eq!(t.send_label(), "Send");
    assert_eq!(t.send_command(), BarCommand::Send);
    let t = tab(MethodKind::Unary, RequestState::AuthorizationHookInProgress);
    assert_eq!(t.send_label(), "Authorizing...");
    let t = tab(MethodKind::Unary, RequestState::ConnectFailed("x".to_owned()));
    assert_eq!(t.send_command(), BarCommand::Connect);
}

#[test]
fn finish_button_follows_the_request_state() {
    let t = tab(MethodKind::ClientStreaming, RequestState::SendInProgress);
    assert_eq!(t.finish_label(), "Finish");
    assert_eq!(t.finish_command(), BarCommand::Finish);
    let t = tab(MethodKind::Unary, RequestState::SendInProgress);
    assert_eq!(t.finish_label(), "Disconnect");
    assert_eq!(t.finish_command(), BarCommand::Disconnect);
    let t = tab(MethodKind::Unary, RequestState::NotStarted);
    assert!(!t.finish_enabled());
    let t = tab(MethodKind::Unary, RequestState::Connected);
    assert!(t.finish_enabled());
    assert_eq!(t.finish_command(), BarCommand::Disconnect);
}
