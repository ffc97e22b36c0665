use lanquetta::grpc::{plan_call, Call, CallPlan};
use lanquetta::method_kind::MethodKind;
use lanquetta::request::{AddressState, RequestState, ServiceOptions, StateIcon};
use lanquetta::uri::validate_uri;

#[test]
fn method_kinds_stream_as_named() {
    assert!(!MethodKind::Unary.server_streaming());
    assert!(!MethodKind::Unary.client_streaming());
    assert!(MethodKind::ClientStreaming.client_streaming());
    assert!(!MethodKind::ClientStreaming.server_streaming());
    assert!(MethodKind::ServerStreaming.server_streaming());
    assert!(MethodKind::Streaming.client_streaming() && MethodKind::Streaming.server_streaming());
    assert_eq!(MethodKind::from_streaming(true, false), MethodKind::ClientStreaming);
}

#[test]
fn uris_need_a_scheme() {
    assert_eq!(validate_uri("http://localhost:80"), Ok(()));
    assert_eq!(validate_uri("localhost:80"), Err("URI must have scheme".to_owned()));
    assert!(validate_uri("http://[::1").is_err());
}

#[test]
fn address_box_validates_its_text() {
    let mut address = AddressState::new("localhost:80".to_owned());
    assert!(!address.is_valid());
    assert_eq!(address.display_error(), Some("URI must have scheme".to_owned()));
    address.set_uri("http://localhost:80".to_owned());
    assert!(address.is_valid());
    assert_eq!(address.display_error(), None);
    address.set_request_state(RequestState::ConnectFailed("refused".to_owned()));
    assert_eq!(address.display_error(), Some("refused".to_owned()));
    assert_eq!(address.state_icon(), StateIcon::Failed);
    address.set_request_state(RequestState::Connected);
    assert_eq!(address.state_icon(), StateIcon::Succeeded);
    address.set_request_state(RequestState::SendInProgress);
    assert_eq!(address.state_icon(), StateIcon::InProgress);
}

#[test]
fn address_box_starts_from_the_service_default() {
    let with = AddressState::with_options(&ServiceOptions {
        default_address: Some("https://example.com".to_owned()),
        verify_certs: false,
    });
    assert_eq!(with.text(), "https://example.com");
    assert_eq!(with.request_state(), &RequestState::NotStarted);
    let without = AddressState::with_options(&ServiceOptions { default_address: None, verify_certs: true });
    assert_eq!(without.text(), "");
}

#[test]
fn calls_are_planned_by_method_kind() {
    assert_eq!(plan_call(MethodKind::Unary), CallPlan { request_channel: false, response_stream: false });
    assert_eq!(plan_call(MethodKind::ClientStreaming), CallPlan { request_channel: true, response_stream: false });
    assert_eq!(plan_call(MethodKind::ServerStreaming), CallPlan { request_channel: false, response_stream: true });
    assert_eq!(plan_call(MethodKind::Streaming), CallPlan { request_channel: true, response_stream: true });
    let mut call: Call<u8> = Call::new(Some(4));
    assert_eq!(*call.prepare_send(), 4);
    let later = std::time::Instant::now() + std::time::Duration::from_millis(5);
    assert!(call.duration(&later).is_some());
    assert!(call.duration(&later).is_none());
}

#[test]
fn a_call_keeps_its_request_channel_as_its_plan_says() {
    let mut streaming: Call<u8> = Call::from_plan(plan_call(MethodKind::ClientStreaming), 9);
    assert_eq!(*streaming.prepare_send(), 9);
    let unary: Call<u8> = Call::from_plan(plan_call(MethodKind::Unary), 9);
    assert!(!unary.has_sender());
}
