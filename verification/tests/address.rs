use lanquetta::address::{parse_address, parse_port, AddressState};
use lanquetta::channel::{self, ChannelState};
use lanquetta::connection::ConnectionState;
use lanquetta::error::{fmt_code, fmt_connect_err, fmt_err, fmt_grpc_err, GrpcCode};
use lanquetta::grpc::{Request, Response};
use lanquetta::json::JsonValue;

#[test]
fn addresses_are_host_and_port() {
    let address = parse_address("localhost:80").unwrap();
    assert_eq!(address.host, "localhost");
    assert_eq!(address.port, 80);
    assert!(parse_address("localhost").is_none());
    assert!(parse_address("localhost:").is_none());
    assert!(parse_address("localhost:65536").is_none());
    assert!(parse_address("a:b:80").is_none());
    assert_eq!(channel::parse_address("[::1]:+443"), None);
    assert_eq!(channel::parse_address("host:+443"), Some(("host".to_owned(), 443)));
    assert_eq!(channel::parse_address(":0"), Some((String::new(), 0)));
}

#[test]
fn ports_parse_like_u16() {
    for text in ["0", "80", "+80", "065535", "65535", "", "+", "-1", "65536", "8a", " 80"] {
        assert_eq!(parse_port(text), text.parse::<u16>().ok(), "{:?}", text);
    }
}

#[test]
fn address_and_channel_boxes_read_what_is_typed() {
    let mut address = AddressState::new();
    assert!(!address.is_valid());
    address.set_raw_address("example.com:443".to_owned());
    assert!(address.is_valid());
    assert_eq!(address.address.as_ref().unwrap().port, 443);

    let mut channel = ChannelState::new();
    assert!(!channel.is_valid());
    channel.set_raw_address("example.com:443".to_owned());
    assert_eq!(channel.address, Some(("example.com".to_owned(), 443)));
    channel.set_raw_address("example.com".to_owned());
    assert!(!channel.is_valid());
}

#[test]
fn connections_start_uninitialized() {
    let mut state = ConnectionState::new();
    assert!(matches!(state, ConnectionState::Uninit));
    assert!(matches!(ConnectionState::default(), ConnectionState::Uninit));
    state.connect(parse_address("localhost:80").unwrap(), true);
    match state {
        ConnectionState::Connected(c) => {
            assert_eq!(c.address.host, "localhost");
            assert!(c.tls);
        }
        ConnectionState::Uninit => panic!("expected a connection"),
    }
}

#[test]
fn requests_and_responses_carry_their_message() {
    let mut request = Request { body: JsonValue::Bool(true) };
    assert!(matches!(request.body(), JsonValue::Bool(true)));
    *request.body_mut() = JsonValue::Null;
    assert!(matches!(request.body, JsonValue::Null));
    let response = Response::new(JsonValue::Number(3));
    assert!(matches!(response.body, JsonValue::Number(3)));
}

#[test]
fn error_chains_are_joined() {
    let causes = vec!["failed to connect".to_owned(), "connection refused".to_owned()];
    assert_eq!(fmt_err(&causes), "failed to connect: connection refused");
    let repeated = vec![
        "transport error: connection refused".to_owned(),
        "connection refused".to_owned(),
        "never shown".to_owned(),
    ];
    assert_eq!(fmt_err(&repeated), "transport error: connection refused");
    assert_eq!(fmt_err(&vec![]), "");
    assert_eq!(fmt_err(&vec!["".to_owned(), "x".to_owned()]), "");
}

#[test]
fn call_errors_name_their_status() {
    assert_eq!(fmt_code(GrpcCode::Success), "OK");
    assert_eq!(fmt_code(GrpcCode::Unauthenticated), "UNAUTHENTICATED");
    let causes = vec!["outer".to_owned()];
    assert_eq!(
        fmt_grpc_err(&Some((GrpcCode::NotFound, "no such user".to_owned())), &None, &causes),
        "NOT_FOUND: no such user"
    );
    assert_eq!(fmt_grpc_err(&Some((GrpcCode::Internal, String::new())), &None, &causes), "INTERNAL");
    assert_eq!(
        fmt_grpc_err(&None, &Some("connection refused".to_owned()), &causes),
        "failed to connect: connection refused"
    );
    assert_eq!(fmt_connect_err(&None, &causes), "outer");
}

#[test]
fn empty_proxy_means_direct_connections() {
    assert_eq!(lanquetta::uri::validate_proxy("", true), Ok(lanquetta::uri::Proxy::Direct));
}

#[test]
fn proxy_with_a_scheme_is_kept() {
    assert_eq!(
        lanquetta::uri::validate_proxy("http://proxy.local:3128", false),
        Ok(lanquetta::uri::Proxy::Custom { uri: "http://proxy.local:3128".to_owned(), verify_certs: false })
    );
}

#[test]
fn proxy_without_a_scheme_is_refused() {
    assert_eq!(lanquetta::uri::validate_proxy("/just/a/path", true), Err("URI must have scheme".to_owned()));
    assert!(lanquetta::uri::validate_proxy("http://[::1", true).is_err());
}
