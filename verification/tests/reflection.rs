use lanquetta::error::GrpcCode;
use lanquetta::reflection::{file_descriptors, service_list, ReflectionError, ReflectionReply};
use lanquetta::request::{RequestState, ServiceOptions};
use lanquetta::tab::ReflectionTabState;

#[test]
fn a_service_list_reply_gives_the_names() {
    let names = vec!["grpc.health.v1.Health".to_owned(), "pkg.Greeter".to_owned()];
    assert_eq!(service_list(Some(ReflectionReply::ListServices(names.clone()))), Ok(names));
}

#[test]
fn other_replies_are_errors() {
    assert_eq!(service_list(None), Err(ReflectionError::EndOfStream));
    assert_eq!(service_list(Some(ReflectionReply::Other)), Err(ReflectionError::UnexpectedResponse));
    assert_eq!(
        service_list(Some(ReflectionReply::FileDescriptors(vec![]))),
        Err(ReflectionError::UnexpectedResponse)
    );
    assert_eq!(
        file_descriptors(Some(ReflectionReply::Error { code: 5, message: "no such symbol".to_owned() })),
        Err(ReflectionError::Status(GrpcCode::NotFound, "no such symbol".to_owned()))
    );
    assert_eq!(
        file_descriptors(Some(ReflectionReply::Error { code: 99, message: String::new() })),
        Err(ReflectionError::Status(GrpcCode::Unknown, String::new()))
    );
    assert_eq!(file_descriptors(Some(ReflectionReply::FileDescriptors(vec![vec![1, 2]]))), Ok(vec![vec![1, 2]]));
}

#[test]
fn reflection_errors_have_texts() {
    assert_eq!(ReflectionError::EndOfStream.text(), "unexpected end of response stream");
    assert_eq!(ReflectionError::UnexpectedResponse.text(), "unexpected response type");
    assert_eq!(ReflectionError::Status(GrpcCode::NotFound, "gone".to_owned()).text(), "NOT_FOUND: gone");
    assert_eq!(ReflectionError::Status(GrpcCode::Internal, String::new()).text(), "INTERNAL");
    assert_eq!(
        ReflectionError::ServiceNotFound("pkg.X".to_owned()).text(),
        "service 'pkg.X' not found in file descriptor from server"
    );
}

#[test]
fn listing_services_fills_the_tab() {
    let mut tab = ReflectionTabState::new(ServiceOptions { default_address: Some("http://h:1".to_owned()), verify_certs: true });
    assert!(tab.start_list_services());
    assert_eq!(*tab.address.request_state(), RequestState::ConnectInProgress);
    tab.finish_list_services(Ok(vec!["a.B".to_owned()]));
    assert_eq!(*tab.address.request_state(), RequestState::Connected);
    assert_eq!(tab.services, Some(vec!["a.B".to_owned()]));
    tab.import_failed("UNAVAILABLE".to_owned());
    assert_eq!(*tab.address.request_state(), RequestState::ConnectFailed("UNAVAILABLE".to_owned()));
    tab.finish_list_services(Err("refused".to_owned()));
    assert_eq!(tab.services, Some(vec!["a.B".to_owned()]));
}

#[test]
fn listing_without_an_address_does_not_connect() {
    let mut tab = ReflectionTabState::new(ServiceOptions { default_address: None, verify_certs: true });
    assert!(!tab.start_list_services());
}
