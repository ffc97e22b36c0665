use lanquetta::error::GrpcCode;
use lanquetta::stream_item::{CallFailure, ItemState};

fn status_failure(message: &str, details: Option<&str>) -> CallFailure {
    CallFailure {
        status: Some((GrpcCode::NotFound, message.to_owned())),
        io_error: None,
        causes: vec![],
        details: details.map(|d| d.to_owned()),
    }
}

#[test]
fn requests_and_responses_show_their_json() {
    let request = ItemState::from_request("{\"a\": 1}".to_owned());
    assert!(matches!(&request, ItemState::Payload(p) if p == "{\"a\": 1}"));
    let response = ItemState::from_response(Ok("{}".to_owned()));
    assert!(matches!(&response, ItemState::Payload(p) if p == "{}"));
    assert!(request.can_copy());
    assert_eq!(response.clipboard_text(), Some("{}"));
}

#[test]
fn a_status_error_shows_its_code_message_and_details() {
    let item = ItemState::from_response(Err(status_failure("no such user", Some("{\"details\": []}"))));
    match &item {
        ItemState::Error(d) => {
            assert_eq!(d.message, "NOT_FOUND: no such user");
            assert_eq!(d.details.as_deref(), Some("{\"details\": []}"));
        }
        _ => panic!("expected an error entry"),
    }
    assert!(item.can_copy());
    assert_eq!(item.clipboard_text(), Some("{\"details\": []}"));
}

#[test]
fn an_error_without_details_copies_its_message() {
    let item = ItemState::from_response(Err(status_failure("", None)));
    assert_eq!(item.clipboard_text(), Some("NOT_FOUND"));
}

#[test]
fn a_connection_error_has_no_details() {
    let failure = CallFailure {
        status: None,
        io_error: None,
        causes: vec!["transport error".to_owned()],
        details: Some("{}".to_owned()),
    };
    match ItemState::from_response(Err(failure)) {
        ItemState::Error(d) => {
            assert_eq!(d.message, "transport error");
            assert_eq!(d.details, None);
        }
        _ => panic!("expected an error entry"),
    }
}

#[test]
fn metadata_entries_cannot_be_copied() {
    let item = ItemState::from_metadata(vec![("content-type".to_owned(), "application/grpc".to_owned())]);
    assert!(!item.can_copy());
    assert_eq!(item.clipboard_text(), None);
    assert!(matches!(&item, ItemState::Metadata(e) if e.len() == 1));
}
