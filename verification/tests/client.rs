use lanquetta::client::{same_uri, ClientAction, ClientState};

#[test]
fn a_new_state_connects() {
    let state: ClientState<u32, u8> = ClientState::new();
    assert_eq!(state.get_action("http://a:1"), ClientAction::Connect);
}

#[test]
fn pending_connection_is_joined_then_reused() {
    let mut state: ClientState<u32, u8> = ClientState::new();
    state.start_connect("http://a:1".to_owned(), 7);
    assert_eq!(state.get_action("http://a:1"), ClientAction::AwaitPending);
    assert_eq!(state.get_action("http://b:1"), ClientAction::Connect);
    state.set::<()>("http://b:1", Ok(3));
    assert_eq!(state.get_action("http://a:1"), ClientAction::AwaitPending);
    state.set::<()>("http://a:1", Ok(5));
    assert_eq!(state.get_action("http://a:1"), ClientAction::UseClient);
    assert!(matches!(state, ClientState::Connected { client: 5, .. }));
    assert_eq!(state.get_action("http://b:1"), ClientAction::Connect);
}

#[test]
fn failed_connection_is_remembered() {
    let mut state: ClientState<u32, u8> = ClientState::new();
    state.start_connect("http://a:1".to_owned(), 7);
    state.set("http://a:1", Err("refused"));
    assert!(matches!(state, ClientState::ConnectFailed));
    assert_eq!(state.get_action("http://a:1"), ClientAction::Connect);
    state.reset();
    assert!(matches!(state, ClientState::NotConnected));
}

#[test]
fn addresses_compare_as_uris_or_as_texts() {
    assert!(same_uri("http://a:1/", "http://a:1/"));
    assert!(!same_uri("http://a:1", "http://b:1"));
    assert!(same_uri("not a uri", "not a uri"));
    assert!(!same_uri("not a uri", "http://a:1"));
}
