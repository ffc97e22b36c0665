use lanquetta::compile::CompileOptions;
use lanquetta::body::{can_select_next_tab, can_select_prev_tab, has_selected_tab, State, Tab};
use lanquetta::method_kind::MethodKind;
use lanquetta::request::{RequestState, ServiceOptions};
use lanquetta::tab::{MethodRef, ServiceRef, TabState};

fn options() -> ServiceOptions {
    ServiceOptions { default_address: Some("http://localhost:80".to_owned()), verify_certs: true }
}

fn service(name: &str) -> ServiceRef {
    ServiceRef { pool: 1, full_name: format!("pkg.{}", name), name: name.to_owned() }
}

fn method(service_name: &str, name: &str, kind: MethodKind) -> MethodRef {
    MethodRef { service: service(service_name), index: 0, name: name.to_owned(), kind }
}

fn three_tabs() -> State {
    State::new(
        vec![
            Tab { id: 1, state: TabState::new_compile(CompileOptions::default()) },
            Tab { id: 4, state: TabState::new_reflection(options()) },
            Tab { id: 7, state: TabState::new_options(service("Greeter"), options()) },
        ],
        Some(4),
    )
}

#[test]
fn next_and_previous_tab_move_the_selection() {
    let mut state = three_tabs();
    assert!(has_selected_tab(&state));
    state.select_next_tab();
    assert_eq!(state.selected_tab(), Some(7));
    assert!(!can_select_next_tab(&state));
    state.select_next_tab();
    assert_eq!(state.selected_tab(), Some(7));
    state.select_prev_tab();
    state.select_prev_tab();
    assert_eq!(state.selected_tab(), Some(1));
    assert!(!can_select_prev_tab(&state));
    state.select_prev_tab();
    assert_eq!(state.selected_tab(), Some(1));
}

#[test]
fn next_then_previous_returns_to_the_tab() {
    let mut state = three_tabs();
    state.select_next_tab();
    state.select_prev_tab();
    assert_eq!(state.selected_tab(), Some(4));
}

#[test]
fn first_and_last_tab() {
    let state = three_tabs();
    assert_eq!(state.first_tab(), Some(1));
    assert_eq!(state.last_tab(), Some(7));
    let empty = State::new(vec![], None);
    assert_eq!(empty.first_tab(), None);
    assert!(!has_selected_tab(&empty));
    assert!(!can_select_next_tab(&empty));
}

#[test]
fn closing_a_tab_selects_the_next_one_or_the_last() {
    let mut state = three_tabs();
    state.close_selected_tab();
    assert_eq!(state.tabs().len(), 2);
    assert_eq!(state.selected_tab(), Some(7));
    state.close_selected_tab();
    assert_eq!(state.selected_tab(), Some(1));
    state.close_selected_tab();
    assert_eq!(state.selected_tab(), None);
    assert!(state.tabs().is_empty());
}

#[test]
fn removing_an_unselected_tab_keeps_the_selection() {
    let mut state = three_tabs();
    state.remove(1);
    assert_eq!(state.selected_tab(), Some(4));
    state.remove(99);
    assert_eq!(state.tabs().len(), 2);
}

#[test]
fn method_tabs_are_reused() {
    let mut state = State::new(vec![], None);
    let unary = method("Greeter", "SayHello", MethodKind::Unary);
    state.select_or_create_method_tab(&unary, options(), "{}".to_owned(), true);
    assert_eq!(state.tabs().len(), 1);
    let first = state.selected_tab();
    state.select_or_create_compiler_tab(CompileOptions::default());
    assert_eq!(state.tabs().len(), 2);
    state.select_or_create_method_tab(&unary, options(), "{}".to_owned(), true);
    assert_eq!(state.tabs().len(), 2);
    assert_eq!(state.selected_tab(), first);
    state.create_method_tab(&unary, options(), "{}".to_owned(), true);
    assert_eq!(state.tabs().len(), 3);
}

#[test]
fn compiler_and_reflection_tabs_are_unique() {
    let mut state = State::new(vec![], None);
    state.select_or_create_compiler_tab(CompileOptions::default());
    state.select_or_create_reflection_tab();
    state.select_or_create_compiler_tab(CompileOptions::default());
    state.select_or_create_reflection_tab();
    assert_eq!(state.tabs().len(), 2);
}

#[test]
fn a_new_method_tab_can_connect_but_not_send() {
    let mut state = State::new(vec![], None);
    let unary = method("Greeter", "SayHello", MethodKind::Unary);
    state.create_method_tab(&unary, options(), "{}".to_owned(), true);
    assert!(state.can_connect());
    assert!(!state.can_send());
    assert!(!state.can_finish());
    assert!(!state.can_disconnect());
    match state.selected_tab_state() {
        Some(TabState::Method(tab)) => {
            assert_eq!(tab.address.text(), "http://localhost:80");
            assert_eq!(tab.address.request_state(), &RequestState::NotStarted);
        }
        _ => panic!("expected a method tab"),
    }
}

#[test]
fn removing_a_service_closes_its_tabs() {
    let mut state = State::new(vec![], None);
    state.create_method_tab(&method("Greeter", "SayHello", MethodKind::Unary), options(), "{}".to_owned(), true);
    state.create_method_tab(&method("Other", "Call", MethodKind::Streaming), options(), "{}".to_owned(), true);
    state.create_options_tab(&service("Greeter"), options());
    state.remove_service(&service("Greeter"));
    assert_eq!(state.tabs().len(), 1);
    assert_eq!(state.selected_tab(), Some(1));
}

#[test]
fn options_tabs_are_labelled_by_service() {
    let tab = TabState::new_options(service("Greeter"), options());
    assert_eq!(tab.label(), "Greeter options");
}

#[test]
fn the_selected_method_tab_is_found() {
    let mut state = three_tabs();
    assert!(state.selected_method().is_none());
    assert!(state.selected_method_tab().is_none());
    let unary = method("Greeter", "SayHello", MethodKind::Unary);
    state.create_method_tab(&unary, options(), "{}".to_owned(), true);
    assert_eq!(state.selected_method().unwrap().name, "SayHello");
    assert_eq!(state.selected_method_tab().unwrap().request, "{}");
    state.select_prev_tab();
    assert_eq!(state.selected_options_tab().unwrap().service.name, "Greeter");
}

#[test]
fn opening_the_compiler_tab_twice_opens_it_once() {
    let mut state = State::new(vec![Tab { id: 2, state: TabState::new_reflection(options()) }], Some(2));
    state.select_or_create_compiler_tab(CompileOptions::default());
    let after_first: Vec<u64> = state.tabs().iter().map(|t| t.id).collect();
    let selected = state.selected_tab();
    state.select_or_create_compiler_tab(CompileOptions::default());
    let after_second: Vec<u64> = state.tabs().iter().map(|t| t.id).collect();
    assert_eq!(after_first, after_second);
    assert_eq!(state.selected_tab(), selected);
    assert_eq!(after_first, vec![2, 3]);
}

#[test]
fn closures_see_the_selected_tab_of_their_kind() {
    let mut state = three_tabs();
    assert_eq!(state.with_selected_method(|id, _| id), None);
    let unary = method("Greeter", "SayHello", MethodKind::Unary);
    state.create_method_tab(&unary, options(), "{}".to_owned(), true);
    let seen = state.with_selected_method(|id, tab| (id, tab.method.name.clone()));
    assert_eq!(seen, Some((8, "SayHello".to_owned())));
    assert_eq!(state.with_selected_options(|id, _| id), None);
    state.select_prev_tab();
    let seen = state.with_selected_options(|id, tab| (id, tab.service.name.clone()));
    assert_eq!(seen, Some((7, "Greeter".to_owned())));
    assert_eq!(state.with_selected_method(|id, _| id), None);
}
