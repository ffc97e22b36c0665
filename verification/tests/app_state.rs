use lanquetta::compile::CompileOptions;
use lanquetta::app_state::{AppCommand, AppState};
use lanquetta::body::{State, Tab};
use lanquetta::method_kind::MethodKind;
use lanquetta::request::ServiceOptions;
use lanquetta::sidebar::{ServiceListState, SidebarService};
use lanquetta::tab::{MethodRef, ServiceRef, TabState};

fn svc(name: &str) -> ServiceRef {
    ServiceRef { pool: 1, full_name: format!("pkg.{}", name), name: name.to_owned() }
}

fn method(service: &str, name: &str) -> MethodRef {
    MethodRef { service: svc(service), index: 0, name: name.to_owned(), kind: MethodKind::Unary }
}

fn options(address: &str) -> ServiceOptions {
    ServiceOptions { default_address: Some(address.to_owned()), verify_certs: false }
}

fn app() -> AppState {
    AppState {
        sidebar: ServiceListState::new(vec![SidebarService {
            service: svc("Greeter"),
            expanded: true,
            options: options("http://greeter:1"),
        }], CompileOptions::default()),
        body: State::new(vec![Tab { id: 1, state: TabState::new_compile(CompileOptions::default()) }], Some(1)),
        error: None,
    }
}

#[test]
fn a_loaded_file_adds_its_services() {
    let mut a = app();
    a.error = Some("old".to_owned());
    a.apply(AppCommand::FileLoaded(Ok(vec![svc("A"), svc("B")])));
    let names: Vec<&str> = a.sidebar.services().iter().map(|s| s.service.name.as_str()).collect();
    assert_eq!(names, vec!["Greeter", "A", "B"]);
    assert!(a.sidebar.services()[2].expanded);
    assert!(a.sidebar.services()[2].options.verify_certs);
    assert_eq!(a.error, None);
}

#[test]
fn a_failed_load_shows_its_causes() {
    let mut a = app();
    a.apply(AppCommand::FileLoaded(Err(vec!["cannot open x.proto".to_owned(), "not found".to_owned()])));
    assert_eq!(a.error.as_deref(), Some("Error loading file: cannot open x.proto: not found"));
    assert_eq!(a.sidebar.services().len(), 1);
}

#[test]
fn method_tabs_take_the_options_of_their_service() {
    let mut a = app();
    a.apply(AppCommand::CreateTab { method: method("Greeter", "Hi"), request: "{}".to_owned(), request_valid: true });
    assert_eq!(a.body.tabs().len(), 2);
    match &a.body.tabs()[1].state {
        TabState::Method(m) => {
            assert_eq!(m.address.text(), "http://greeter:1");
            assert!(!m.service_options.verify_certs);
        }
        _ => panic!("expected a method tab"),
    }
    a.apply(AppCommand::CreateTab { method: method("Unknown", "Hi"), request: "{}".to_owned(), request_valid: true });
    assert_eq!(a.body.tabs().len(), 2);
    a.apply(AppCommand::SelectOrCreateMethodTab {
        method: method("Greeter", "Hi"),
        request: "{}".to_owned(),
        request_valid: true,
    });
    assert_eq!(a.body.tabs().len(), 2);
}

#[test]
fn new_options_reach_the_sidebar_and_the_tabs() {
    let mut a = app();
    a.apply(AppCommand::SelectOrCreateOptionsTab(svc("Greeter"), options("http://greeter:1")));
    a.apply(AppCommand::SetServiceOptions(svc("Greeter"), options("http://other:2")));
    assert_eq!(a.sidebar.services()[0].options.default_address.as_deref(), Some("http://other:2"));
    match &a.body.tabs()[1].state {
        TabState::Options(o) => assert_eq!(o.default_address.text(), "http://other:2"),
        _ => panic!("expected an options tab"),
    }
}

#[test]
fn removing_a_service_from_the_window_closes_its_tabs() {
    let mut a = app();
    a.apply(AppCommand::CreateTab { method: method("Greeter", "Hi"), request: "{}".to_owned(), request_valid: true });
    a.apply(AppCommand::AddService(svc("Other"), options("http://o:3")));
    a.apply(AppCommand::RemoveService(0));
    let names: Vec<&str> = a.sidebar.services().iter().map(|s| s.service.name.as_str()).collect();
    assert_eq!(names, vec!["Other"]);
    assert_eq!(a.body.tabs().len(), 1);
    assert_eq!(a.body.selected_tab(), Some(1));
}

#[test]
fn tab_commands_move_the_selection() {
    let mut a = app();
    a.apply(AppCommand::SelectOrCreateReflectionTab);
    assert_eq!(a.body.selected_tab(), Some(2));
    a.apply(AppCommand::SelectPrevTab);
    assert_eq!(a.body.selected_tab(), Some(1));
    a.apply(AppCommand::SelectNextTab);
    a.apply(AppCommand::CloseSelectedTab);
    assert_eq!(a.body.tabs().len(), 1);
    assert_eq!(a.body.selected_tab(), Some(1));
    a.apply(AppCommand::SelectOrCreateCompileTab);
    assert_eq!(a.body.tabs().len(), 1);
    a.apply(AppCommand::ClearRequestHistory);
    assert_eq!(a.body.tabs().len(), 1);
}

#[test]
fn compiler_tabs_open_with_the_sidebar_compile_options() {
    let mut a = app();
    a.apply(AppCommand::CloseSelectedTab);
    a.apply(AppCommand::SetCompileOptions(CompileOptions { includes: vec!["/usr/include".to_owned()] }));
    assert_eq!(a.sidebar.compile_options().includes, vec!["/usr/include".to_owned()]);
    a.apply(AppCommand::SelectOrCreateCompileTab);
    let tab = a.body.selected_tab_state().unwrap();
    match tab {
        TabState::Compile(o) => assert_eq!(o.includes, vec!["/usr/include".to_owned()]),
        _ => panic!("expected the compiler tab"),
    }
}
