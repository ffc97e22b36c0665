use lanquetta::compile::CompileOptions;
use lanquetta::request::ServiceOptions;
use lanquetta::method_kind::MethodKind;
use lanquetta::sidebar::{ServiceListState, SidebarService, SidebarState};
use lanquetta::tab::{MethodRef, ServiceRef};

fn svc(name: &str) -> ServiceRef {
    ServiceRef { pool: 3, full_name: format!("pkg.{}", name), name: name.to_owned() }
}

fn entry(name: &str, address: &str) -> SidebarService {
    SidebarService {
        service: svc(name),
        expanded: false,
        options: ServiceOptions { default_address: Some(address.to_owned()), verify_certs: true },
    }
}

#[test]
fn options_of_the_first_entry_are_found() {
    let list = ServiceListState::new(vec![entry("A", "http://a:1"), entry("B", "http://b:1"), entry("A", "http://c:1")], CompileOptions::default());
    assert_eq!(list.get_service_options(&svc("A")).unwrap().default_address.as_deref(), Some("http://a:1"));
    assert!(list.get_service_options(&svc("Z")).is_none());
}

#[test]
fn setting_options_changes_every_entry_of_the_service() {
    let mut list = ServiceListState::new(vec![entry("A", "http://a:1"), entry("B", "http://b:1"), entry("A", "http://c:1")], CompileOptions::default());
    let new = ServiceOptions { default_address: None, verify_certs: false };
    list.set_service_options(&svc("A"), &new);
    let addresses: Vec<Option<&str>> =
        list.services().iter().map(|s| s.options.default_address.as_deref()).collect();
    assert_eq!(addresses, vec![None, Some("http://b:1"), None]);
}

#[test]
fn removing_an_entry_gives_it_back() {
    let mut list = ServiceListState::new(vec![entry("A", "http://a:1"), entry("B", "http://b:1")], CompileOptions::default());
    let removed = list.remove_service(0);
    assert_eq!(removed.service.name, "A");
    assert_eq!(list.services().len(), 1);
    list.add_service(svc("C"), ServiceOptions::default());
    assert!(list.services()[1].expanded);
    assert!(list.services()[1].options.verify_certs);
}

#[test]
fn options_set_for_a_service_are_found_again() {
    let mut list = ServiceListState::new(vec![entry("B", "http://b:1"), entry("A", "http://a:1")], CompileOptions::default());
    let new = ServiceOptions { default_address: Some("http://new:9".to_owned()), verify_certs: false };
    list.set_service_options(&svc("A"), &new);
    let found = list.get_service_options(&svc("A")).unwrap();
    assert_eq!(found.default_address.as_deref(), Some("http://new:9"));
    assert!(!found.verify_certs);
}

#[test]
fn a_service_takes_new_options() {
    let mut e = entry("A", "http://a:1");
    e.set_options(ServiceOptions { default_address: None, verify_certs: false });
    assert_eq!(e.options.default_address, None);
    assert!(!e.options.verify_certs);
    assert_eq!(e.service.name, "A");
}

#[test]
fn the_sidebar_keeps_its_list_and_selection() {
    let selected = MethodRef { service: svc("A"), index: 1, name: "Get".to_owned(), kind: MethodKind::Unary };
    let state = SidebarState::new(ServiceListState::new(vec![entry("A", "http://a:1")], CompileOptions::default()), Some(selected));
    assert_eq!(state.list_state().services().len(), 1);
    assert_eq!(state.selected_method().as_ref().unwrap().name, "Get");
    let list = state.into_list_state();
    assert_eq!(list.services()[0].service.name, "A");
}
