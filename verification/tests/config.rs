use lanquetta::compile::CompileOptions;
use lanquetta::body::{State, Tab};
use lanquetta::config::{
    from_config, get_or_insert_file_set, to_config, BodyConfig, ConfigError, FileSetModel, ServiceConfig,
    ServiceKey, ServiceModel, TabConfig,
};
use lanquetta::metadata::{EditableEntry, EditableState};
use lanquetta::method_kind::MethodKind;
use lanquetta::request::ServiceOptions;
use lanquetta::sidebar::SidebarService;
use lanquetta::stream::StreamState;
use lanquetta::tab::{MethodRef, ServiceRef, TabState};

fn options() -> ServiceOptions {
    ServiceOptions { default_address: Some("http://localhost:80".to_owned()), verify_certs: true }
}

fn svc(pool: u64, name: &str) -> ServiceRef {
    ServiceRef { pool, full_name: format!("pkg.{}", name), name: name.to_owned() }
}

fn method(service: &ServiceRef, index: usize, name: &str) -> MethodRef {
    MethodRef { service: service.clone(), index, name: name.to_owned(), kind: MethodKind::Unary }
}

fn window() -> (Vec<SidebarService>, State) {
    let greeter = svc(10, "Greeter");
    let other = svc(20, "Other");
    let mut stream = StreamState::new();
    stream.add_request("{\"name\":\"x\"}".to_owned());
    let tabs = vec![
        Tab {
            id: 1,
            state: TabState::new_method(
                method(&greeter, 1, "SayHello"),
                "http://localhost:80".to_owned(),
                "{\"name\":\"x\"}".to_owned(),
                true,
                EditableState {
                    entries: vec![EditableEntry { key: "x-a".to_owned(), value: "1".to_owned(), deleted: false }],
                },
                stream,
                options(),
            ),
        },
        Tab { id: 2, state: TabState::new_options(other.clone(), options()) },
        Tab { id: 3, state: TabState::new_compile(CompileOptions::default()) },
        Tab { id: 4, state: TabState::new_reflection(options()) },
    ];
    let sidebar = vec![
        SidebarService { service: other, expanded: true, options: options() },
        SidebarService { service: greeter, expanded: false, options: options() },
    ];
    (sidebar, State::new(tabs, Some(2)))
}

fn loaded() -> Vec<FileSetModel> {
    let greeter = svc(10, "Greeter");
    let other = svc(20, "Other");
    vec![
        FileSetModel { services: vec![ServiceModel { service: other.clone(), methods: vec![method(&other, 0, "Call")] }] },
        FileSetModel {
            services: vec![ServiceModel {
                service: greeter.clone(),
                methods: vec![method(&greeter, 0, "Ping"), method(&greeter, 1, "SayHello")],
            }],
        },
    ]
}

#[test]
fn file_sets_are_listed_once_in_order_of_use() {
    let mut sets = vec![4, 9];
    assert_eq!(get_or_insert_file_set(&mut sets, 9), 1);
    assert_eq!(get_or_insert_file_set(&mut sets, 2), 2);
    assert_eq!(sets, vec![4, 9, 2]);
}

#[test]
fn saving_names_services_by_file_set_and_name() {
    let (sidebar, state) = window();
    let cfg = to_config(&sidebar, &CompileOptions::default(), &state);
    assert_eq!(cfg.file_sets, vec![20, 10]);
    assert_eq!(cfg.services[0].idx, ServiceKey { file_set: 0, service: "pkg.Other".to_owned() });
    assert_eq!(cfg.services[1].idx, ServiceKey { file_set: 1, service: "pkg.Greeter".to_owned() });
    assert!(cfg.services[0].expanded && !cfg.services[1].expanded);
    match &cfg.body.tabs[0] {
        TabConfig::Method { idx, method, address, request, request_metadata, stream, .. } => {
            assert_eq!(idx.file_set, 1);
            assert_eq!(*method, 1);
            assert_eq!(address, "http://localhost:80");
            assert_eq!(request, "{\"name\":\"x\"}");
            assert_eq!(request_metadata.entries.len(), 1);
            assert_eq!(stream.items()[0].label, "Request 1");
        }
        other => panic!("unexpected {:?}", other),
    }
    assert!(matches!(&cfg.body.tabs[1], TabConfig::Options { idx } if idx.file_set == 0));
    assert!(matches!(&cfg.body.tabs[2], TabConfig::Compile));
    assert!(matches!(&cfg.body.tabs[3], TabConfig::Reflection { options } if options.verify_certs));
    assert_eq!(cfg.body.selected, Some(1));
}

#[test]
fn restoring_what_was_saved_gives_the_same_tabs() {
    let (sidebar, state) = window();
    let cfg = to_config(&sidebar, &CompileOptions::default(), &state);
    let (restored_sidebar, restored) = from_config(&loaded(), cfg.services, cfg.body, &CompileOptions::default(), 100).unwrap();
    assert_eq!(restored_sidebar.len(), 2);
    assert_eq!(restored_sidebar[0].service.full_name, "pkg.Other");
    assert!(restored_sidebar[0].expanded);
    let labels: Vec<String> = restored.tabs().iter().map(|t| t.state.label()).collect();
    assert_eq!(labels, vec!["SayHello", "Other options", "Compiler options", "Server reflection"]);
    let ids: Vec<u64> = restored.tabs().iter().map(|t| t.id).collect();
    assert_eq!(ids, vec![100, 101, 102, 103]);
    assert_eq!(restored.selected_tab(), Some(101));
    match &restored.tabs()[0].state {
        TabState::Method(m) => {
            assert_eq!(m.method.index, 1);
            assert_eq!(m.address.text(), "http://localhost:80");
            assert_eq!(m.request, "{\"name\":\"x\"}");
            assert_eq!(m.stream.items().len(), 1);
        }
        _ => panic!("expected a method tab"),
    }
}

fn key(file_set: usize, service: &str) -> ServiceKey {
    ServiceKey { file_set, service: service.to_owned() }
}

fn method_tab(idx: ServiceKey, method: usize) -> TabConfig {
    TabConfig::Method {
        idx,
        method,
        address: String::new(),
        request: "{}".to_owned(),
        request_valid: true,
        request_metadata: EditableState { entries: vec![] },
        stream: StreamState::new(),
        options: options(),
    }
}

fn restore_tab(tab: TabConfig, services: Vec<ServiceConfig>) -> ConfigError {
    let body = BodyConfig { tabs: vec![TabConfig::Compile, tab], selected: None };
    from_config(&loaded(), services, body, &CompileOptions::default(), 1).unwrap_err()
}

#[test]
fn each_restore_error_has_its_message() {
    let e = restore_tab(method_tab(key(5, "pkg.Greeter"), 0), vec![]);
    assert_eq!(e, ConfigError::InvalidFileSetIndex);
    assert_eq!(e.message(), "invalid file set index");
    let e = restore_tab(method_tab(key(1, "pkg.Missing"), 0), vec![]);
    assert_eq!(e, ConfigError::InvalidServiceIndex);
    assert_eq!(e.message(), "invalid service index");
    let e = restore_tab(method_tab(key(1, "pkg.Greeter"), 2), vec![]);
    assert_eq!(e, ConfigError::InvalidMethodIndex);
    assert_eq!(e.message(), "invalid method index");
    let e = restore_tab(TabConfig::Options { idx: key(0, "pkg.Other") }, vec![]);
    assert_eq!(e, ConfigError::OptionsTabWithoutService);
    assert_eq!(e.message(), "options tab has no associated service");
}

#[test]
fn a_broken_service_fails_before_the_tabs() {
    let services = vec![ServiceConfig { idx: key(0, "pkg.Nope"), expanded: false, options: options() }];
    let body = BodyConfig { tabs: vec![method_tab(key(7, "x"), 0)], selected: Some(0) };
    assert_eq!(from_config(&loaded(), services, body, &CompileOptions::default(), 1).unwrap_err(), ConfigError::InvalidServiceIndex);
}

#[test]
fn selection_beyond_the_tabs_is_dropped() {
    let body = BodyConfig { tabs: vec![TabConfig::Compile], selected: Some(3) };
    let (_, state) = from_config(&loaded(), vec![], body, &CompileOptions::default(), 1).unwrap();
    assert_eq!(state.selected_tab(), None);
}

#[test]
fn compiler_options_are_saved_and_given_to_the_compiler_tab() {
    let (sidebar, state) = window();
    let includes = CompileOptions { includes: vec!["/inc".to_owned(), "/other".to_owned()] };
    let cfg = to_config(&sidebar, &includes, &state);
    assert_eq!(cfg.compile_options.includes, includes.includes);
    let (_, restored) = from_config(&loaded(), cfg.services, cfg.body, &cfg.compile_options, 100).unwrap();
    let compiler = restored.tabs().iter().find(|t| matches!(t.state, TabState::Compile(_))).unwrap();
    match &compiler.state {
        TabState::Compile(o) => assert_eq!(o.includes, vec!["/inc".to_owned(), "/other".to_owned()]),
        _ => unreachable!(),
    }
}
