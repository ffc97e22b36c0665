use lanquetta::compile::CompileOptions;
use lanquetta::method_kind::MethodKind;
use lanquetta::pool::load_services;
use lanquetta::sidebar::{ServiceListState, SidebarService};
use lanquetta::request::ServiceOptions;
use lanquetta::tab::ServiceRef;
use prost::Message as _;
use prost_types::{
    DescriptorProto, FileDescriptorProto, FileDescriptorSet, MethodDescriptorProto, ServiceDescriptorProto,
};

fn method(name: &str, client: bool, server: bool) -> MethodDescriptorProto {
    MethodDescriptorProto {
        name: Some(name.to_owned()),
        input_type: Some(".demo.Msg".to_owned()),
        output_type: Some(".demo.Msg".to_owned()),
        client_streaming: Some(client),
        server_streaming: Some(server),
        ..Default::default()
    }
}

fn set_bytes(input_type: &str) -> Vec<u8> {
    let mut say = method("Say", false, false);
    say.input_type = Some(input_type.to_owned());
    FileDescriptorSet {
        file: vec![FileDescriptorProto {
            name: Some("demo.proto".to_owned()),
            package: Some("demo".to_owned()),
            message_type: vec![DescriptorProto { name: Some("Msg".to_owned()), ..Default::default() }],
            service: vec![
                ServiceDescriptorProto {
                    name: Some("Chat".to_owned()),
                    method: vec![say, method("Upload", true, false), method("Watch", false, true), method("Talk", true, true)],
                    ..Default::default()
                },
                ServiceDescriptorProto { name: Some("Empty".to_owned()), ..Default::default() },
            ],
            ..Default::default()
        }],
    }
    .encode_to_vec()
}

#[test]
fn services_come_with_full_names_and_method_kinds() {
    let services = load_services(&set_bytes(".demo.Msg")).unwrap();
    assert_eq!(services.len(), 2);
    assert_eq!(services[0].full_name, "demo.Chat");
    assert_eq!(services[0].name, "Chat");
    let kinds: Vec<MethodKind> = services[0].methods.iter().map(|m| m.kind).collect();
    assert_eq!(
        kinds,
        vec![MethodKind::Unary, MethodKind::ClientStreaming, MethodKind::ServerStreaming, MethodKind::Streaming]
    );
    assert_eq!(services[1].full_name, "demo.Empty");
    assert!(services[1].methods.is_empty());
}

#[test]
fn a_set_with_an_unknown_type_is_refused() {
    assert!(load_services(&set_bytes(".demo.Missing")).is_err());
    assert!(load_services(&[0xff, 0xff]).is_err());
}

#[test]
fn method_references_name_their_service_and_position() {
    let services = load_services(&set_bytes(".demo.Msg")).unwrap();
    let r = services[0].method_ref(5, 2).unwrap();
    assert_eq!(r.service.pool, 5);
    assert_eq!(r.service.full_name, "demo.Chat");
    assert_eq!(r.index, 2);
    assert_eq!(r.name, "Watch");
    assert_eq!(r.kind, MethodKind::ServerStreaming);
    assert!(services[0].method_ref(5, 4).is_none());
}

#[test]
fn loaded_services_join_the_sidebar_expanded() {
    let existing = SidebarService {
        service: ServiceRef { pool: 0, full_name: "x.Old".to_owned(), name: "Old".to_owned() },
        expanded: false,
        options: ServiceOptions { default_address: Some("http://h:1".to_owned()), verify_certs: false },
    };
    let mut list = ServiceListState::new(vec![existing], CompileOptions::default());
    let loaded = list.add_from_bytes(&set_bytes(".demo.Msg"), 3).unwrap();
    assert_eq!(loaded.len(), 2);
    let names: Vec<&str> = list.services().iter().map(|s| s.service.full_name.as_str()).collect();
    assert_eq!(names, vec!["x.Old", "demo.Chat", "demo.Empty"]);
    assert!(list.services()[1].expanded);
    assert_eq!(list.services()[1].service.pool, 3);
    assert_eq!(list.services()[2].options.default_address, None);
}

#[test]
fn a_bad_set_leaves_the_sidebar_alone() {
    let mut list = ServiceListState::new(vec![], CompileOptions::default());
    assert!(list.add_from_bytes(&set_bytes(".demo.Missing"), 1).is_err());
    assert!(list.services().is_empty());
}

#[test]
fn a_loaded_set_is_modelled_with_every_method() {
    let services = load_services(&set_bytes(".demo.Msg")).unwrap();
    let model = lanquetta::pool::file_set_model(9, &services);
    assert_eq!(model.services.len(), 2);
    let chat = &model.services[0];
    assert_eq!(chat.service.full_name, "demo.Chat");
    assert_eq!(chat.service.pool, 9);
    let names: Vec<&str> = chat.methods.iter().map(|m| m.name.as_str()).collect();
    assert_eq!(names, vec!["Say", "Upload", "Watch", "Talk"]);
    assert_eq!(chat.methods[3].index, 3);
    assert_eq!(chat.methods[3].kind, MethodKind::Streaming);
    assert!(model.services[1].methods.is_empty());
}
