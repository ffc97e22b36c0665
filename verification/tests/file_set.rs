use lanquetta::file_set::FileSet;
use prost::Message as _;
use prost_types::{FileDescriptorProto, FileDescriptorSet, MethodDescriptorProto, ServiceDescriptorProto};

fn service(name: &str, methods: &[&str]) -> ServiceDescriptorProto {
    ServiceDescriptorProto {
        name: Some(name.to_owned()),
        method: methods
            .iter()
            .map(|m| MethodDescriptorProto { name: Some((*m).to_owned()), ..Default::default() })
            .collect(),
        ..Default::default()
    }
}

fn bytes() -> Vec<u8> {
    FileDescriptorSet {
        file: vec![
            FileDescriptorProto { service: vec![service("Greeter", &["SayHello", "SayBye"])], ..Default::default() },
            FileDescriptorProto { service: vec![], ..Default::default() },
            FileDescriptorProto {
                service: vec![service("Health", &["Check"]), service("Admin", &[])],
                ..Default::default()
            },
        ],
    }
    .encode_to_vec()
}

#[test]
fn services_of_all_files_are_listed_in_order() {
    let set = FileSet::from_bytes(&bytes()).unwrap();
    let names: Vec<&str> = set.services().iter().map(|s| s.name.as_str()).collect();
    assert_eq!(names, vec!["Greeter", "Health", "Admin"]);
    let greeter = set.get_service(0).unwrap();
    assert_eq!(greeter.methods().len(), 2);
    assert_eq!(greeter.get_method(1).unwrap().name, "SayBye");
    assert!(greeter.get_method(2).is_none());
    assert!(set.get_service(3).is_none());
}

#[test]
fn a_set_survives_encoding_again() {
    let set = FileSet::from_bytes(&bytes()).unwrap();
    let again = FileSet::from_bytes(&set.to_bytes()).unwrap();
    assert_eq!(again.services().len(), 3);
    assert_eq!(again.services()[1].methods()[0].name, "Check");
}

#[test]
fn garbage_is_not_a_file_set() {
    assert!(FileSet::from_bytes(&[0xff, 0xff]).is_err());
}

#[test]
fn services_and_methods_have_names() {
    let set = FileSet::from_bytes(&bytes()).unwrap();
    assert_eq!(set.services()[1].name(), "Health");
    assert_eq!(set.services()[0].methods()[0].name(), "SayHello");
}
