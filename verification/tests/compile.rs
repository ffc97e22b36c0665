use lanquetta::compile::{validate_include, CompileTabState};

#[test]
fn include_paths_must_be_readable_directories() {
    assert_eq!(validate_include("/usr/include", Ok(true)), Ok("/usr/include".to_owned()));
    assert_eq!(validate_include("/etc/hosts", Ok(false)), Err("not a directory".to_owned()));
    assert_eq!(
        validate_include("/nope", Err("No such file or directory (os error 2)".to_owned())),
        Err("failed to read metadata: No such file or directory (os error 2)".to_owned())
    );
}

#[test]
fn the_tab_keeps_its_paths_in_order() {
    let mut tab = CompileTabState::new(vec![("/a".to_owned(), Ok(true)), ("/b".to_owned(), Ok(false))]);
    assert_eq!(tab.includes[1].result, Err("not a directory".to_owned()));
    tab.add_paths(vec![("/c".to_owned(), Ok(true))]);
    tab.includes[0].deleted = true;
    tab.remove_deleted();
    assert_eq!(tab.compile_options().includes, vec!["/b".to_owned(), "/c".to_owned()]);
    assert_eq!(tab.includes[1].result, Ok("/c".to_owned()));
}
