use lanquetta::auth::{plugin_failure, HeaderCache, reuse_cached_headers, validate_hook, AuthOptionsState, AuthorizationHook, ExecuteState};
use lanquetta::request::StateIcon;

#[test]
fn hook_splits_its_command_line() {
    let hook = AuthorizationHook::new("bash generate_token.sh --scope 'a b'".to_owned()).unwrap();
    assert_eq!(hook.shell(), "bash generate_token.sh --scope 'a b'");
    assert_eq!(hook.program(), "bash");
    let args: Vec<&str> = hook.arguments().iter().map(|a| a.as_str()).collect();
    assert_eq!(args, vec!["generate_token.sh", "--scope", "a b"]);
}

#[test]
fn hook_with_an_open_quote_is_refused() {
    assert_eq!(AuthorizationHook::new("echo 'open".to_owned()).unwrap_err(), "missing closing quote");
}

#[test]
fn hook_without_words_is_refused() {
    assert_eq!(AuthorizationHook::new("   ".to_owned()).unwrap_err(), "no arguments");
}

#[test]
fn empty_command_means_no_hook() {
    assert!(matches!(validate_hook(&String::new()), Ok(None)));
    assert!(matches!(validate_hook(&"token".to_owned()), Ok(Some(_))));
    assert_eq!(validate_hook(&"\"".to_owned()).unwrap_err(), "missing closing quote");
}

#[test]
fn cached_headers_are_reused_only_well_before_expiry() {
    assert!(reuse_cached_headers(Some(300_000_000_001)));
    assert!(!reuse_cached_headers(Some(300_000_000_000)));
    assert!(!reuse_cached_headers(Some(-5)));
    assert!(!reuse_cached_headers(None));
}

#[test]
fn a_test_run_of_the_hook_is_tracked() {
    let mut s = AuthOptionsState::new(Some("bash token.sh"));
    assert!(s.can_test());
    assert_eq!(s.hook().unwrap().program(), "bash");
    assert!(s.start_test());
    assert_eq!(s.state_icon(), StateIcon::InProgress);
    assert!(!s.can_test());
    s.finish_test(Err("exit status: 1".to_owned()));
    assert_eq!(s.state_icon(), StateIcon::Failed);
    assert_eq!(s.error().as_deref(), Some("exit status: 1"));
    s.cancel_test();
    assert_eq!(s.error(), None);
    s.set_command("echo 'x".to_owned());
    assert_eq!(s.error().as_deref(), Some("missing closing quote"));
    assert!(!s.start_test());
    s.set_command(String::new());
    assert!(s.hook().is_none());
    assert!(!s.can_test());
    let mut s = AuthOptionsState::new(None);
    assert!(!s.start_test());
    s.set_command("token".to_owned());
    assert!(s.start_test());
    s.finish_test(Ok(()));
    assert_eq!(s.state_icon(), StateIcon::Succeeded);
    let _ = ExecuteState::NotStarted;
}

#[test]
fn plugin_failures_show_their_output() {
    assert_eq!(
        plugin_failure("exit status: 1", b"ignored", b"  token expired\n"),
        "authorization plugin returned exit status: 1: token expired"
    );
    assert_eq!(
        plugin_failure("exit status: 2", b"\tno creds \n", b""),
        "authorization plugin returned exit status: 2: no creds"
    );
    assert_eq!(plugin_failure("signal: 9", b"", b""), "authorization plugin returned signal: 9");
    assert_eq!(
        plugin_failure("exit status: 3", b"", &[0x66, 0xff]),
        "authorization plugin returned exit status: 3: f\u{fffd}"
    );
}

#[test]
fn the_header_cache_keeps_the_last_successful_run() {
    let mut cache: HeaderCache<Vec<(String, String)>> = HeaderCache::new();
    assert!(cache.reusable(0).is_none());
    let headers = vec![("authorization".to_owned(), "Bearer a".to_owned())];
    assert!(cache.record_run(Ok((headers.clone(), Some(400_000_000_000)))).is_ok());
    assert_eq!(cache.reusable(0), Some(&headers));
    assert!(cache.reusable(100_000_000_000).is_none());
    assert_eq!(cache.record_run(Err("authorization plugin returned exit status: 1".to_owned())).unwrap_err(), "authorization plugin returned exit status: 1");
    assert_eq!(cache.headers(), Some(&headers));
    let other = vec![("authorization".to_owned(), "Bearer b".to_owned())];
    cache.record_run(Ok((other.clone(), None))).unwrap();
    assert_eq!(cache.headers(), Some(&other));
    assert!(cache.reusable(0).is_none());
}
