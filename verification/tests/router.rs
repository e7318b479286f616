use minihttp::router::{route, Handler};

#[test]
fn get_root_is_static_ok() {
    assert_eq!(route(b"GET", b"/"), Handler::StaticOk);
}

#[test]
fn get_echo_captures_the_rest_of_the_path() {
    assert_eq!(route(b"GET", b"/echo/abc"), Handler::Echo { text: b"abc".to_vec() });
    assert_eq!(route(b"GET", b"/echo/"), Handler::Echo { text: Vec::new() });
    assert_eq!(route(b"GET", b"/echo/a/b/c"), Handler::Echo { text: b"a/b/c".to_vec() });
    assert_eq!(route(b"GET", b"/echo/a%20b?x=1"), Handler::Echo { text: b"a%20b?x=1".to_vec() });
    assert_eq!(route(b"GET", b"/echo//"), Handler::Echo { text: b"/".to_vec() });
}

#[test]
fn get_user_agent_is_exact() {
    assert_eq!(route(b"GET", b"/user-agent"), Handler::UserAgent);
    assert_eq!(route(b"GET", b"/user-agent/"), Handler::NotFound);
    assert_eq!(route(b"GET", b"/user-agents"), Handler::NotFound);
}

#[test]
fn get_files_reads() {
    assert_eq!(route(b"GET", b"/files/foo.txt"), Handler::FileRead { name: b"foo.txt".to_vec() });
    assert_eq!(route(b"GET", b"/files/a/b"), Handler::FileRead { name: b"a/b".to_vec() });
    assert_eq!(route(b"GET", b"/files/"), Handler::FileRead { name: Vec::new() });
}

#[test]
fn post_files_writes() {
    assert_eq!(route(b"POST", b"/files/foo.txt"), Handler::FileWrite { name: b"foo.txt".to_vec() });
    assert_eq!(route(b"POST", b"/files/../x"), Handler::FileWrite { name: b"../x".to_vec() });
}

#[test]
fn unknown_paths_are_not_found() {
    assert_eq!(route(b"GET", b"/does-not-exist"), Handler::NotFound);
    assert_eq!(route(b"GET", b""), Handler::NotFound);
    assert_eq!(route(b"GET", b"/echo"), Handler::NotFound);
    assert_eq!(route(b"GET", b"/files"), Handler::NotFound);
    assert_eq!(route(b"GET", b"//"), Handler::NotFound);
    assert_eq!(route(b"GET", b"/Echo/abc"), Handler::NotFound);
}

#[test]
fn post_outside_files_is_not_found() {
    assert_eq!(route(b"POST", b"/"), Handler::NotFound);
    assert_eq!(route(b"POST", b"/echo/abc"), Handler::NotFound);
    assert_eq!(route(b"POST", b"/user-agent"), Handler::NotFound);
}

#[test]
fn other_methods_are_not_found() {
    assert_eq!(route(b"PUT", b"/files/foo.txt"), Handler::NotFound);
    assert_eq!(route(b"DELETE", b"/files/foo.txt"), Handler::NotFound);
    assert_eq!(route(b"HEAD", b"/"), Handler::NotFound);
    assert_eq!(route(b"get", b"/"), Handler::NotFound);
    assert_eq!(route(b"", b"/"), Handler::NotFound);
}
