use web_server::FileServer;

fn get_dummy_file_server() -> FileServer {
    FileServer::new()
        .map_file("/favicon.ico", "assets/favicon.ico")
        .unwrap()
        .map_dir("static", "assets/")
        .unwrap()
}

#[test]
fn test_map_dir_ok() {
    let fs = FileServer::new().map_dir("/static", "./relative/static");

    assert!(fs.is_ok());
}

#[test]
fn test_map_dir_twice_err() {
    let fs = FileServer::new()
        .map_dir("/static", "/home/foo/absolute/static")
        .unwrap()
        .map_dir("/static", "relative/static");

    assert!(fs.is_err());
}

#[test]
fn test_map_file_ok() {
    let fs = FileServer::new().map_file("/favicon.ico", "/home/foo/absolute/static/favicon.ico");

    assert!(fs.is_ok());
}

#[test]
fn test_map_file_twice_err() {
    let fs = FileServer::new()
        .map_file("/favicon.ico", "/home/foo/absolute/static/favicon.ico")
        .unwrap()
        .map_file("/favicon.ico", "relative/static/favicon.ico");

    assert!(fs.is_err());
}

#[test]
fn test_get_file_path_file_map_ok() {
    let fs = get_dummy_file_server();
    let actual_path = fs.get_file_path("/favicon.ico").unwrap();
    assert_eq!("assets/favicon.ico", actual_path)
}

#[test]
fn test_get_file_path_file_map_err() {
    let fs = get_dummy_file_server();
    let res = fs.get_file_path("/not-valid.txt");
    assert!(res.is_err());
}

#[test]
fn test_get_file_path_dir_map_ok() {
    let fs = get_dummy_file_server();
    let actual_path = fs.get_file_path("/static/dog.png").unwrap();
    assert_eq!("assets/dog.png", actual_path)
}

#[test]
fn test_get_file_path_dir_map_upward_traversal_err() {
    let fs = get_dummy_file_server();
    let res = fs.get_file_path("/static/../dog.png");
    assert!(res.is_err());
}

#[test]
fn test_get_file_path_dir_map_nesting_ok() {
    let fs = get_dummy_file_server();
    let actual_path = fs.get_file_path("/static/animals/snake.gif").unwrap();
    assert_eq!("assets/animals/snake.gif", actual_path)
}

#[test]
fn test_get_file_path_dir_map_nesting2_ok() {
    let fs = get_dummy_file_server();
    let actual_path = fs.get_file_path("static/animals/birds/dove.jpeg/").unwrap();
    assert_eq!("assets/animals/birds/dove.jpeg", actual_path)
}

#[test]
fn test_traversal_rejected_under_any_mount() {
    let fs = FileServer::new()
        .map_dir("a", "one/")
        .unwrap()
        .map_dir("b", "two")
        .unwrap();
    assert!(fs.get_file_path("/a/../one/secret.txt").is_err());
    assert!(fs.get_file_path("b/../../etc/passwd").is_err());
    assert!(fs.get_file_path("..").is_err());
}

#[test]
fn test_handle_file_access_missing_file_err() {
    let fs = get_dummy_file_server();
    assert!(fs.handle_file_access("/static/no-such-file.txt").is_err());
}

#[test]
fn test_is_safe_relative_subpath() {
    assert!(web_server::is_safe_relative_subpath("a/b/c.txt"));
    assert!(!web_server::is_safe_relative_subpath("/a/b"));
    assert!(!web_server::is_safe_relative_subpath("a/../b"));
    assert!(web_server::is_safe_relative_subpath("a/..b/c"));
}
