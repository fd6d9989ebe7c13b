use file_server::resolve::{is_within_root, resolve_begin, resolve_next, Lookup, PathError, Step, MAX_FILE_SIZE};

fn found(canonical: &str, is_dir: bool, size: u64) -> Lookup {
    Lookup::Found { canonical: canonical.to_string(), is_dir, size }
}

fn query(step: &Step) -> (String, bool) {
    match step {
        Step::Query { path, index } => (path.clone(), *index),
        Step::Done(_) => panic!("expected a query"),
    }
}

fn done(step: Step) -> Result<String, PathError> {
    match step {
        Step::Done(r) => r,
        Step::Query { .. } => panic!("expected an outcome"),
    }
}

#[test]
fn traversal_patterns_rejected() {
    for p in ["/../etc/passwd", "/a/..", "..", "//etc", "/a//b", "/a\\b", "\\", "/x..y"] {
        assert_eq!(done(resolve_begin("/srv/www", p)), Err(PathError::InvalidPath), "{}", p);
    }
}

#[test]
fn root_requests_ask_for_index() {
    assert_eq!(query(&resolve_begin("/srv/www", "/")), ("/srv/www/index.html".to_string(), true));
    assert_eq!(query(&resolve_begin("/srv/www", "")), ("/srv/www/index.html".to_string(), true));
    assert_eq!(query(&resolve_begin("/", "/")), ("/index.html".to_string(), true));
}

#[test]
fn plain_request_joins_root() {
    assert_eq!(query(&resolve_begin("/srv/www", "/a/b.txt")), ("/srv/www/a/b.txt".to_string(), false));
    assert_eq!(query(&resolve_begin("/srv/www", "c.txt")), ("/srv/www/c.txt".to_string(), false));
    assert_eq!(query(&resolve_begin("/srv/www", "/./x")), ("/srv/www/./x".to_string(), false));
}

#[test]
fn missing_root_index_resolves_to_its_path() {
    let r = resolve_next("/srv/www", "/srv/www/index.html", true, &Lookup::Missing);
    assert_eq!(done(r), Ok("/srv/www/index.html".to_string()));
}

#[test]
fn missing_target_not_found() {
    assert_eq!(done(resolve_next("/srv/www", "/srv/www/target", false, &Lookup::Missing)), Err(PathError::NotFound));
}

#[test]
fn escaping_target_forbidden() {
    let r = resolve_next("/srv/www", "/srv/www/target", false, &found("/etc/passwd", false, 10));
    assert_eq!(done(r), Err(PathError::Forbidden));
    let r = resolve_next("/srv/www", "/srv/www/target", false, &found("/srv/www-evil/a", false, 10));
    assert_eq!(done(r), Err(PathError::Forbidden));
}

#[test]
fn file_inside_root_resolves_to_canonical() {
    let r = resolve_next("/srv/www", "/srv/www/target", false, &found("/srv/www/real/a.txt", false, 3));
    assert_eq!(done(r), Ok("/srv/www/real/a.txt".to_string()));
    let r = resolve_next("/srv/www", "/srv/www/target", true, &found("/srv/www/index.html", false, MAX_FILE_SIZE));
    assert_eq!(done(r), Ok("/srv/www/index.html".to_string()));
}

#[test]
fn oversized_file_refused() {
    let r = resolve_next("/srv/www", "/srv/www/target", false, &found("/srv/www/big", false, MAX_FILE_SIZE + 1));
    assert_eq!(done(r), Err(PathError::Oversized));
    assert_eq!(MAX_FILE_SIZE, 10 * 1024 * 1024);
}

#[test]
fn directory_asks_for_its_index_once() {
    let r = resolve_next("/srv/www", "/srv/www/target", false, &found("/srv/www/docs", true, 4096));
    assert_eq!(query(&r), ("/srv/www/docs/index.html".to_string(), true));
    let r = resolve_next("/srv/www", "/srv/www/docs/index.html", true, &found("/srv/www/docs/index.html", true, 4096));
    assert_eq!(done(r), Ok("/srv/www/docs/index.html".to_string()));
    let r = resolve_next("/srv/www", "/srv/www/docs/index.html", true, &Lookup::Missing);
    assert_eq!(done(r), Ok("/srv/www/docs/index.html".to_string()));
    let r = resolve_next("/srv/www", "/srv/www/docs/index.html", true, &found("/etc/passwd", false, 4));
    assert_eq!(done(r), Err(PathError::Forbidden));
}

#[test]
fn within_root_is_segment_prefix() {
    assert!(is_within_root("/srv/www", "/srv/www"));
    assert!(is_within_root("/srv/www", "/srv/www/a"));
    assert!(!is_within_root("/srv/www", "/srv/www-evil"));
    assert!(!is_within_root("/srv/www", "/srv/ww"));
    assert!(!is_within_root("/srv/www", "/srv"));
    assert!(is_within_root("/", "/etc"));
}
