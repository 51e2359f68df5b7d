use epistle::paths::merge_paths;

#[test]
fn absolute_destination_rejected() {
    let r = merge_paths(&"out".to_string(), &"/etc/passwd".to_string());
    assert_eq!(r, Err("file is absolute".to_string()));
}

#[test]
fn root_alone_rejected() {
    let r = merge_paths(&"out".to_string(), &"/".to_string());
    assert_eq!(r, Err("file is absolute".to_string()));
}

#[test]
fn relative_destination_joined() {
    let r = merge_paths(&"out".to_string(), &"nested/out.txt".to_string());
    assert_eq!(r, Ok("out/nested/out.txt".to_string()));
}

#[test]
fn trailing_separator_not_doubled() {
    let r = merge_paths(&"out/".to_string(), &"a.txt".to_string());
    assert_eq!(r, Ok("out/a.txt".to_string()));
}

#[test]
fn empty_directory_yields_destination() {
    let r = merge_paths(&"".to_string(), &"a.txt".to_string());
    assert_eq!(r, Ok("a.txt".to_string()));
}

#[test]
fn empty_destination_keeps_separator() {
    let r = merge_paths(&"out".to_string(), &"".to_string());
    assert_eq!(r, Ok("out/".to_string()));
}

#[test]
fn dotdot_not_normalized() {
    let r = merge_paths(&"out".to_string(), &"../escape.txt".to_string());
    assert_eq!(r, Ok("out/../escape.txt".to_string()));
}
