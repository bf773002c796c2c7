use kova::ipc::{received_dirs, request_line, socket_path};

#[test]
fn socket_path_of_user() {
    assert_eq!(socket_path(1000), "/run/user/1000/kova.sock");
    assert_eq!(socket_path(0), "/run/user/0/kova.sock");
    assert_eq!(socket_path(u32::MAX), "/run/user/4294967295/kova.sock");
}

#[test]
fn request_is_one_line() {
    assert_eq!(request_line("/home/ana/src"), "/home/ana/src\n");
    assert_eq!(request_line(""), "\n");
}

#[test]
fn sent_directory_is_received_back() {
    let dir = "/home/ana/projects/kova";
    assert_eq!(received_dirs(&request_line(dir)), vec![dir.to_string()]);
}

#[test]
fn requests_arrive_in_order() {
    let mut data = request_line("/a");
    data.push_str(&request_line("/b c"));
    data.push_str(&request_line("/a"));
    assert_eq!(received_dirs(&data), vec!["/a".to_string(), "/b c".to_string(), "/a".to_string()]);
}

#[test]
fn received_lines_are_trimmed_and_blank_ones_dropped() {
    let dirs = received_dirs("  /x  \r\n\n   \n/y");
    assert_eq!(dirs, vec!["/x".to_string(), "/y".to_string()]);
    assert!(received_dirs("").is_empty());
    assert!(received_dirs("\n\n").is_empty());
}
