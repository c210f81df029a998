use at_webserver::framer::{drain_lines, extract_next_line, extract_next_line_bytes};
use at_webserver::mux::{predrain, route_idle_lines};

#[test]
fn framer_yields_trimmed_lines_and_keeps_residual() {
    let mut buf = b"\r\n+CMTI: \"SM\",3\r\nOK\r\nO".to_vec();
    assert_eq!(extract_next_line(&mut buf), Some("+CMTI: \"SM\",3".to_string()));
    assert_eq!(extract_next_line(&mut buf), Some("OK".to_string()));
    assert_eq!(extract_next_line(&mut buf), None);
    assert_eq!(buf, b"O".to_vec());
}

#[test]
fn framer_without_lf_leaves_buffer_alone() {
    let mut buf = b"partial line".to_vec();
    assert_eq!(extract_next_line(&mut buf), None);
    assert_eq!(buf, b"partial line".to_vec());
}

#[test]
fn framer_skips_blank_segments() {
    let mut buf = b"\n \r\n\t\n".to_vec();
    assert_eq!(extract_next_line_bytes(&mut buf), None);
    assert!(buf.is_empty());
}

#[test]
fn framer_concatenation_gives_back_input_modulo_blank_lines() {
    let input = b"AT+CSQ\r\n\r\n+CSQ: 20,99\r\n\r\nOK\r\ntail".to_vec();
    let mut buf = input.clone();
    let lines = drain_lines(&mut buf);
    assert_eq!(lines, vec!["AT+CSQ", "+CSQ: 20,99", "OK"]);
    let mut rebuilt = lines.join("\n");
    rebuilt.push('\n');
    rebuilt.push_str(std::str::from_utf8(&buf).unwrap());
    let squeezed: String = String::from_utf8(input).unwrap().replace('\r', "").replace("\n\n", "\n");
    assert_eq!(rebuilt, squeezed);
}

#[test]
fn framer_replaces_invalid_utf8() {
    let mut buf = vec![b'A', 0xFF, b'B', b'\n'];
    assert_eq!(extract_next_line(&mut buf), Some("A\u{FFFD}B".to_string()));
}

#[test]
fn idle_routing_keeps_only_urcs() {
    let mut buf = b"RING\r\n+CSQ: 1,2\r\n^HCSQ: \"NR\",1\r\nhalf".to_vec();
    let urcs = route_idle_lines(&mut buf);
    assert_eq!(urcs, vec!["RING", "^HCSQ: \"NR\",1"]);
    assert_eq!(buf, b"half".to_vec());
}

#[test]
fn predrain_forwards_urcs_and_clears_stranded_bytes() {
    let mut buf = b"OK\r\n+CMTI: \"SM\",7\r\nO".to_vec();
    let urcs = predrain(&mut buf);
    assert_eq!(urcs, vec!["+CMTI: \"SM\",7"]);
    assert!(buf.is_empty());
}
