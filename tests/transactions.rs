use at_webserver::dispatch::read_command;
use at_webserver::gateway::gateway_reply;
use at_webserver::dial::has_valid_ip;
use at_webserver::models::ATResponse;
use at_webserver::mux::{command_bytes, deadline_expired, expected_prefix, LineOutcome, Transaction, TxnEvent};
use at_webserver::urc::is_urc_str;

fn feed(t: &mut Transaction, lines: &[&str]) -> (Vec<String>, Option<ATResponse>) {
    let mut diverted = Vec::new();
    for l in lines {
        match t.on_line(l.to_string()) {
            LineOutcome::Diverted => diverted.push(l.to_string()),
            LineOutcome::Pending => {}
            LineOutcome::Finished(r) => return (diverted, Some(r)),
        }
    }
    (diverted, None)
}

#[test]
fn interleaved_urc_during_transaction() {
    let mut t = Transaction::new("AT+CGSN");
    let (diverted, resp) = feed(&mut t, &["+CMTI: \"SM\",3", "OK"]);
    assert_eq!(diverted, vec!["+CMTI: \"SM\",3"]);
    let resp = resp.unwrap();
    assert!(resp.success);
    assert_eq!(resp.data.as_deref(), Some("OK"));
    assert_eq!(resp.error, None);
}

#[test]
fn command_echo_and_prefix_filtering() {
    let mut t = Transaction::new("AT+CGPADDR");
    let (diverted, resp) = feed(&mut t, &["AT+CGPADDR", "+CGPADDR: 1,\"10.0.0.5\"", "OK"]);
    assert!(diverted.is_empty());
    let resp = resp.unwrap();
    assert_eq!(resp.data.as_deref(), Some("AT+CGPADDR\r\n+CGPADDR: 1,\"10.0.0.5\"\r\nOK"));
    let shown = gateway_reply(&resp, "AT+CGPADDR");
    assert_eq!(shown.data.as_deref(), Some("+CGPADDR: 1,\"10.0.0.5\"\r\nOK"));
    assert!(has_valid_ip(resp.data.as_deref().unwrap()));
}

#[test]
fn own_response_with_urc_shape_is_kept() {
    let mut t = Transaction::new("AT^HCSQ?");
    let (diverted, resp) = feed(&mut t, &["^HCSQ: \"NR\",50", "RING", "OK"]);
    assert_eq!(diverted, vec!["RING"]);
    assert_eq!(resp.unwrap().data.as_deref(), Some("^HCSQ: \"NR\",50\r\nOK"));
}

#[test]
fn successful_body_holds_no_urc_line() {
    let mut t = Transaction::new("AT+CSQ");
    let (_, resp) = feed(&mut t, &["+CSQ: 20,99", "+CLIP: \"123\"", "^CERSSI: 1", "OK"]);
    let data = resp.unwrap().data.unwrap();
    for line in data.split("\r\n") {
        assert!(!is_urc_str(line), "{line}");
    }
    assert_eq!(data, "+CSQ: 20,99\r\nOK");
}

#[test]
fn error_line_ends_with_failure() {
    let mut t = Transaction::new("AT+CMGR=9");
    let (_, resp) = feed(&mut t, &["junk", "+CME ERROR: 21"]);
    let resp = resp.unwrap();
    assert!(!resp.success);
    assert_eq!(resp.data, None);
    assert_eq!(resp.error.as_deref(), Some("+CME ERROR: 21"));
}

#[test]
fn memory_full_error_is_a_urc_not_an_answer() {
    let mut t = Transaction::new("AT+CSQ");
    let (diverted, resp) = feed(&mut t, &["+CMS ERROR: 322", "OK"]);
    assert_eq!(diverted, vec!["+CMS ERROR: 322"]);
    assert!(resp.unwrap().success);
}

#[test]
fn prompt_line_ends_with_success() {
    let mut t = Transaction::new("AT+CMGS=20");
    let (_, resp) = feed(&mut t, &["> "]);
    let resp = resp.unwrap();
    assert!(resp.success);
    assert_eq!(resp.data.as_deref(), Some("> "));
}

#[test]
fn timeout_answers_once_with_timeout() {
    let mut t = Transaction::new("AT+FAKE");
    assert!(!deadline_expired(10_000));
    assert!(deadline_expired(10_001));
    let r = t.on_timeout();
    assert!(!r.success);
    assert_eq!(r.error.as_deref(), Some("Timeout"));
    let mut next = Transaction::new("AT");
    let (_, resp) = feed(&mut next, &["OK"]);
    assert!(resp.unwrap().success);
}

#[test]
fn closed_transport_fails_the_caller() {
    let mut t = Transaction::new("AT");
    let r = t.on_closed();
    assert_eq!(r.error.as_deref(), Some("Connection closed"));
}

#[test]
fn handler_submission_is_served_like_any_other() {
    let cmd = read_command("5");
    assert_eq!(cmd, "AT+CMGR=5");
    let mut t = Transaction::new(&cmd);
    let (diverted, resp) = feed(&mut t, &["+CMGR: 0,,22", "0791", "+CMTI: \"SM\",6", "OK"]);
    assert_eq!(diverted, vec!["+CMTI: \"SM\",6"]);
    assert_eq!(resp.unwrap().data.as_deref(), Some("+CMGR: 0,,22\r\n0791\r\nOK"));
}

#[test]
fn expected_prefix_shapes() {
    let p = |s: &str| expected_prefix(&s.chars().collect::<Vec<_>>()).into_iter().collect::<String>();
    assert_eq!(p("AT+CGPADDR"), "+CGPADDR");
    assert_eq!(p("AT+CREG?"), "+CREG");
    assert_eq!(p("AT^NRFREQLOCK=3,0"), "^NRFREQLOCK");
    assert_eq!(p("ATI"), "I");
    assert_eq!(p("ping"), "");
}

#[test]
fn command_bytes_are_trimmed_and_terminated() {
    assert_eq!(command_bytes("  AT+CSQ \r\n"), b"AT+CSQ\r\n".to_vec());
}

#[test]
fn response_constructors() {
    let ok = ATResponse::ok(Some("x".to_string()));
    assert!(ok.success && ok.error.is_none());
    let e = ATResponse::error("bad".to_string());
    assert!(!e.success && e.data.is_none());
    assert_eq!(e.error.as_deref(), Some("bad"));
}

#[test]
fn events_answer_exactly_once() {
    let mut t = Transaction::new("AT+FAKE");
    assert!(t.on_event(TxnEvent::Tick(9_000)).0.is_none());
    let (r, urc) = t.on_event(TxnEvent::Line("RING".to_string()));
    assert!(r.is_none() && urc);
    let (r, _) = t.on_event(TxnEvent::Tick(10_001));
    assert_eq!(r.unwrap().error.as_deref(), Some("Timeout"));
    assert!(t.on_event(TxnEvent::Line("OK".to_string())).0.is_none());
    assert!(t.on_event(TxnEvent::Closed).0.is_none());
    let mut c = Transaction::new("AT");
    assert_eq!(c.on_event(TxnEvent::Closed).0.unwrap().error.as_deref(), Some("Connection closed"));
}
