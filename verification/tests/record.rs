//! Tests of the request log record: rendering and the exactly-once
//! emission lifecycle.

use reqlog::LogRequest;
use reqlog::LogSink;
use reqlog::RemoteAddr;
use reqlog::VecSink;

fn sample_request() -> hyper::Request<()> {
    hyper::Request::builder()
        .method("GET")
        .uri("/index.html")
        .header("host", "example.com")
        .header("user-agent", "tester")
        .body(())
        .unwrap()
}

#[test]
fn render_unset_fields() {
    let req = sample_request();
    let lr: LogRequest<String> = LogRequest::from_request(&req);
    let line = lr.render_line("7ms");
    assert_eq!(
        line,
        "request: [???] <unknown-remote> example.com GET /index.html HTTP/1.1 tester \"\" 7ms\n"
    );
    lr.discard();
}

#[test]
fn render_full_line() {
    let req = sample_request();
    let mut lr: LogRequest<String> = LogRequest::from_request(&req);
    lr.set_user(String::from("alice liddell"));
    lr.set_action(String::from("fetch"));
    lr.set_remote(RemoteAddr::V4 { a: 192, b: 168, c: 0, d: 1, port: 8080 });
    let resp = hyper::Response::builder().status(404).body(()).unwrap();
    lr.set_response(&resp);
    let line = lr.render_line("12ms");
    assert_eq!(
        line,
        "request: [fetch:404] \"alice liddell\" 192.168.0.1:8080 example.com GET /index.html HTTP/1.1 tester \"\" 12ms\n"
    );
    lr.discard();
}

#[test]
fn write_emits_exactly_one_line() {
    let req = sample_request();
    let lr: LogRequest<String> = LogRequest::from_request(&req);
    let mut sink = VecSink::new();
    lr.write(&mut sink).unwrap();
    assert_eq!(sink.line_count(), 1);
    let line = sink.line(0);
    assert!(line.starts_with("request: [???] <unknown-remote> example.com GET"));
    assert!(line.ends_with("\n"));
    assert_eq!(line.matches('\n').count(), 1);
}

#[test]
fn discard_emits_nothing() {
    let req = sample_request();
    let mut lr: LogRequest<String> = LogRequest::from_request(&req);
    lr.set_user(String::from("nobody"));
    lr.discard();
}

#[test]
fn finalize_is_exactly_once() {
    let req = sample_request();
    let mut lr: LogRequest<String> = LogRequest::from_request(&req);
    let first = lr.finalize_line();
    assert!(first.is_some());
    let line = first.unwrap();
    assert!(line.starts_with("request: [???] <unknown-remote> example.com"));
    assert!(line.ends_with("\n"));
    let second = lr.finalize_line();
    assert!(second.is_none());
}

#[test]
fn mapped_remote_renders_dotted() {
    let req = sample_request();
    let mut lr: LogRequest<String> = LogRequest::from_request(&req);
    // ten zero bytes, 0xff 0xff, then 203.0.113.5
    lr.set_remote(RemoteAddr::V6 {
        groups: [0, 0, 0, 0, 0, 0xffff, 0xcb00, 0x7105],
        port: 443,
    });
    let line = lr.render_line("1ms");
    assert!(line.contains(" 203.0.113.5:443 "));
    lr.discard();
}

#[test]
fn native_ipv6_renders_compressed() {
    let req = sample_request();
    let mut lr: LogRequest<String> = LogRequest::from_request(&req);
    lr.set_remote(RemoteAddr::V6 {
        groups: [0x2001, 0xdb8, 0, 0, 0, 0, 0, 1],
        port: 8080,
    });
    let line = lr.render_line("1ms");
    assert!(line.contains(" 2001:db8::1:8080 "));
    lr.discard();
}

#[test]
fn loopback_ipv6_renders_double_colon() {
    let req = sample_request();
    let mut lr: LogRequest<String> = LogRequest::from_request(&req);
    lr.set_remote(RemoteAddr::V6 { groups: [0, 0, 0, 0, 0, 0, 0, 1], port: 80 });
    let line = lr.render_line("1ms");
    assert!(line.contains(" ::1:80 "));
    lr.discard();
}

#[test]
fn forwarded_for_strips_mapped_prefix() {
    let req = hyper::Request::builder()
        .method("GET")
        .uri("/")
        .header("x-forwarded-for", "::ffff:198.51.100.7")
        .body(())
        .unwrap();
    let lr: LogRequest<String> = LogRequest::from_request(&req);
    let line = lr.render_line("1ms");
    assert!(line.contains("<unknown-remote>/198.51.100.7 "));
    lr.discard();
}

#[test]
fn forwarded_for_without_prefix_is_escaped() {
    let req = hyper::Request::builder()
        .method("GET")
        .uri("/")
        .header("x-forwarded-for", "evil value")
        .body(())
        .unwrap();
    let lr: LogRequest<String> = LogRequest::from_request(&req);
    let line = lr.render_line("1ms");
    assert!(line.contains("<unknown-remote>/\"evil value\" "));
    lr.discard();
}

#[test]
fn header_values_pass_through_encoder() {
    let req = hyper::Request::builder()
        .method("POST")
        .uri("/submit")
        .header("host", "two words")
        .header("referer", "https://example.com/a")
        .body(())
        .unwrap();
    let lr: LogRequest<String> = LogRequest::from_request(&req);
    let line = lr.render_line("3ms");
    assert_eq!(
        line,
        "request: [???] <unknown-remote> \"two words\" POST /submit HTTP/1.1 \"\" https://example.com/a 3ms\n"
    );
    lr.discard();
}

#[test]
fn str_action_renders_verbatim() {
    let req = sample_request();
    let mut lr: LogRequest<&str> = LogRequest::from_request(&req);
    lr.set_action("static-label");
    let line = lr.render_line("1ms");
    assert!(line.starts_with("request: [static-label:???]"));
    lr.discard();
}

#[test]
fn setters_overwrite() {
    let req = sample_request();
    let mut lr: LogRequest<String> = LogRequest::from_request(&req);
    lr.set_user(String::from("first"));
    lr.set_user(String::from("second"));
    lr.set_action(String::from("one"));
    lr.set_action(String::from("two"));
    let line = lr.render_line("1ms");
    assert!(line.starts_with("request: [two:???] second "));
    assert!(!line.contains("first") && !line.contains("one:"));
    lr.discard();
}

#[test]
fn user_with_backslash_is_escaped() {
    let req = sample_request();
    let mut lr: LogRequest<String> = LogRequest::from_request(&req);
    lr.set_user(String::from("back\\slash"));
    let line = lr.render_line("1ms");
    assert!(line.contains("\"back\\\\slash\" "));
    lr.discard();
}

struct FailSink;

impl LogSink for FailSink {
    fn write_line(&mut self, _line: &str) -> Result<(), reqlog::WriteError> {
        Err(reqlog::WriteError { message: String::from("sink refused the line") })
    }
}

#[test]
fn write_failure_returns_error() {
    let req = sample_request();
    let lr: LogRequest<String> = LogRequest::from_request(&req);
    let mut sink = FailSink;
    let r = lr.write(&mut sink);
    match r {
        Ok(()) => panic!("write through a failing sink reported success"),
        Err(e) => assert_eq!(e.message, "sink refused the line"),
    }
}
