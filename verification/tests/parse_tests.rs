use http::errors::HttpError;
use http::messages::HttpReply;

#[test]
fn parse_simple_reply() {
    let bytes = b"HTTP/1.1 200 OK\r\nContent-Length: 5\r\n\r\nhello";
    let mut reply = HttpReply::parse(bytes).unwrap();
    assert_eq!(reply.get_version().as_str(), "HTTP/1.1");
    assert_eq!(reply.get_code(), 200);
    assert_eq!(reply.get_status().as_str(), "OK");
    assert_eq!(
        reply.get_property(&String::from("Content-Length")),
        Some(&String::from("5"))
    );
    assert_eq!(reply.get_length().unwrap(), 5);
    assert_eq!(reply.read_all().unwrap(), b"hello".to_vec());
}

#[test]
fn parse_malformed_status_line() {
    let r = HttpReply::parse(b"garbage\r\n\r\n");
    assert!(matches!(r, Err(HttpError::MalformedStatusLine)));
}

#[test]
fn parse_malformed_header_line() {
    let r = HttpReply::parse(b"HTTP/1.1 200 OK\r\nBadHeader\r\n\r\n");
    assert!(matches!(r, Err(HttpError::MalformedHeaderLine)));
}

#[test]
fn parse_colon_without_space_is_malformed() {
    let r = HttpReply::parse(b"HTTP/1.1 200 OK\r\nName:value\r\n\r\n");
    assert!(matches!(r, Err(HttpError::MalformedHeaderLine)));
}

#[test]
fn parse_empty_input_is_malformed_status() {
    let r = HttpReply::parse(b"");
    assert!(matches!(r, Err(HttpError::MalformedStatusLine)));
}

#[test]
fn parse_status_line_without_code_is_malformed() {
    let r = HttpReply::parse(b"HTTP/1.1\r\n\r\n");
    assert!(matches!(r, Err(HttpError::MalformedStatusLine)));
}

#[test]
fn parse_non_numeric_code_is_malformed() {
    let r = HttpReply::parse(b"HTTP/1.1 abc OK\r\n\r\n");
    assert!(matches!(r, Err(HttpError::MalformedStatusLine)));
}

#[test]
fn parse_code_too_large_is_malformed() {
    let r = HttpReply::parse(b"HTTP/1.1 4294967296 OK\r\n\r\n");
    assert!(matches!(r, Err(HttpError::MalformedStatusLine)));
}

#[test]
fn parse_code_at_u32_max_is_accepted() {
    let reply = HttpReply::parse(b"HTTP/1.1 4294967295 OK\r\n\r\n").unwrap();
    assert_eq!(reply.get_code(), u32::MAX);
}

#[test]
fn parse_status_text_keeps_spaces() {
    let reply = HttpReply::parse(b"HTTP/1.1 404 Not Found\r\n\r\n").unwrap();
    assert_eq!(reply.get_code(), 404);
    assert_eq!(reply.get_status().as_str(), "Not Found");
}

#[test]
fn parse_missing_status_text_is_empty() {
    let reply = HttpReply::parse(b"HTTP/1.1 204\r\n\r\n").unwrap();
    assert_eq!(reply.get_code(), 204);
    assert_eq!(reply.get_status().as_str(), "");
}

#[test]
fn parse_trims_trailing_whitespace() {
    let reply = HttpReply::parse(b"HTTP/1.1 200 OK  \r\nA: b \r\n\r\n").unwrap();
    assert_eq!(reply.get_status().as_str(), "OK");
    assert_eq!(reply.get_property(&String::from("A")), Some(&String::from("b")));
}

#[test]
fn parse_lf_only_line_endings() {
    let mut reply = HttpReply::parse(b"HTTP/1.0 200 OK\nContent-Length: 2\n\nok").unwrap();
    assert_eq!(reply.get_version().as_str(), "HTTP/1.0");
    assert_eq!(reply.read_all().unwrap(), b"ok".to_vec());
}

#[test]
fn parse_duplicate_header_keeps_later_value() {
    let reply = HttpReply::parse(b"HTTP/1.1 200 OK\r\nX: one\r\nX: two\r\n\r\n").unwrap();
    assert_eq!(reply.get_property(&String::from("X")), Some(&String::from("two")));
    assert_eq!(reply.get_properties_name().len(), 1);
}

#[test]
fn parse_value_may_hold_separator() {
    let reply = HttpReply::parse(b"HTTP/1.1 200 OK\r\nA: b: c\r\n\r\n").unwrap();
    assert_eq!(reply.get_property(&String::from("A")), Some(&String::from("b: c")));
}

#[test]
fn parse_header_names_are_case_sensitive() {
    let reply = HttpReply::parse(b"HTTP/1.1 200 OK\r\ncontent-length: 5\r\n\r\n").unwrap();
    assert_eq!(reply.get_property(&String::from("Content-Length")), None);
    assert!(matches!(
        reply.get_length(),
        Err(HttpError::MissingContentLength)
    ));
}

#[test]
fn parse_headers_end_at_input_end_without_blank_line() {
    let reply = HttpReply::parse(b"HTTP/1.1 200 OK\r\nA: b").unwrap();
    assert_eq!(reply.get_property(&String::from("A")), Some(&String::from("b")));
}

#[test]
fn parse_is_pure_replaying_bytes_gives_equal_replies() {
    let bytes = b"HTTP/1.1 301 Moved Permanently\r\nLocation: /new\r\nContent-Length: 0\r\n\r\n";
    let r1 = HttpReply::parse(bytes).unwrap();
    let r2 = HttpReply::parse(bytes).unwrap();
    assert_eq!(r1.get_version(), r2.get_version());
    assert_eq!(r1.get_code(), r2.get_code());
    assert_eq!(r1.get_status(), r2.get_status());
    assert_eq!(r1.iter(), r2.iter());
    assert_eq!(r1.get_length().unwrap(), r2.get_length().unwrap());
}

#[test]
fn describe_summarizes_the_reply() {
    let reply = HttpReply::parse(b"HTTP/1.1 200 OK\r\nContent-Length: 5\r\n\r\nhello").unwrap();
    assert_eq!(
        reply.describe(),
        "\tversion = HTTP/1.1\n\tcode = 200\n\tstatus = OK\n\tLength = 5\n"
    );
    let bare = HttpReply::parse(b"HTTP/1.1 204\r\n\r\n").unwrap();
    assert_eq!(bare.describe(), "\tversion = HTTP/1.1\n\tcode = 204\n\tstatus = \n");
}

#[test]
fn parse_iter_lists_headers_in_order() {
    let reply = HttpReply::parse(b"HTTP/1.1 200 OK\r\nB: 2\r\nA: 1\r\n\r\n").unwrap();
    let pairs = reply.iter();
    assert_eq!(
        pairs,
        vec![
            (String::from("B"), String::from("2")),
            (String::from("A"), String::from("1")),
        ]
    );
    let names = reply.get_properties_name();
    assert_eq!(names, vec![String::from("B"), String::from("A")]);
}
