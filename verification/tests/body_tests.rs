use http::errors::HttpError;
use http::messages::BodyReader;
use http::messages::HttpReply;

#[test]
fn missing_content_length_fails_but_reader_still_reads() {
    let mut reply = HttpReply::parse(b"HTTP/1.1 200 OK\r\nX: y\r\n\r\nleftover").unwrap();
    assert!(matches!(
        reply.get_length(),
        Err(HttpError::MissingContentLength)
    ));
    assert!(matches!(
        reply.read_all(),
        Err(HttpError::MissingContentLength)
    ));
    // Bypassing the declared length, the raw reader hands out what is there.
    assert_eq!(reply.get_reader().read_to_end(), b"leftover".to_vec());
}

#[test]
fn invalid_content_length_is_distinct_error() {
    let reply = HttpReply::parse(b"HTTP/1.1 200 OK\r\nContent-Length: abc\r\n\r\n").unwrap();
    assert!(matches!(
        reply.get_length(),
        Err(HttpError::InvalidContentLength)
    ));
}

#[test]
fn empty_content_length_line_is_malformed() {
    // Trailing whitespace is trimmed before the line is split, so a header
    // line with an empty value loses its ": " separator altogether.
    let r = HttpReply::parse(b"HTTP/1.1 200 OK\r\nContent-Length: \r\n\r\n");
    assert!(matches!(r, Err(HttpError::MalformedHeaderLine)));
}

#[test]
fn zero_content_length_is_ok_and_distinct_from_missing() {
    let mut reply = HttpReply::parse(b"HTTP/1.1 200 OK\r\nContent-Length: 0\r\n\r\nrest").unwrap();
    assert_eq!(reply.get_length().unwrap(), 0);
    assert_eq!(reply.read_all().unwrap(), Vec::<u8>::new());
    // The body bytes are still there for the raw reader.
    assert_eq!(reply.get_reader().read_to_end(), b"rest".to_vec());
}

#[test]
fn read_all_stops_at_declared_length() {
    let mut reply =
        HttpReply::parse(b"HTTP/1.1 200 OK\r\nContent-Length: 4\r\n\r\nabcdefgh").unwrap();
    assert_eq!(reply.read_all().unwrap(), b"abcd".to_vec());
    assert_eq!(reply.get_reader().read_to_end(), b"efgh".to_vec());
}

#[test]
fn read_all_returns_short_body_when_stream_ended() {
    let mut reply = HttpReply::parse(b"HTTP/1.1 200 OK\r\nContent-Length: 10\r\n\r\nabc").unwrap();
    assert_eq!(reply.read_all().unwrap(), b"abc".to_vec());
}

#[test]
fn read_string_decodes_utf8() {
    let mut reply =
        HttpReply::parse(b"HTTP/1.1 200 OK\r\nContent-Length: 5\r\n\r\nhello").unwrap();
    assert_eq!(reply.read_string().unwrap(), String::from("hello"));
}

#[test]
fn read_string_decodes_multibyte_utf8() {
    let mut reply =
        HttpReply::parse(b"HTTP/1.1 200 OK\r\nContent-Length: 2\r\n\r\n\xc3\xa9").unwrap();
    assert_eq!(reply.read_string().unwrap(), String::from("\u{e9}"));
}

#[test]
fn read_string_rejects_invalid_utf8() {
    let mut reply =
        HttpReply::parse(b"HTTP/1.1 200 OK\r\nContent-Length: 2\r\n\r\n\xff\xfe").unwrap();
    assert!(matches!(
        reply.read_string(),
        Err(HttpError::InvalidBodyEncoding)
    ));
}

#[test]
fn body_bytes_missing_tracks_the_declared_length() {
    let mut reply = HttpReply::parse(b"HTTP/1.1 200 OK\r\nContent-Length: 10\r\n\r\nabc").unwrap();
    assert_eq!(reply.body_bytes_missing(), 7);
    reply.get_reader().supply(b"defg");
    assert_eq!(reply.body_bytes_missing(), 3);
    reply.get_reader().supply(b"hij");
    assert_eq!(reply.body_bytes_missing(), 0);
    assert_eq!(reply.read_all().unwrap(), b"abcdefghij".to_vec());

    let no_length = HttpReply::parse(b"HTTP/1.1 200 OK\r\n\r\nabc").unwrap();
    assert_eq!(no_length.body_bytes_missing(), 0);
}

#[test]
fn head_is_complete_detects_the_blank_line() {
    assert!(http::messages::head_is_complete(b"HTTP/1.1 200 OK\r\n\r\n"));
    assert!(http::messages::head_is_complete(b"HTTP/1.1 200 OK\n\n"));
    assert!(!http::messages::head_is_complete(b"HTTP/1.1 200 OK\r\n"));
    assert!(!http::messages::head_is_complete(b""));
}

#[test]
fn body_reader_reads_in_steps() {
    let mut reader = BodyReader::new(b"abcdef".to_vec());
    assert_eq!(reader.remaining_len(), 6);
    assert_eq!(reader.read_up_to(2), b"ab".to_vec());
    assert_eq!(reader.read_up_to(3), b"cde".to_vec());
    assert_eq!(reader.remaining_len(), 1);
    assert_eq!(reader.read_up_to(9), b"f".to_vec());
    assert_eq!(reader.read_up_to(1), Vec::<u8>::new());
}

#[test]
fn body_reader_supply_appends_bytes() {
    let mut reply = HttpReply::parse(b"HTTP/1.1 200 OK\r\nContent-Length: 6\r\n\r\nabc").unwrap();
    reply.get_reader().supply(b"def");
    assert_eq!(reply.read_all().unwrap(), b"abcdef".to_vec());
}
