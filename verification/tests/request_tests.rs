use http::client::Client;
use http::headers::HeaderSet;
use http::methods::Method;

fn bytes_contain(haystack: &[u8], needle: &[u8]) -> bool {
    if needle.is_empty() {
        return true;
    }
    if haystack.len() < needle.len() {
        return false;
    }
    for start in 0..=(haystack.len() - needle.len()) {
        if &haystack[start..start + needle.len()] == needle {
            return true;
        }
    }
    false
}

#[test]
fn method_tokens() {
    assert_eq!(Method::GET.as_slice(), "GET");
    assert_eq!(Method::POST.as_slice(), "POST");
    assert_eq!(Method::PUT.as_slice(), "PUT");
    assert_eq!(Method::DELETE.as_slice(), "DELETE");
    assert_eq!(Method::HEAD.as_slice(), "HEAD");
    assert_eq!(Method::TRACE.as_slice(), "TRACE");
    assert_eq!(Method::OPTIONS.as_slice(), "OPTIONS");
    assert_eq!(Method::PATCH.as_slice(), "PATCH");
    assert_eq!(Method::CONNECT.as_slice(), "CONNECT");
    assert_eq!(Method::GET.as_bytes(), b"GET");
}

#[test]
fn request_head_exact_bytes() {
    let client = Client::new();
    let mut hdr = HeaderSet::new();
    hdr.set(String::from("test"), String::from("toto"));
    let head = client.request_head(Method::GET, "/", Some(&hdr));
    assert_eq!(head, b"GET /\r\ntest: toto\r\n\r\n".to_vec());
}

#[test]
fn request_head_without_headers() {
    let client = Client::new();
    let head = client.request_head(Method::POST, "/index.html", None);
    assert_eq!(head, b"POST /index.html\r\n\r\n".to_vec());
}

#[test]
fn request_bytes_injects_content_length_and_body() {
    let client = Client::new();
    let body = b"tatayoyo";
    let out = client.request_bytes(Method::PUT, "/up", None, Some(body));
    assert_eq!(out, b"PUT /up\r\nContent-Length: 8\r\n\r\ntatayoyo".to_vec());
}

#[test]
fn request_bytes_replaces_given_content_length() {
    let client = Client::new();
    let mut hdr = HeaderSet::new();
    hdr.set(String::from("Content-Length"), String::from("999"));
    let out = client.request_bytes(Method::POST, "/", Some(&hdr), Some(b"ab"));
    assert_eq!(out, b"POST /\r\nContent-Length: 2\r\n\r\nab".to_vec());
}

#[test]
fn permanent_property_appears_in_request() {
    let mut client = Client::new();
    client.set_property(String::from("perm"), String::from("test"));
    let head = client.request_bytes(Method::GET, "/", None, None);
    assert!(bytes_contain(&head, b"perm: test\r\n"));
}

#[test]
fn unset_permanent_property_is_absent_from_request() {
    let mut client = Client::new();
    client.set_property(String::from("perm"), String::from("test"));
    client.unset_property(&String::from("perm"));
    let head = client.request_bytes(Method::GET, "/", None, None);
    assert!(!bytes_contain(&head, b"perm"));
    assert_eq!(head, b"GET /\r\n\r\n".to_vec());
}

#[test]
fn explicit_header_wins_over_permanent() {
    let mut client = Client::new();
    client.set_property(String::from("k"), String::from("perm-value"));
    let mut hdr = HeaderSet::new();
    hdr.set(String::from("k"), String::from("explicit-value"));
    let head = client.request_head(Method::GET, "/", Some(&hdr));
    assert!(bytes_contain(&head, b"k: explicit-value\r\n"));
    assert!(!bytes_contain(&head, b"perm-value"));
}

#[test]
fn merged_head_lists_explicit_pairs_before_permanent_ones() {
    let mut client = Client::new();
    client.set_property(String::from("a"), String::from("1"));
    let mut hdr = HeaderSet::new();
    hdr.set(String::from("b"), String::from("2"));
    let head = client.request_head(Method::GET, "/", Some(&hdr));
    assert_eq!(head, b"GET /\r\nb: 2\r\na: 1\r\n\r\n".to_vec());
}

#[test]
fn round_trip_request_and_reply() {
    let client = Client::new();
    let mut hdr = HeaderSet::new();
    hdr.set(String::from("test"), String::from("toto"));
    let head = client.request_head(Method::GET, "/", Some(&hdr));
    assert_eq!(head, b"GET /\r\ntest: toto\r\n\r\n".to_vec());

    let wire = b"HTTP/1.1 200 OK\r\nContent-Length: 5\r\n\r\nhello";
    let mut reply = http::messages::HttpReply::parse(wire).unwrap();
    assert_eq!(reply.get_version().as_str(), "HTTP/1.1");
    assert_eq!(reply.get_code(), 200);
    assert_eq!(reply.get_status().as_str(), "OK");
    let names = reply.get_properties_name();
    assert_eq!(names, vec![String::from("Content-Length")]);
    assert_eq!(
        reply.get_property(&String::from("Content-Length")),
        Some(&String::from("5"))
    );
    assert_eq!(reply.read_all().unwrap(), b"hello".to_vec());
}
