use httpserver::headers::Headers;
use httpserver::httpresponse::{HttpResponse, ResponseBody};

#[test]
fn test_response_struct_creation_200() {
    let response_actual = HttpResponse::new("200", None, Some(ResponseBody::Text("xxxx".into())));

    let mut h = Headers::new();
    h.insert("Content-Type".into(), "text/html".into());
    assert_eq!(
        (
            response_actual.version(),
            response_actual.status_code(),
            response_actual.status_text(),
            response_actual.header_fields(),
            response_actual.body(),
        ),
        ("HTTP/1.1", "200", "OK", Some(&h), Some(&ResponseBody::Text("xxxx".into())))
    );
}

#[test]
fn test_response_struct_creation_404() {
    let response_actual = HttpResponse::new("404", None, Some(ResponseBody::Text("xxxx".into())));

    let mut h = Headers::new();
    h.insert("Content-Type".into(), "text/html".into());
    assert_eq!(
        (
            response_actual.version(),
            response_actual.status_code(),
            response_actual.status_text(),
            response_actual.header_fields(),
            response_actual.body(),
        ),
        ("HTTP/1.1", "404", "Not Found", Some(&h), Some(&ResponseBody::Text("xxxx".into())))
    );
}

#[test]
fn response_wire_bytes() {
    let response = HttpResponse::new("404", None, Some(ResponseBody::Text("xxxx".into())));
    let expected = "HTTP/1.1 404 Not Found\r\nContent-Type:text/html\r\nContent-Length: 4\r\n\r\nxxxx";
    assert_eq!(response.to_bytes(), expected.as_bytes().to_vec());
}

fn text(s: &str) -> Option<ResponseBody> {
    Some(ResponseBody::Text(s.to_string()))
}

#[test]
fn status_text_table() {
    assert_eq!(HttpResponse::new("200", None, None).status_text(), "OK");
    assert_eq!(HttpResponse::new("400", None, None).status_text(), "Bad Request");
    assert_eq!(HttpResponse::new("404", None, None).status_text(), "Not Found");
    assert_eq!(HttpResponse::new("500", None, None).status_text(), "Internal Server Error");
}

#[test]
fn unknown_status_code_falls_back_to_not_found() {
    let response = HttpResponse::new("999", None, None);
    assert_eq!(response.status_code(), "999");
    assert_eq!(response.status_text(), "Not Found");
    assert_eq!(HttpResponse::new("", None, None).status_text(), "Not Found");
    assert_eq!(HttpResponse::new("2000", None, None).status_text(), "Not Found");
    assert_eq!(HttpResponse::new("201", None, None).status_text(), "Not Found");
}

#[test]
fn default_response() {
    let response = HttpResponse::default();
    assert_eq!(response.version(), "HTTP/1.1");
    assert_eq!(response.status_code(), "200");
    assert_eq!(response.status_text(), "OK");
    assert_eq!(response.header_fields(), None);
    assert_eq!(response.body(), None);
    assert_eq!(response.headers(), "");
    assert_eq!(response.bodylen(), 0);
    assert_eq!(response.to_bytes(), b"HTTP/1.1 200 OK\r\nContent-Length: 0\r\n\r\n".to_vec());
}

#[test]
fn supplied_headers_are_kept() {
    let mut h = Headers::new();
    h.insert("Content-Type".into(), "text/css".into());
    h.insert("X-Other".into(), " v".into());
    let response = HttpResponse::new("200", Some(h.clone()), text("body {}"));
    assert_eq!(response.header_fields(), Some(&h));
    assert_eq!(response.headers(), "Content-Type:text/css\r\nX-Other: v\r\n");
    assert_eq!(
        response.to_bytes(),
        b"HTTP/1.1 200 OK\r\nContent-Type:text/css\r\nX-Other: v\r\nContent-Length: 7\r\n\r\nbody {}"
            .to_vec()
    );
}

#[test]
fn empty_supplied_headers_stay_empty() {
    let response = HttpResponse::new("200", Some(Headers::new()), text("x"));
    assert_eq!(response.headers(), "");
    assert_eq!(response.to_bytes(), b"HTTP/1.1 200 OK\r\nContent-Length: 1\r\n\r\nx".to_vec());
}

#[test]
fn content_length_counts_bytes_of_text() {
    let response = HttpResponse::new("200", None, text("h\u{e9}llo \u{4e16}\u{754c}"));
    assert_eq!(response.bodylen(), 13);
    let bytes = response.to_bytes();
    let expected = "HTTP/1.1 200 OK\r\nContent-Type:text/html\r\nContent-Length: 13\r\n\r\nh\u{e9}llo \u{4e16}\u{754c}";
    assert_eq!(bytes, expected.as_bytes().to_vec());
}

#[test]
fn content_length_counts_bytes_of_binary() {
    let data: Vec<u8> = vec![0, 159, 146, 150, 255, 13, 10, 13, 10, 0, 1];
    let response = HttpResponse::new("200", None, Some(ResponseBody::Binary(data.clone())));
    assert_eq!(response.bodylen(), 11);
    let mut expected = b"HTTP/1.1 200 OK\r\nContent-Type:text/html\r\nContent-Length: 11\r\n\r\n".to_vec();
    expected.extend_from_slice(&data);
    assert_eq!(response.to_bytes(), expected);
}

#[test]
fn absent_body_has_length_zero() {
    let response = HttpResponse::new("404", None, None);
    assert_eq!(response.bodylen(), 0);
    assert_eq!(
        response.to_bytes(),
        b"HTTP/1.1 404 Not Found\r\nContent-Type:text/html\r\nContent-Length: 0\r\n\r\n".to_vec()
    );
    let response = HttpResponse::new("200", None, text(""));
    assert_eq!(response.bodylen(), 0);
}

#[test]
fn long_body_has_a_long_content_length() {
    let body = "x".repeat(12345);
    let response = HttpResponse::new("200", None, text(&body));
    let bytes = response.to_bytes();
    let head = b"HTTP/1.1 200 OK\r\nContent-Type:text/html\r\nContent-Length: 12345\r\n\r\n";
    assert_eq!(bytes.len(), head.len() + 12345);
    assert_eq!(&bytes[..head.len()], &head[..]);
    assert_eq!(&bytes[head.len()..], body.as_bytes());
}

#[test]
fn body_to_bytes() {
    assert_eq!(ResponseBody::Text("h\u{e9}".into()).to_bytes(), Some(&[104u8, 195, 169][..]));
    assert_eq!(ResponseBody::Binary(vec![1, 2, 3]).to_bytes(), Some(&[1u8, 2, 3][..]));
    assert_eq!(ResponseBody::Binary(vec![]).to_bytes(), Some(&[][..]));
}

#[test]
fn send_response_appends_the_wire_bytes() {
    let response = HttpResponse::new("200", None, text("hi"));
    let mut stream: Vec<u8> = b"earlier".to_vec();
    response.send_response(&mut stream);
    let mut expected = b"earlier".to_vec();
    expected.extend_from_slice(&response.to_bytes());
    assert_eq!(stream, expected);
    assert_eq!(
        stream,
        b"earlierHTTP/1.1 200 OK\r\nContent-Type:text/html\r\nContent-Length: 2\r\n\r\nhi".to_vec()
    );
}

#[test]
fn clones_are_equal() {
    let response = HttpResponse::new("500", None, Some(ResponseBody::Binary(vec![9, 8])));
    let copy = response.clone();
    assert_eq!(copy, response);
    assert_eq!(copy.to_bytes(), response.to_bytes());
    let body = ResponseBody::Text("t".into());
    assert_eq!(body.clone(), body);
}
