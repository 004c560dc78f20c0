use httpserver::headers::Headers;
use httpserver::httprequest::{
    process_header_line, process_req_line, HttpRequst, Method, Resource, Version,
};

#[test]
fn test_method_into() {
    let m: Method = "GET".into();
    assert_eq!(m, Method::Get);
}

#[test]
fn test_version_into() {
    let v: Version = "HTTP/1.1".into();
    assert_eq!(v, Version::V1_1);
}

#[test]
fn test_process_header() {
    let s = "Host: localhost";
    let (key, value) = process_header_line(s);

    assert_eq!(key, String::from("Host"));
    assert_eq!(value, String::from(" localhost"));
}

#[test]
fn test_process_req() {
    let s = "GET /greeting HTTP/1.1";
    let (method, res, version) = process_req_line(s);

    assert_eq!(method, Method::Get);
    assert_eq!(res, Resource::Path(String::from("/greeting")));
    assert_eq!(version, Version::V1_1);
}

#[test]
fn test_read_http() {
    let s: String = String::from(
        "\
            GET /greeting HTTP/1.1\r\n\
            Host: localhost:3000\r\n\
            User-Agent: curl/7.71.1\r\n\
            Accept: */*\r\n\r\n\
        ",
    );

    let mut headers_expected = Headers::new();
    headers_expected.insert("Host".into(), " localhost:3000".into());
    headers_expected.insert("Accept".into(), " */*".into());
    headers_expected.insert("User-Agent".into(), " curl/7.71.1".into());

    let req: HttpRequst = s.into();

    assert_eq!(Method::Get, req.method);
    assert_eq!(Version::V1_1, req.version);
    assert_eq!(Resource::Path("/greeting".to_string()), req.resource);
    assert_eq!(headers_expected, req.headers);
}

fn parse(text: &str) -> HttpRequst {
    HttpRequst::from(text.to_string())
}

#[test]
fn parses_the_greeting_request() {
    let req = parse("GET /greeting HTTP/1.1\r\nHost: localhost:3000\r\n\r\n");
    assert_eq!(req.method, Method::Get);
    assert_eq!(req.resource, Resource::Path("/greeting".to_string()));
    assert_eq!(req.version, Version::V1_1);
    assert_eq!(req.headers.len(), 1);
    assert_eq!(req.headers.get("Host"), Some(&" localhost:3000".to_string()));
    assert_eq!(req.msg_body, "");
}

#[test]
fn method_and_version_tokens() {
    assert_eq!(Method::from("POST"), Method::Post);
    assert_eq!(Method::from("PUT"), Method::Uninitialized);
    assert_eq!(Method::from("get"), Method::Uninitialized);
    assert_eq!(Method::from(""), Method::Uninitialized);
    assert_eq!(Version::from("HTTP/2.0"), Version::Uninitialized);
    assert_eq!(Version::from("HTTP/1.0"), Version::Uninitialized);
    assert_eq!(Version::from(""), Version::Uninitialized);
}

#[test]
fn header_value_is_everything_after_the_first_colon() {
    let (key, value) = process_header_line("Host: localhost:3000");
    assert_eq!(key, "Host");
    assert_eq!(value, " localhost:3000");

    let (key, value) = process_header_line("a:b:c:d");
    assert_eq!(key, "a");
    assert_eq!(value, "b:c:d");

    let (key, value) = process_header_line(":only");
    assert_eq!(key, "");
    assert_eq!(value, "only");

    let (key, value) = process_header_line("Empty:");
    assert_eq!(key, "Empty");
    assert_eq!(value, "");

    let (key, value) = process_header_line("no colon here");
    assert_eq!(key, "no colon here");
    assert_eq!(value, "");
}

#[test]
fn request_line_takes_the_first_three_words() {
    let (method, res, version) = process_req_line("  POST \t /a/b   HTTP/1.1  trailing words");
    assert_eq!(method, Method::Post);
    assert_eq!(res, Resource::Path("/a/b".to_string()));
    assert_eq!(version, Version::V1_1);

    let (method, res, version) = process_req_line("GET\u{3000}/wide\u{a0}HTTP/1.1");
    assert_eq!(method, Method::Get);
    assert_eq!(res, Resource::Path("/wide".to_string()));
    assert_eq!(version, Version::V1_1);
}

#[test]
fn request_line_with_missing_words() {
    let (method, res, version) = process_req_line("HTTP");
    assert_eq!(method, Method::Uninitialized);
    assert_eq!(res, Resource::Path(String::new()));
    assert_eq!(version, Version::Uninitialized);

    let (method, res, version) = process_req_line("GET /x");
    assert_eq!(method, Method::Get);
    assert_eq!(res, Resource::Path("/x".to_string()));
    assert_eq!(version, Version::Uninitialized);

    let (method, res, version) = process_req_line("");
    assert_eq!(method, Method::Uninitialized);
    assert_eq!(res, Resource::Path(String::new()));
    assert_eq!(version, Version::Uninitialized);
}

#[test]
fn empty_message_is_the_initial_request() {
    let req = parse("");
    assert_eq!(req.method, Method::Uninitialized);
    assert_eq!(req.version, Version::V1_1);
    assert_eq!(req.resource, Resource::Path(String::new()));
    assert_eq!(req.headers.len(), 0);
    assert_eq!(req.msg_body, "");
}

#[test]
fn lines_before_the_request_line_are_ignored() {
    let req = parse("\r\nX-Early: 1\r\nnoise\r\nGET /late HTTP/1.1\r\nHost: h\r\n\r\n");
    assert_eq!(req.method, Method::Get);
    assert_eq!(req.resource, Resource::Path("/late".to_string()));
    assert_eq!(req.headers.len(), 1);
    assert_eq!(req.headers.get("Host"), Some(&" h".to_string()));
    assert_eq!(req.headers.get("X-Early"), None);
}

#[test]
fn only_the_first_http_line_is_the_request_line() {
    let req = parse("GET /first HTTP/1.1\r\nUpgrade: HTTP/2.0\r\nPOST /second HTTP/1.1\r\n\r\n");
    assert_eq!(req.method, Method::Get);
    assert_eq!(req.resource, Resource::Path("/first".to_string()));
    assert_eq!(req.headers.len(), 1);
    assert_eq!(req.headers.get("Upgrade"), Some(&" HTTP/2.0".to_string()));
}

#[test]
fn unrecognized_tokens_read_as_uninitialized() {
    let req = parse("DELETE /thing HTTP/3\r\n\r\n");
    assert_eq!(req.method, Method::Uninitialized);
    assert_eq!(req.version, Version::Uninitialized);
    assert_eq!(req.resource, Resource::Path("/thing".to_string()));
}

#[test]
fn later_header_replaces_earlier_one() {
    let req = parse("GET / HTTP/1.1\r\nA: 1\r\nB: 2\r\nA: 3\r\n\r\n");
    assert_eq!(req.headers.len(), 2);
    assert_eq!(req.headers.get("A"), Some(&" 3".to_string()));
    assert_eq!(req.headers.get("B"), Some(&" 2".to_string()));
    assert_eq!(req.headers.to_text(), "A: 3\r\nB: 2\r\n");
}

#[test]
fn body_is_the_last_line_that_is_not_blank() {
    let req = parse("POST /submit HTTP/1.1\r\nHost: h\r\n\r\nfirst\r\n\r\nsecond: x\r\nHTTP last\r\n\r\n");
    assert_eq!(req.method, Method::Post);
    assert_eq!(req.headers.len(), 1);
    assert_eq!(req.msg_body, "HTTP last");

    let req = parse("POST /submit HTTP/1.1\r\n\r\nname=value");
    assert_eq!(req.msg_body, "name=value");
}

#[test]
fn line_endings() {
    let req = parse("GET /lf HTTP/1.1\nHost: h\n\nbody\r");
    assert_eq!(req.resource, Resource::Path("/lf".to_string()));
    assert_eq!(req.headers.get("Host"), Some(&" h".to_string()));
    assert_eq!(req.msg_body, "body\r");

    let req = parse("GET /cr HTTP/1.1\r\nKey: value\r\r\n\r\n");
    assert_eq!(req.headers.get("Key"), Some(&" value\r".to_string()));
}

#[test]
fn unrecognized_header_lines_are_ignored() {
    let req = parse("GET / HTTP/1.1\r\nnot a header\r\nHost: h\r\n\r\n");
    assert_eq!(req.headers.len(), 1);
    assert_eq!(req.headers.get("Host"), Some(&" h".to_string()));
    assert_eq!(req.msg_body, "");
}

#[test]
fn serialize_writes_the_message() {
    let req = parse("GET /greeting HTTP/1.1\r\nHost: localhost:3000\r\nAccept: */*\r\n\r\n");
    assert_eq!(
        req.serialize(),
        "GET /greeting HTTP/1.1\r\nHost: localhost:3000\r\nAccept: */*\r\n\r\n"
    );
    let req = parse("PATCH");
    assert_eq!(req.serialize(), "  HTTP/1.1\r\n\r\n");
}

#[test]
fn serialize_then_parse_gives_the_same_request() {
    let first = parse("POST /a?b=c HTTP/1.1\r\nHost: h:1\r\nX:  y \r\nHost: again\r\n\r\nthe body");
    let second = parse(&first.serialize());
    assert_eq!(second.method, Method::Post);
    assert_eq!(second.method, first.method);
    assert_eq!(second.version, first.version);
    assert_eq!(second.resource, first.resource);
    assert_eq!(second.headers, first.headers);
    assert_eq!(second.headers.to_text(), "Host: again\r\nX:  y \r\n");
    assert_eq!(second.msg_body, "the body");
}
