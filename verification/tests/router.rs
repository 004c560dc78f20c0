use httpserver::handler::{Action, FileKind, Pending, Source};
use httpserver::httprequest::HttpRequst;
use httpserver::httpresponse::{HttpResponse, ResponseBody};
use httpserver::router::Router;
use httpserver::server::{Server, READ_BUFFER_SIZE};

const INDEX: &str = "<html><body>index</body></html>";
const HEALTH: &str = "<html><body>healthy</body></html>";
const NOT_FOUND: &str = "<html><body>404: no such page</body></html>";
const STYLES: &str = "body { margin: 0 }";
const LOGO: [u8; 6] = [137, 80, 78, 71, 13, 10];
const DATASET: &str = "[\n  {\n    \"name\": \"Amber\",\n    \"level\": 20,\n    \"health\": 793.5,\n    \"element\": \"Pyro\",\n    \"skills\": [\n      \"Sharpshooter\",\n      \"Explosive Puppet\"\n    ]\n  }\n]";

/// Stands in for the file system and the dataset.
fn load(source: &Source) -> Option<ResponseBody> {
    match source {
        Source::Dataset => Some(ResponseBody::Text(DATASET.to_string())),
        Source::File(name) => {
            let kind = FileKind::of(name)?;
            let found: Option<&[u8]> = match name.as_str() {
                "index.html" => Some(INDEX.as_bytes()),
                "health.html" => Some(HEALTH.as_bytes()),
                "404.html" => Some(NOT_FOUND.as_bytes()),
                "styles.css" => Some(STYLES.as_bytes()),
                "css/style.css" => Some(STYLES.as_bytes()),
                "img/icons/logo.png" => Some(&LOGO),
                "logo.png" => Some(&LOGO),
                _ => None,
            };
            found.map(|bytes| match kind {
                FileKind::Text => ResponseBody::Text(String::from_utf8(bytes.to_vec()).unwrap()),
                FileKind::Binary => ResponseBody::Binary(bytes.to_vec()),
            })
        }
    }
}

/// Runs an exchange to its response and counts the loads.
fn serve(message: &str) -> (HttpResponse<'static>, usize) {
    let req = HttpRequst::from(message.to_string());
    let mut action = Router::route(&req);
    let mut loads = 0;
    loop {
        match action {
            Action::Respond(response) => return (response, loads),
            Action::Load(source, pending) => {
                loads += 1;
                assert!(loads <= 2);
                action = pending.resume(load(&source));
            }
        }
    }
}

fn get(path: &str) -> (HttpResponse<'static>, usize) {
    serve(&format!("GET {} HTTP/1.1\r\nHost: localhost:3000\r\n\r\n", path))
}

fn text(s: &str) -> ResponseBody {
    ResponseBody::Text(s.to_string())
}

#[test]
fn get_root_is_the_index_page() {
    let (response, loads) = get("/");
    assert_eq!(response.status_code(), "200");
    assert_eq!(response.body(), Some(&text(INDEX)));
    assert_eq!(response.headers(), "Content-Type:text/html\r\n");
    assert_eq!(loads, 1);
}

#[test]
fn get_health_is_the_health_page() {
    let (response, _) = get("/health");
    assert_eq!(response.status_code(), "200");
    assert_eq!(response.body(), Some(&text(HEALTH)));
}

#[test]
fn get_characters_is_the_dataset() {
    let (response, loads) = get("/api/shipping/characters");
    assert_eq!(response.status_code(), "200");
    assert_eq!(response.body(), Some(&text(DATASET)));
    assert_eq!(response.headers(), "Content-Type:application/json\r\n");
    assert_eq!(loads, 1);
    let mut expected = format!(
        "HTTP/1.1 200 OK\r\nContent-Type:application/json\r\nContent-Length: {}\r\n\r\n",
        DATASET.len()
    )
    .into_bytes();
    expected.extend_from_slice(DATASET.as_bytes());
    assert_eq!(response.to_bytes(), expected);
}

#[test]
fn get_unknown_api_is_404() {
    for path in ["/api/unknown", "/api", "/api/shipping"] {
        let (response, loads) = get(path);
        assert_eq!(response.status_code(), "404", "{}", path);
        assert_eq!(response.body(), Some(&text(NOT_FOUND)), "{}", path);
        assert_eq!(loads, 1);
    }
}

#[test]
fn post_is_404() {
    for message in ["POST /anything HTTP/1.1\r\n\r\n", "POST / HTTP/1.1\r\n\r\n",
        "POST /api/shipping/characters HTTP/1.1\r\n\r\n", "PUT /index HTTP/1.1\r\n\r\n", ""]
    {
        let (response, loads) = serve(message);
        assert_eq!(response.status_code(), "404", "{:?}", message);
        assert_eq!(response.status_text(), "Not Found");
        assert_eq!(response.body(), Some(&text(NOT_FOUND)));
        assert_eq!(loads, 1);
    }
}

#[test]
fn missing_static_file_is_404_with_the_404_page() {
    let (response, loads) = get("/no-such-page");
    assert_eq!(response.status_code(), "404");
    assert_eq!(response.status_text(), "Not Found");
    assert_eq!(response.body(), Some(&text(NOT_FOUND)));
    assert_eq!(response.bodylen(), NOT_FOUND.len());
    assert_eq!(loads, 2);
    let expected = format!(
        "HTTP/1.1 404 Not Found\r\nContent-Type:text/html\r\nContent-Length: {}\r\n\r\n{}",
        NOT_FOUND.len(),
        NOT_FOUND
    );
    assert_eq!(response.to_bytes(), expected.into_bytes());
}

#[test]
fn unsupported_extension_without_its_page_is_404() {
    let (response, loads) = get("/program.exe");
    assert_eq!(response.status_code(), "404");
    assert_eq!(response.body(), Some(&text(NOT_FOUND)));
    assert_eq!(loads, 2);
}

#[test]
fn static_files_are_served_with_their_type() {
    let (response, _) = get("/styles.css");
    assert_eq!(response.status_code(), "200");
    assert_eq!(response.headers(), "Content-Type:text/css\r\n");
    assert_eq!(response.body(), Some(&text(STYLES)));

    let (response, _) = get("/logo.png");
    assert_eq!(response.status_code(), "200");
    assert_eq!(response.headers(), "Content-Type:image/png\r\n");
    assert_eq!(response.body(), Some(&ResponseBody::Binary(LOGO.to_vec())));
    assert_eq!(response.bodylen(), 6);
}

#[test]
fn files_in_directories_are_served_with_their_type() {
    let (response, loads) = get("/css/style.css");
    assert_eq!(response.status_code(), "200");
    assert_eq!(response.status_text(), "OK");
    assert_eq!(response.headers(), "Content-Type:text/css\r\n");
    assert_eq!(response.body(), Some(&text(STYLES)));
    assert_eq!(loads, 1);

    let (response, _) = get("/img/icons/logo.png");
    assert_eq!(response.status_code(), "200");
    assert_eq!(response.headers(), "Content-Type:image/png\r\n");
    assert_eq!(response.body(), Some(&ResponseBody::Binary(LOGO.to_vec())));
}

#[test]
fn missing_file_in_a_directory_is_404() {
    for path in ["/css/other.css", "/css", "/css/", "/dir.v2/readme"] {
        let (response, loads) = get(path);
        assert_eq!(response.status_code(), "404", "{}", path);
        assert_eq!(response.body(), Some(&text(NOT_FOUND)), "{}", path);
        assert_eq!(loads, 2);
    }
}

#[test]
fn path_without_a_leading_slash_is_the_index_page() {
    let (response, _) = serve("GET index HTTP/1.1\r\n\r\n");
    assert_eq!(response.status_code(), "200");
    assert_eq!(response.body(), Some(&text(INDEX)));
}

#[test]
fn first_actions() {
    let req = HttpRequst::from("GET /api/shipping/characters HTTP/1.1\r\n\r\n".to_string());
    assert!(matches!(Router::route(&req), Action::Load(Source::Dataset, Pending::Dataset)));
    let req = HttpRequst::from("GET /apis HTTP/1.1\r\n\r\n".to_string());
    match Router::route(&req) {
        Action::Load(Source::File(name), Pending::Page(content_type)) => {
            assert_eq!(name, "apis.html");
            assert_eq!(content_type, "text/html");
        }
        other => panic!("unexpected {:?}", other),
    }
    let req = HttpRequst::from("POST /apis HTTP/1.1\r\n\r\n".to_string());
    match Router::route(&req) {
        Action::Load(Source::File(name), Pending::NotFoundPage) => assert_eq!(name, "404.html"),
        other => panic!("unexpected {:?}", other),
    }
}

#[test]
fn received_bytes_are_parsed_and_routed() {
    let message = b"GET /styles.css HTTP/1.1\r\nHost: h\r\n\r\n".to_vec();
    match Server::receive(message) {
        Action::Load(Source::File(name), Pending::Page(content_type)) => {
            assert_eq!(name, "styles.css");
            assert_eq!(content_type, "text/css");
        }
        other => panic!("unexpected {:?}", other),
    }
    let message = "GET /caf\u{e9}.txt HTTP/1.1\r\n\r\n".as_bytes().to_vec();
    match Server::receive(message) {
        Action::Load(Source::File(name), Pending::Page(content_type)) => {
            assert_eq!(name, "caf\u{e9}.txt");
            assert_eq!(content_type, "text/plain");
        }
        other => panic!("unexpected {:?}", other),
    }
    assert!(matches!(
        Server::receive(b"GET /api/shipping/characters HTTP/1.1\r\n\r\n".to_vec()),
        Action::Load(Source::Dataset, Pending::Dataset)
    ));
}

#[test]
fn received_bytes_that_are_not_text_get_the_404_page() {
    for message in [vec![0xffu8, 0xfe], b"GET / HTTP/1.1\r\n\xc3\r\n".to_vec(), vec![0xed, 0xa0, 0x80]]
    {
        match Server::receive(message) {
            Action::Load(Source::File(name), Pending::NotFoundPage) => {
                assert_eq!(name, "404.html")
            }
            other => panic!("unexpected {:?}", other),
        }
    }
}

#[test]
fn server_keeps_its_address() {
    let server = Server::new("localhost:3000");
    assert_eq!(server.socket_addr(), "localhost:3000");
    assert_eq!(READ_BUFFER_SIZE, 16 * 1024);
}
