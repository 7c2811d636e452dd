use std::io::{Read, Write};

use slhs::router::refusal;
use slhs::text::str_eq;
use slhs::{HandlerNotFound, Request, Response, Router, TextMap, RW};

type Handler = Box<dyn Fn(Request, Response) -> (String, Vec<u8>)>;

fn handler(text: &'static str) -> Handler {
    Box::new(move |_req, res| res.end(text))
}

#[test]
fn text_map_insert_and_replace() {
    let mut m = TextMap::new();
    assert!(m.is_empty());
    assert_eq!(m.insert("a".to_string(), "1".to_string()), None);
    assert_eq!(m.insert("b".to_string(), "2".to_string()), None);
    assert_eq!(m.insert("a".to_string(), "3".to_string()), Some("1".to_string()));
    assert_eq!(m.len(), 2);
    assert_eq!(m.get("a").unwrap(), "3");
    assert!(m.contains_key("b"));
    assert!(!m.contains_key("c"));
    assert_eq!(m.entries()[0], ("a".to_string(), "3".to_string()));
}

#[test]
fn rw_reads_back_what_was_written() {
    let mut rw = RW::new(Vec::new());
    assert_eq!(rw.write_bytes(b"hello "), 6);
    rw.write_all(b"world").unwrap();
    rw.flush().unwrap();
    let mut buf = [0u8; 4];
    assert_eq!(rw.read_bytes(&mut buf), 4);
    assert_eq!(&buf, b"hell");
    let mut rest = Vec::new();
    rw.read_to_end(&mut rest).unwrap();
    assert_eq!(rest, b"o world".to_vec());
    let mut buf = [9u8; 3];
    assert_eq!(rw.read_bytes(&mut buf), 0);
    assert_eq!(buf, [9, 9, 9]);
    assert_eq!(rw.as_vec(), &b"hello world".to_vec());
    assert_eq!(rw.into_inner(), b"hello world".to_vec());
}

#[test]
fn rw_read_until_empty() {
    let data: Vec<u8> = (0..23u8).collect();
    let mut rw = RW::new(data.clone());
    let mut got = Vec::new();
    let mut buf = [0u8; 5];
    loop {
        let n = rw.read(&mut buf).unwrap();
        if n == 0 {
            break;
        }
        assert!(n <= 5);
        got.extend_from_slice(&buf[..n]);
    }
    assert_eq!(got, data);
    assert_eq!(&*rw, &data);
}

#[test]
fn rw_short_buffer_keeps_tail() {
    let mut rw = RW::new(vec![1, 2]);
    let mut buf = [0u8; 5];
    assert_eq!(rw.read_bytes(&mut buf), 2);
    assert_eq!(buf, [1, 2, 0, 0, 0]);
}

#[test]
fn routes_by_path_and_method() {
    let mut router: Router<Handler> = Router::default();
    router.get("/", handler("root")).post("/submit", handler("sent"));
    assert!(router.find_handler("get", "/").is_ok());
    assert_eq!(router.find_handler("post", "/").err(), Some(HandlerNotFound::NoMethod));
    assert_eq!(router.find_handler("get", "/nope").err(), Some(HandlerNotFound::NoPath));
    assert_eq!(router.find_handler("GET", "/").err(), Some(HandlerNotFound::NoMethod));
    assert_eq!(router.find_handler("delete", "/submit").err(), Some(HandlerNotFound::NoMethod));
    let (_, body) = router
        .invoke_handler("post", "/submit", empty_request(), Response::new(None))
        .ok()
        .unwrap();
    assert_eq!(body, b"sent".to_vec());
}

fn empty_request() -> Request {
    Request::new(TextMap::new(), None, TextMap::new())
}

#[test]
fn first_registration_wins() {
    let mut router: Router<Handler> = Router::new();
    router.get("/", handler("first"));
    router.get("/", handler("second"));
    router.post("/", handler("posted"));
    let (_, body) = router.respond("get", "/", empty_request(), Response::new(None));
    assert_eq!(body, b"first".to_vec());
    let (_, body) = router.respond("post", "/", empty_request(), Response::new(None));
    assert_eq!(body, b"posted".to_vec());
}

#[test]
fn refused_requests() {
    let mut router: Router<Handler> = Router::new();
    router.get("/only-get", handler("ok"));
    let (head, body) = router.respond("get", "/missing", empty_request(), Response::new(None));
    assert_eq!(head, "HTTP/1.1 404 Not Found\r\nContent-Length: 9\r\nServer: BootLeg-HTTP\r\n\r\n");
    assert_eq!(body, b"Not Found".to_vec());
    let (head, body) = router.respond("post", "/only-get", empty_request(), Response::new(None));
    assert_eq!(
        head,
        "HTTP/1.1 405 Method Not Allowed\r\nContent-Length: 18\r\nServer: BootLeg-HTTP\r\n\r\n"
    );
    assert_eq!(body, b"Method Not Allowed".to_vec());
    assert_eq!(refusal(HandlerNotFound::NoPath).1, b"Not Found".to_vec());
}

#[test]
fn handler_sees_request_parts() {
    let mut router: Router<Handler> = Router::new();
    router.get(
        "/greet",
        Box::new(|req: Request, res: Response| {
            let name = req.url_params.get("name").map(|s| s.as_str()).unwrap_or("Guest").to_string();
            res.end(format!("Hello, {}!", name))
        }),
    );
    let p = slhs::request::parse_request("GET /greet?name=Alice HTTP/1.1\r\nHost: x\r\n\r\n").unwrap();
    let res = Response::new(p.accepted);
    let (_, body) = router.respond(&p.method, &p.path, p.request, res);
    assert_eq!(body, b"Hello, Alice!".to_vec());
    let (_, body) = router.respond("get", "/greet", empty_request(), Response::new(None));
    assert_eq!(body, b"Hello, Guest!".to_vec());
}

#[test]
fn string_equality() {
    assert!(str_eq("abc", "abc"));
    assert!(!str_eq("abc", "abd"));
    assert!(!str_eq("ab", "abc"));
    assert!(str_eq("", ""));
}
