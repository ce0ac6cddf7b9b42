use scheme_gateway::env::{Env, Store};
use scheme_gateway::evaluator::{default_env, run_program, Effects, EvalError, HttpReply, Outcome};
use scheme_gateway::reader::parse_source;
use scheme_gateway::server::{
    extract_response, handle_request, parse_http_request, render_response, request_line_fields,
    status_text, ServeStep,
};
use scheme_gateway::value::Value;

const FUEL: u64 = 10_000;

const AUTH_PLUGIN: &str = r#"
;; Plugin configuration
(define config (table
  ("auth-server-url" "http://localhost:9000/auth")
  ("auth-header-name" "x-api-key")))

;; Called for every incoming HTTP request
(define (on-request req)
  (let ((header-name  (table-get config "auth-header-name"))
        (auth-url     (table-get config "auth-server-url"))
        (headers      (table-get req "headers"))
        (path         (table-get req "path")))
    (let ((header-value (table-get headers header-name)))
      (if (not header-value)
          (respond 401 "Missing auth header")
          (let ((auth-resp (http-get auth-url (table (header-name header-value)))))
            (if (= (table-get auth-resp "status") 200)
                (respond 200 (string-append "OK: " path " authorized"))
                (respond 403 "Forbidden: auth server rejected")))))))
"#;

const MOCK_AUTH: &str = r#"
;; Returns 200 if x-api-key is "valid-key", 403 otherwise
(define (on-request req)
  (let ((headers (table-get req "headers")))
    (let ((key (table-get headers "x-api-key")))
      (if (not key)
          (respond 403 "missing key")
          (if (string-eq? key "valid-key")
              (respond 200 "authenticated")
              (respond 403 "invalid key"))))))
"#;

fn load(src: &str) -> (Store, Env) {
    let exprs = parse_source(src).expect("plugin parses");
    let mut store = Store::new();
    let env = default_env(&mut store);
    let mut fx = Effects::new(Vec::new());
    let o = run_program(&exprs, env, &mut store, &mut fx, FUEL);
    assert!(matches!(o, Outcome::Value(_)));
    (store, env)
}

fn handle(store: &Store, env: Env, raw: &str, replies: Vec<HttpReply>) -> ServeStep {
    let mut st = store.duplicate();
    let mut fx = Effects::new(replies);
    handle_request(&mut st, env, raw, "127.0.0.1", &mut fx, FUEL)
}

fn response(step: ServeStep) -> String {
    match step {
        ServeStep::Respond(text) => text,
        other => panic!("expected a response, got {:?}", other),
    }
}

#[test]
fn gateway_rejects_missing_header() {
    let (store, env) = load(AUTH_PLUGIN);
    let text = response(handle(&store, env, "GET /api/users HTTP/1.1\r\nHost: localhost\r\n\r\n", Vec::new()));
    assert_eq!(
        text,
        "HTTP/1.1 401 Unauthorized\r\nContent-Length: 19\r\nContent-Type: text/plain\r\nConnection: close\r\n\r\nMissing auth header"
    );
}

#[test]
fn gateway_calls_auth_server_then_authorizes() {
    let (store, env) = load(AUTH_PLUGIN);
    let raw = "GET /api/users HTTP/1.1\r\nX-Api-Key: valid-key\r\n\r\n";
    match handle(&store, env, raw, Vec::new()) {
        ServeStep::Fetch(req) => {
            assert_eq!(req.url, "http://localhost:9000/auth");
            assert_eq!(req.headers, vec![("x-api-key".to_string(), "valid-key".to_string())]);
        }
        other => panic!("expected a fetch, got {:?}", other),
    }
    let ok = HttpReply { status: 200, body: "authenticated".to_string() };
    let text = response(handle(&store, env, raw, vec![ok]));
    assert!(text.starts_with("HTTP/1.1 200 OK\r\n"));
    assert!(text.ends_with("\r\n\r\nOK: /api/users authorized"));
    let no = HttpReply { status: 403, body: "invalid key".to_string() };
    let text = response(handle(&store, env, raw, vec![no]));
    assert!(text.starts_with("HTTP/1.1 403 Forbidden\r\n"));
    assert!(text.ends_with("Forbidden: auth server rejected"));
}

#[test]
fn mock_auth_server_checks_the_key() {
    let (store, env) = load(MOCK_AUTH);
    let good = response(handle(&store, env, "GET /auth HTTP/1.1\r\nx-api-key: valid-key\r\n\r\n", Vec::new()));
    assert!(good.ends_with("\r\n\r\nauthenticated"));
    let bad = response(handle(&store, env, "GET /auth HTTP/1.1\r\nx-api-key: bad-key\r\n\r\n", Vec::new()));
    assert!(bad.starts_with("HTTP/1.1 403 Forbidden"));
    assert!(bad.ends_with("invalid key"));
    let none = response(handle(&store, env, "GET /auth HTTP/1.1\r\n\r\n", Vec::new()));
    assert!(none.ends_with("missing key"));
}

#[test]
fn plugin_without_on_request_fails() {
    let (store, env) = load("(define x 1)");
    match handle(&store, env, "GET / HTTP/1.1\r\n\r\n", Vec::new()) {
        ServeStep::Failed(EvalError::UndefinedSymbol(s)) => assert_eq!(s, "on-request"),
        other => panic!("expected a failure, got {:?}", other),
    }
}

#[test]
fn request_table_fields() {
    let mut store = Store::new();
    let raw = "POST /api/users?id=42&x=1 HTTP/1.1\r\nHost:  example.com \r\nX-API-Key: abc\r\nno colon line\r\n\r\nX-After: body";
    let req = parse_http_request(raw, "10.0.0.7", &mut store);
    let t = match req {
        Value::Table(t) => t,
        other => panic!("{:?}", other),
    };
    let get = |k: &str| store.table_get(t, k).unwrap().display();
    assert_eq!(get("method"), "POST");
    assert_eq!(get("path"), "/api/users");
    assert_eq!(get("query"), "id=42&x=1");
    assert_eq!(get("remote-addr"), "10.0.0.7");
    let headers = match store.table_get(t, "headers").unwrap() {
        Value::Table(h) => h,
        other => panic!("{:?}", other),
    };
    assert_eq!(store.table_get(headers, "host").unwrap().display(), "example.com");
    assert_eq!(store.table_get(headers, "x-api-key").unwrap().display(), "abc");
    assert!(store.table_get(headers, "x-after").is_none());
}

#[test]
fn request_defaults_for_an_empty_request() {
    let mut store = Store::new();
    let req = parse_http_request("", "1.2.3.4", &mut store);
    let t = match req {
        Value::Table(t) => t,
        other => panic!("{:?}", other),
    };
    assert_eq!(store.table_get(t, "method").unwrap().display(), "GET");
    assert_eq!(store.table_get(t, "path").unwrap().display(), "/");
    assert_eq!(store.table_get(t, "query").unwrap().display(), "");
}

#[test]
fn extracting_a_response() {
    let mut store = Store::new();
    let (status, body) = extract_response(&Value::Int(1), &store);
    assert_eq!(status, 500);
    assert_eq!(body, "Internal Server Error: on-request must return (respond status body)");
    let t = store.new_table();
    let (status, body) = extract_response(&Value::Table(t), &store);
    assert_eq!((status, body.as_str()), (500, ""));
    store.table_set(t, "status".to_string(), Value::Int(201));
    store.table_set(t, "body".to_string(), Value::Int(7));
    let (status, body) = extract_response(&Value::Table(t), &store);
    assert_eq!((status, body.as_str()), (201, "7"));
}

#[test]
fn status_texts() {
    assert_eq!(status_text(200), "OK");
    assert_eq!(status_text(201), "Created");
    assert_eq!(status_text(400), "Bad Request");
    assert_eq!(status_text(401), "Unauthorized");
    assert_eq!(status_text(403), "Forbidden");
    assert_eq!(status_text(404), "Not Found");
    assert_eq!(status_text(429), "Too Many Requests");
    assert_eq!(status_text(500), "Internal Server Error");
    assert_eq!(status_text(418), "Unknown");
}

#[test]
fn rendering_a_response() {
    assert_eq!(
        render_response(404, "héllo"),
        "HTTP/1.1 404 Not Found\r\nContent-Length: 6\r\nContent-Type: text/plain\r\nConnection: close\r\n\r\nhéllo"
    );
    assert_eq!(
        render_response(-1, ""),
        "HTTP/1.1 -1 Unknown\r\nContent-Length: 0\r\nContent-Type: text/plain\r\nConnection: close\r\n\r\n"
    );
}

#[test]
fn plugin_failure_and_fuel() {
    let (store, env) = load("(define (on-request req) (undefined-fn))");
    assert!(matches!(handle(&store, env, "GET / HTTP/1.1\r\n\r\n", Vec::new()), ServeStep::Failed(_)));
    let (store, env) = load("(define (on-request req) (on-request req))");
    let mut st = store.duplicate();
    let mut fx = Effects::new(Vec::new());
    let step = handle_request(&mut st, env, "GET / HTTP/1.1\r\n\r\n", "1.1.1.1", &mut fx, 50);
    assert!(matches!(step, ServeStep::OutOfFuel));
}

#[test]
fn request_line_words_give_method_path_and_query() {
    let words: Vec<String> = ["PUT", "/x?y=1?z", "HTTP/1.1"].iter().map(|w| w.to_string()).collect();
    let (m, p, q) = request_line_fields(&words);
    assert_eq!((m.as_str(), p.as_str(), q.as_str()), ("PUT", "/x", "y=1?z"));
    let (m, p, q) = request_line_fields(&vec!["DELETE".to_string()]);
    assert_eq!((m.as_str(), p.as_str(), q.as_str()), ("DELETE", "/", ""));
    let (m, p, q) = request_line_fields(&Vec::new());
    assert_eq!((m.as_str(), p.as_str(), q.as_str()), ("GET", "/", ""));
}

#[test]
fn request_lines_may_end_with_a_bare_line_feed() {
    let mut store = Store::new();
    let raw = "GET /a HTTP/1.1\nHost: h\nX-One: 1\n\nBody: no";
    let t = match parse_http_request(raw, "::1", &mut store) {
        Value::Table(t) => t,
        other => panic!("{:?}", other),
    };
    let headers = match store.table_get(t, "headers").unwrap() {
        Value::Table(h) => h,
        other => panic!("{:?}", other),
    };
    assert_eq!(store.table_keys(headers), vec!["host".to_string(), "x-one".to_string()]);
    assert_eq!(store.table_get(headers, "x-one").unwrap().display(), "1");
}

#[test]
fn respond_then_extract_gives_status_and_body() {
    let mut store = Store::new();
    let r = scheme_gateway::builtins::builtin_respond(
        &[Value::Int(429), Value::Str("slow down".to_string())],
        &mut store,
    );
    let (status, body) = extract_response(&r, &store);
    assert_eq!(status, 429);
    assert_eq!(body, "slow down");
}

#[test]
fn handling_again_with_a_reply_keeps_earlier_output() {
    let src = "(define (on-request req) (begin (print \"before\") (define r (http-get \"http://a\")) (print \"after\") (respond (table-get r \"status\") (table-get r \"body\"))))";
    let (store, env) = load(src);
    let raw = "GET / HTTP/1.1\r\n\r\n";
    let mut st = store.duplicate();
    let mut fx = Effects::new(Vec::new());
    let first = handle_request(&mut st, env, raw, "1.1.1.1", &mut fx, FUEL);
    assert!(matches!(first, ServeStep::Fetch(_)));
    assert_eq!(fx.output, vec!["before".to_string()]);
    let mut st2 = store.duplicate();
    let mut fx2 = Effects::new(vec![HttpReply { status: 201, body: "made".to_string() }]);
    let second = handle_request(&mut st2, env, raw, "1.1.1.1", &mut fx2, FUEL);
    assert_eq!(fx2.output, vec!["before".to_string(), "after".to_string()]);
    let text = response(second);
    assert!(text.starts_with("HTTP/1.1 201 Created\r\n"));
    assert!(text.ends_with("\r\n\r\nmade"));
}

#[test]
fn plugin_readiness_is_the_definition_of_on_request() {
    let (store, env) = load(MOCK_AUTH);
    assert!(scheme_gateway::server::defines_on_request(&store, env));
    let (store, env) = load("(define x 1)");
    assert!(!scheme_gateway::server::defines_on_request(&store, env));
}
