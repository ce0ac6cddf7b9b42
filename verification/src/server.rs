use vstd::prelude::*;

use crate::builtins::{byte_len, int_at, ival, respond_store, str_at, sval};
use crate::env::{
    Assoc, Env, Store, StoreV, assoc_get, assoc_set, assoc_view, keys_unique,
    law_table_set_then_get, lemma_assoc_pos_found, lemma_assoc_set_get, spec_lookup, spec_new_table, spec_table_get, spec_table_set,
};
use crate::evaluator::{EvalError, Effects, HttpRequest, Outcome, apply, cfg};
use crate::laws::{law_apply_more_replies, law_apply_replay_extends, output_extends, settled, with_more};
use crate::semantics::{Config, ErrorV, OutcomeV, sem_apply, with_store};
use crate::semantics::spec_push_table;
use crate::text::{
    int_decimal, lines_of, nat_decimal, owned, spec_split_once, split_once, str_lines, str_lower,
    str_trim, str_words, to_lowercase, trim, usize_to_string, words_of, i64_to_string,
};
use crate::value::{Value, ValueV, display_spec, string_views};

verus! {

broadcast use vstd::std_specs::vec::group_vec_axioms;

/// The request line of a raw request: its first line, or nothing.
pub open spec fn request_line(raw: Seq<char>) -> Seq<char> {
    let lines = str_lines(raw);
    if lines.len() > 0 {
        lines[0]
    } else {
        Seq::empty()
    }
}

/// The method among the words of a request line: the first word, `GET` when there is none.
pub open spec fn words_method(words: Seq<Seq<char>>) -> Seq<char> {
    if words.len() > 0 {
        words[0]
    } else {
        "GET"@
    }
}

/// The target among the words of a request line: the second word, `/` when there is none.
pub open spec fn words_target(words: Seq<Seq<char>>) -> Seq<char> {
    if words.len() > 1 {
        words[1]
    } else {
        "/"@
    }
}

/// The path of a target: the target up to its first `?`.
pub open spec fn target_path(t: Seq<char>) -> Seq<char> {
    match spec_split_once(t, '?') {
        Some((p, _)) => p,
        None => t,
    }
}

/// The query of a target: what follows its first `?`, empty when it has none.
pub open spec fn target_query(t: Seq<char>) -> Seq<char> {
    match spec_split_once(t, '?') {
        Some((_, q)) => q,
        None => Seq::empty(),
    }
}

/// The method of a raw request.
pub open spec fn request_method(raw: Seq<char>) -> Seq<char> {
    words_method(str_words(request_line(raw)))
}

/// The path of a raw request.
pub open spec fn request_path(raw: Seq<char>) -> Seq<char> {
    target_path(words_target(str_words(request_line(raw))))
}

/// The query of a raw request.
pub open spec fn request_query(raw: Seq<char>) -> Seq<char> {
    target_query(words_target(str_words(request_line(raw))))
}

/// The method, path and query given by the words of a request line.
pub fn request_line_fields(words: &Vec<String>) -> (r: (String, String, String))
    ensures
        r.0@ == words_method(string_views(words@)),
        r.1@ == target_path(words_target(string_views(words@))),
        r.2@ == target_query(words_target(string_views(words@))),
{
    proof {
        if words@.len() > 0 {
            assert(string_views(words@)[0] == words@[0]@);
        }
        if words@.len() > 1 {
            assert(string_views(words@)[1] == words@[1]@);
        }
    }
    let method = if words.len() > 0 {
        words[0].clone()
    } else {
        owned("GET")
    };
    let target = if words.len() > 1 {
        words[1].clone()
    } else {
        owned("/")
    };
    let (path, query) = match split_once(target.as_str(), '?') {
        Some((p, q)) => (p, q),
        None => (target.clone(), owned("")),
    };
    proof {
        reveal_strlit("");
        if spec_split_once(target@, '?') is None {
            assert(query@ =~= Seq::<char>::empty());
        }
    }
    (method, path, query)
}

/// The headers from line `i` on, added to `acc`, up to the first empty line: each line with a
/// `:` gives its trimmed, lowercased name and its trimmed value; a later header of the same
/// name replaces an earlier one.
pub open spec fn header_entries(lines: Seq<Seq<char>>, i: nat, acc: Assoc) -> Assoc
    decreases lines.len() - i,
{
    if i >= lines.len() || lines[i as int].len() == 0 {
        acc
    } else {
        let acc2 = match spec_split_once(lines[i as int], ':') {
            Some((k, v)) => assoc_set(acc, str_lower(str_trim(k)), ValueV::Str(str_trim(v))),
            None => acc,
        };
        header_entries(lines, i + 1, acc2)
    }
}

/// The entries of the request table, in order.
pub open spec fn request_entries(raw: Seq<char>, remote_addr: Seq<char>, headers: nat) -> Assoc {
    seq![
        ("method"@, ValueV::Str(request_method(raw))),
        ("path"@, ValueV::Str(request_path(raw))),
        ("query"@, ValueV::Str(request_query(raw))),
        ("remote-addr"@, ValueV::Str(remote_addr)),
        ("headers"@, ValueV::Table(headers)),
    ]
}

/// The store after `parse_http_request`: a table of the headers, then the request table.
pub open spec fn request_store(st: StoreV, raw: Seq<char>, remote_addr: Seq<char>) -> StoreV {
    let h = st.tables.len();
    let st1 = spec_push_table(st, header_entries(str_lines(raw), 1, Seq::empty()));
    spec_push_table(st1, request_entries(raw, remote_addr, h))
}

/// The table that `on-request` receives for a raw HTTP request: `method`, `path`, `query`,
/// `remote-addr`, and `headers` (a table from lowercased header name to value).
pub fn parse_http_request(raw: &str, remote_addr: &str, store: &mut Store) -> (r: Value)
    ensures
        r@ == ValueV::Table(old(store)@.tables.len() + 1),
        final(store)@ == request_store(old(store)@, raw@, remote_addr@),
{
    let lines = lines_of(raw);
    let ghost ls = string_views(lines@);
    let request_line = if lines.len() > 0 {
        lines[0].clone()
    } else {
        owned("")
    };
    proof {
        if lines@.len() == 0 {
            reveal_strlit("");
            assert(request_line@ =~= Seq::<char>::empty());
        } else {
            assert(ls[0] == lines@[0]@);
        }
    }
    let words = words_of(request_line.as_str());
    let (method, path, query) = request_line_fields(&words);
    let mut headers: Vec<(String, Value)> = Vec::new();
    proof {
        assert(assoc_view(headers@) =~= Seq::empty());
    }
    let mut i: usize = 1;
    let mut done = false;
    while i < lines.len() && !done
        invariant
            1 <= i,
            ls == string_views(lines@),
            ls == str_lines(raw@),
            header_entries(ls, 1, Seq::empty()) == header_entries(ls, i as nat, assoc_view(headers@)),
            done ==> i < ls.len() && ls[i as int].len() == 0,
            keys_unique(assoc_view(headers@)),
        decreases lines@.len() - i, if done { 0int } else { 1int },
    {
        proof {
            assert(ls[i as int] == lines@[i as int]@);
        }
        if lines[i].as_str().is_empty() {
            done = true;
            continue;
        }
        match split_once(lines[i].as_str(), ':') {
            Some((k, v)) => {
                let key = to_lowercase(trim(k.as_str()).as_str());
                let val = trim(v.as_str());
                proof {
                    lemma_assoc_set_get(assoc_view(headers@), key@, ValueV::Str(val@), key@);
                }
                crate::env::assoc_insert(&mut headers, key, Value::Str(val));
            },
            None => {},
        }
        i = i + 1;
    }
    proof {
        assert(header_entries(ls, i as nat, assoc_view(headers@)) == assoc_view(headers@));
        assert(method@ == request_method(raw@));
        assert(path@ == request_path(raw@));
        assert(query@ == request_query(raw@));
    }
    let h = store.push_table(headers);
    let mut req: Vec<(String, Value)> = Vec::new();
    req.push((owned("method"), Value::Str(method)));
    req.push((owned("path"), Value::Str(path)));
    req.push((owned("query"), Value::Str(query)));
    req.push((owned("remote-addr"), Value::Str(owned(remote_addr))));
    req.push((owned("headers"), Value::Table(h)));
    proof {
        assert(assoc_view(req@) =~= request_entries(raw@, remote_addr@, h.id as nat));
        lemma_request_keys_unique(raw@, remote_addr@, h.id as nat);
    }
    let t = store.push_table(req);
    Value::Table(t)
}

/// The message used when `on-request` does not give back a table.
pub open spec fn not_a_response_message() -> Seq<char> {
    "Internal Server Error: on-request must return (respond status body)"@
}

/// The status and body of what `on-request` gave back: from a table, its integer `"status"`
/// (500 otherwise) and its `"body"` (a string as it is, another value as shown, empty when
/// missing); from anything else, 500 and a fixed message.
pub open spec fn spec_extract_response(result: ValueV, st: StoreV) -> (i64, Seq<char>) {
    match result {
        ValueV::Table(t) => {
            let status = match spec_table_get(st, t, "status"@) {
                Some(ValueV::Int(n)) => n,
                _ => 500i64,
            };
            let body = match spec_table_get(st, t, "body"@) {
                Some(ValueV::Str(s)) => s,
                Some(other) => display_spec(other),
                None => Seq::empty(),
            };
            (status, body)
        },
        _ => (500i64, not_a_response_message()),
    }
}

/// The status and body of what `on-request` gave back.
pub fn extract_response(result: &Value, store: &Store) -> (r: (i64, String))
    ensures
        (r.0, r.1@) == spec_extract_response(result@, store@),
{
    match result {
        Value::Table(t) => {
            let status = match store.table_get(*t, "status") {
                Some(Value::Int(n)) => n,
                _ => 500,
            };
            let body = match store.table_get(*t, "body") {
                Some(Value::Str(s)) => s,
                Some(other) => other.display(),
                None => {
                    let e = String::new();
                    e
                },
            };
            (status, body)
        },
        _ => (500, owned("Internal Server Error: on-request must return (respond status body)")),
    }
}

/// The reason phrase for a status code.
pub open spec fn spec_status_text(code: i64) -> Seq<char> {
    if code == 200 {
        "OK"@
    } else if code == 201 {
        "Created"@
    } else if code == 400 {
        "Bad Request"@
    } else if code == 401 {
        "Unauthorized"@
    } else if code == 403 {
        "Forbidden"@
    } else if code == 404 {
        "Not Found"@
    } else if code == 429 {
        "Too Many Requests"@
    } else if code == 500 {
        "Internal Server Error"@
    } else {
        "Unknown"@
    }
}

/// The reason phrase for a status code (`Unknown` for codes it does not list).
pub fn status_text(code: i64) -> (r: &'static str)
    ensures
        r@ == spec_status_text(code),
{
    if code == 200 {
        "OK"
    } else if code == 201 {
        "Created"
    } else if code == 400 {
        "Bad Request"
    } else if code == 401 {
        "Unauthorized"
    } else if code == 403 {
        "Forbidden"
    } else if code == 404 {
        "Not Found"
    } else if code == 429 {
        "Too Many Requests"
    } else if code == 500 {
        "Internal Server Error"
    } else {
        "Unknown"
    }
}

/// The HTTP response text for a status and body.
pub open spec fn spec_render_response(status: i64, body: Seq<char>) -> Seq<char> {
    "HTTP/1.1 "@ + int_decimal(status as int) + " "@ + spec_status_text(status)
        + "\r\nContent-Length: "@ + nat_decimal(byte_len(body) as usize as nat)
        + "\r\nContent-Type: text/plain\r\nConnection: close\r\n\r\n"@ + body
}

/// The HTTP response text for a status and body: status line, length of the body in bytes,
/// plain-text content type, `Connection: close`, then the body.
pub fn render_response(status: i64, body: &str) -> (r: String)
    ensures
        r@ == spec_render_response(status, body@),
{
    let mut r = owned("HTTP/1.1 ");
    r.append(i64_to_string(status).as_str());
    r.append(" ");
    r.append(status_text(status));
    r.append("\r\nContent-Length: ");
    r.append(usize_to_string(body.len()).as_str());
    r.append("\r\nContent-Type: text/plain\r\nConnection: close\r\n\r\n");
    r.append(body);
    r
}


/// Whether the plugin loaded in scope `env` defines `on-request`, which the gateway needs before
/// it serves.
pub fn defines_on_request(store: &Store, env: Env) -> (r: bool)
    ensures
        r == spec_lookup(store@, env.id as nat, "on-request"@) is Some,
{
    env.lookup(store, "on-request").is_some()
}

/// What handling one request comes to: the response text to send; an `http-get` request to
/// make first; or the reason the plugin failed.
#[derive(Debug)]
pub enum ServeStep {
    Respond(String),
    Fetch(HttpRequest),
    Failed(EvalError),
    OutOfFuel,
}

/// The model of a [`ServeStep`].
pub enum ServeStepV {
    Respond(Seq<char>),
    Fetch { url: Seq<char>, headers: Seq<(Seq<char>, Seq<char>)> },
    Failed(ErrorV),
    OutOfFuel,
}

impl View for ServeStep {
    type V = ServeStepV;

    open spec fn view(&self) -> ServeStepV {
        match self {
            ServeStep::Respond(text) => ServeStepV::Respond(text@),
            ServeStep::Fetch(req) => ServeStepV::Fetch {
                url: req.url@,
                headers: crate::env::string_entries_view(req.headers@),
            },
            ServeStep::Failed(e) => ServeStepV::Failed(e@),
            ServeStep::OutOfFuel => ServeStepV::OutOfFuel,
        }
    }
}

/// Handling a request with the plugin's scope `env`: the request table is built, the
/// plugin's `on-request` is applied to it, and what it gives back becomes the response text.
pub open spec fn spec_handle_request(env: nat, raw: Seq<char>, addr: Seq<char>, c: Config, fuel: nat) -> (
    ServeStepV,
    Config,
) {
    let st1 = request_store(c.st, raw, addr);
    let req = ValueV::Table(c.st.tables.len() + 1);
    match spec_lookup(st1, env, "on-request"@) {
        None => (ServeStepV::Failed(ErrorV::UndefinedSymbol("on-request"@)), with_store(c, st1)),
        Some(f) => {
            let (o, c2) = sem_apply(f, seq![req], with_store(c, st1), fuel);
            match o {
                OutcomeV::Value(v) => {
                    let (status, body) = spec_extract_response(v, c2.st);
                    (ServeStepV::Respond(spec_render_response(status, body)), c2)
                },
                OutcomeV::Suspended { url, headers } => (ServeStepV::Fetch { url, headers }, c2),
                OutcomeV::Error(e) => (ServeStepV::Failed(e), c2),
                OutcomeV::OutOfFuel => (ServeStepV::OutOfFuel, c2),
            }
        },
    }
}

/// Handle one raw HTTP request with the plugin loaded in scope `env`: what the gateway's
/// server loop does between reading a request and writing the response, with the replies to
/// the plugin's `http-get` requests known so far in `fx`.
pub fn handle_request(store: &mut Store, env: Env, raw: &str, remote_addr: &str, fx: &mut Effects, fuel: u64) -> (r: ServeStep)
    ensures
        (r@, cfg(final(store)@, final(fx)@)) == spec_handle_request(
            env.id as nat,
            raw@,
            remote_addr@,
            cfg(old(store)@, old(fx)@),
            fuel as nat,
        ),
{
    let req = parse_http_request(raw, remote_addr, store);
    match env.lookup(store, "on-request") {
        None => ServeStep::Failed(EvalError::UndefinedSymbol(owned("on-request"))),
        Some(f) => {
            let mut args: Vec<Value> = Vec::new();
            args.push(req);
            proof {
                crate::value::lemma_value_views(args@);
                assert(crate::value::value_views(args@) =~= seq![ValueV::Table(old(store)@.tables.len() + 1)]);
            }
            let o = apply(f, args.as_slice(), store, fx, fuel);
            match o {
                Outcome::Value(v) => {
                    let (status, body) = extract_response(&v, store);
                    ServeStep::Respond(render_response(status, body.as_str()))
                },
                Outcome::Suspended(req) => ServeStep::Fetch(req),
                Outcome::Error(e) => ServeStep::Failed(e),
                Outcome::OutOfFuel => ServeStep::OutOfFuel,
            }
        },
    }
}

/// Law: the response a plugin builds with `(respond status body)` is answered with that status
/// and that body.
pub proof fn law_respond_then_extract(a: Seq<ValueV>, st: StoreV)
    requires
        int_at(a, 0),
        str_at(a, 1),
    ensures
        spec_extract_response(ValueV::Table(st.tables.len()), respond_store(a, st)) == (
            ival(a[0]) as i64,
            sval(a[1]),
        ),
{
    let t = st.tables.len();
    let s1 = spec_new_table(st);
    let s2 = spec_table_set(s1, t, "status"@, a[0]);
    reveal_strlit("status");
    reveal_strlit("body");
    assert("status"@ != "body"@) by {
        assert("status"@.len() != "body"@.len());
    }
    law_table_set_then_get(s1, t, "status"@, a[0], t, "status"@);
    law_table_set_then_get(s2, t, "body"@, a[1], t, "status"@);
    law_table_set_then_get(s2, t, "body"@, a[1], t, "body"@);
}

/// The five request keys are distinct, and each is found at its position.
proof fn lemma_request_keys(raw: Seq<char>, addr: Seq<char>, h: nat)
    ensures
        assoc_get(request_entries(raw, addr, h), "method"@) == Some(ValueV::Str(request_method(raw))),
        assoc_get(request_entries(raw, addr, h), "path"@) == Some(ValueV::Str(request_path(raw))),
        assoc_get(request_entries(raw, addr, h), "query"@) == Some(ValueV::Str(request_query(raw))),
        assoc_get(request_entries(raw, addr, h), "remote-addr"@) == Some(ValueV::Str(addr)),
        assoc_get(request_entries(raw, addr, h), "headers"@) == Some(ValueV::Table(h)),
{
    let a = request_entries(raw, addr, h);
    reveal_strlit("method");
    reveal_strlit("path");
    reveal_strlit("query");
    reveal_strlit("remote-addr");
    reveal_strlit("headers");
    // The five keys have five different lengths.
    assert(a[0].0.len() == 6 && a[1].0.len() == 4 && a[2].0.len() == 5 && a[3].0.len() == 11
        && a[4].0.len() == 7);
    lemma_assoc_pos_found(a, "method"@, 0);
    lemma_assoc_pos_found(a, "path"@, 1);
    lemma_assoc_pos_found(a, "query"@, 2);
    lemma_assoc_pos_found(a, "remote-addr"@, 3);
    lemma_assoc_pos_found(a, "headers"@, 4);
}

/// The five request keys are distinct.
proof fn lemma_request_keys_unique(raw: Seq<char>, addr: Seq<char>, h: nat)
    ensures
        keys_unique(request_entries(raw, addr, h)),
{
    let a = request_entries(raw, addr, h);
    reveal_strlit("method");
    reveal_strlit("path");
    reveal_strlit("query");
    reveal_strlit("remote-addr");
    reveal_strlit("headers");
    // The five keys have five different lengths.
    assert(a[0].0.len() == 6 && a[1].0.len() == 4 && a[2].0.len() == 5 && a[3].0.len() == 11
        && a[4].0.len() == 7);
}

/// Law: the table `on-request` receives reads back the request: its method, path, query and
/// remote address under those keys, and under `"headers"` a table that reads back each header
/// of the request (by lowercased name) and nothing else.
pub proof fn law_request_table_fields(st: StoreV, raw: Seq<char>, addr: Seq<char>, k: Seq<char>)
    ensures
        ({
            let st2 = request_store(st, raw, addr);
            let req = st.tables.len() + 1;
            let headers = st.tables.len();
            &&& spec_table_get(st2, req, "method"@) == Some(ValueV::Str(request_method(raw)))
            &&& spec_table_get(st2, req, "path"@) == Some(ValueV::Str(request_path(raw)))
            &&& spec_table_get(st2, req, "query"@) == Some(ValueV::Str(request_query(raw)))
            &&& spec_table_get(st2, req, "remote-addr"@) == Some(ValueV::Str(addr))
            &&& spec_table_get(st2, req, "headers"@) == Some(ValueV::Table(headers))
            &&& spec_table_get(st2, headers, k) == assoc_get(
                header_entries(str_lines(raw), 1, Seq::empty()),
                k,
            )
        }),
{
    lemma_request_keys(raw, addr, st.tables.len());
}

/// Law: handling a request that needs no further `http-get` reply gives the same response, the
/// same state and the same output when more replies are known; and handling it again with more
/// replies known reproduces everything the first handling printed. Together these let a request
/// be handled again from the same state each time a reply arrives.
pub proof fn law_request_replay(env: nat, raw: Seq<char>, addr: Seq<char>, c: Config, fuel: nat, more: Seq<(i64, Seq<char>)>)
    ensures
        !(spec_handle_request(env, raw, addr, c, fuel).0 is Fetch) ==> spec_handle_request(
            env,
            raw,
            addr,
            with_more(c, more),
            fuel,
        ) == (
            spec_handle_request(env, raw, addr, c, fuel).0,
            with_more(spec_handle_request(env, raw, addr, c, fuel).1, more),
        ),
        output_extends(
            spec_handle_request(env, raw, addr, c, fuel).1,
            spec_handle_request(env, raw, addr, with_more(c, more), fuel).1,
        ),
{
    let st1 = request_store(c.st, raw, addr);
    let req = ValueV::Table(c.st.tables.len() + 1);
    let c1 = with_store(c, st1);
    assert(with_store(with_more(c, more), st1) == with_more(c1, more));
    match spec_lookup(st1, env, "on-request"@) {
        None => {
            assert(with_more(c1, more).fx.output.subrange(0, c1.fx.output.len() as int)
                =~= c1.fx.output);
        },
        Some(f) => {
            let (o, c2) = sem_apply(f, seq![req], c1, fuel);
            law_apply_replay_extends(f, seq![req], c1, fuel, more);
            if settled(o) {
                law_apply_more_replies(f, seq![req], c1, fuel, more);
            }
        },
    }
}

} // verus!
