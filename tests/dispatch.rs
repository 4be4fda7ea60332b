use rpc_proxy::message::RequestId;
use rpc_proxy::processed_message::ProcessedMessage;
use rpc_proxy::proxy::{route, Dispatch, HookRegistry, PendingRequests};
use rpc_proxy::{Direction, HookError, HookOutput, Json, Message, ProxyBuilder, Request, Response};

fn s(text: &str) -> String {
    text.to_string()
}

fn num_id(id: i64) -> RequestId {
    RequestId::Int(id)
}

fn request(id: i64, method: &str) -> Message {
    Message::Request(Request { id: num_id(id), method: s(method), params: None })
}

fn response(id: i64, value: i64) -> Message {
    Message::Response(Response { id: num_id(id), result: Some(Json::Int(value)), error: None })
}

fn registry(methods: &[&'static str]) -> HookRegistry<&'static str> {
    let mut r = HookRegistry::new();
    for m in methods {
        r.register(m, *m);
    }
    r
}

fn invoked_method(d: &Dispatch) -> Option<String> {
    match d {
        Dispatch::Forward(_) => None,
        Dispatch::Invoke { method, .. } => Some(method.clone()),
    }
}

#[test]
fn responses_go_to_their_own_request_hook() {
    let hooks = registry(&["a", "b", "c"]);
    let mut table = PendingRequests::new();
    let reqs = [(10, "a"), (11, "b"), (12, "c"), (13, "a")];
    for (id, m) in reqs {
        let d = hooks.dispatch(&mut table, request(id, m));
        assert_eq!(invoked_method(&d), Some(s(m)));
        assert!(table.contains(&num_id(id)));
    }
    for (id, m) in [(12, "c"), (10, "a"), (13, "a"), (11, "b")] {
        let d = hooks.dispatch(&mut table, response(id, id));
        assert_eq!(invoked_method(&d), Some(s(m)));
        assert_eq!(d, Dispatch::Invoke { method: s(m), message: response(id, id) });
        assert!(!table.contains(&num_id(id)));
    }
}

#[test]
fn a_response_is_correlated_at_most_once() {
    let hooks = registry(&["a"]);
    let mut table = PendingRequests::new();
    hooks.dispatch(&mut table, request(1, "a"));
    assert_eq!(invoked_method(&hooks.dispatch(&mut table, response(1, 0))), Some(s("a")));
    assert_eq!(hooks.dispatch(&mut table, response(1, 0)), Dispatch::Forward(response(1, 0)));
}

#[test]
fn unhooked_messages_pass_through() {
    let hooks = registry(&["a"]);
    let mut table = PendingRequests::new();
    assert_eq!(hooks.dispatch(&mut table, request(5, "other")), Dispatch::Forward(request(5, "other")));
    assert!(!table.contains(&num_id(5)));
    let note = Message::notification("other", None);
    assert_eq!(
        hooks.dispatch(&mut table, Message::notification("other", None)),
        Dispatch::Forward(note)
    );
    let hooked = hooks.dispatch(&mut table, Message::notification("a", None));
    assert_eq!(invoked_method(&hooked), Some(s("a")));
}

#[test]
fn unseen_response_is_forwarded_unchanged() {
    let hooks = registry(&["a"]);
    let mut table = PendingRequests::new();
    let d = hooks.dispatch(&mut table, response(1, 42));
    assert_eq!(d, Dispatch::Forward(response(1, 42)));
    assert!(!table.contains(&num_id(1)));
    match d {
        Dispatch::Forward(m) => assert_eq!(route(ProcessedMessage::Forward(m), Direction::ToClient), vec![(Direction::ToClient, response(1, 42))]),
        _ => unreachable!(),
    }
}

#[test]
fn last_registration_wins() {
    let mut r = HookRegistry::new();
    r.register("m", 1);
    r.register("m", 2);
    assert_eq!(r.lookup("m"), Some(&2));
    assert_eq!(r.lookup("n"), None);
    assert!(r.contains("m"));
}

#[test]
fn string_ids_are_correlated() {
    let hooks = registry(&["a", "b"]);
    let mut table = PendingRequests::new();
    let req = |id: &str, m: &str| Message::Request(Request { id: RequestId::Str(s(id)), method: s(m), params: None });
    let resp = |id: &str| Message::Response(Response { id: RequestId::Str(s(id)), result: Some(Json::Null), error: None });
    hooks.dispatch(&mut table, req("x", "a"));
    hooks.dispatch(&mut table, req("1", "b"));
    assert!(table.contains(&RequestId::Str(s("1"))));
    assert!(!table.contains(&num_id(1)));
    assert_eq!(hooks.dispatch(&mut table, response(1, 0)), Dispatch::Forward(response(1, 0)));
    assert_eq!(invoked_method(&hooks.dispatch(&mut table, resp("1"))), Some(s("b")));
    assert_eq!(invoked_method(&hooks.dispatch(&mut table, resp("x"))), Some(s("a")));
    assert!(!table.contains(&RequestId::Str(s("x"))));
}

#[test]
fn defaults_have_no_hooks() {
    let (hooks, table) = rpc_proxy::Proxy::<u8>::default().into_parts();
    assert_eq!(hooks.lookup("m"), None);
    assert!(!table.contains(&num_id(1)));
    let (hooks, _) = ProxyBuilder::<u8>::default().with_hook("m", 3).build().into_parts();
    assert_eq!(hooks.lookup("m"), Some(&3));
}

#[test]
fn table_record_and_take() {
    let mut t = PendingRequests::new();
    t.record(num_id(4), s("x"));
    t.record(num_id(4), s("y"));
    assert_eq!(t.take(&num_id(4)), Some(s("y")));
    assert_eq!(t.take(&num_id(4)), None);
}

#[test]
fn dropped_primary_keeps_generated_messages_in_order() {
    let a = Message::notification("a", None);
    let b = Message::notification("b", None);
    let c = Message::notification("c", None);
    let out = HookOutput::empty()
        .with_message(Direction::ToClient, Message::notification("a", None))
        .with_message(Direction::ToServer, Message::notification("b", None))
        .with_message(Direction::ToClient, Message::notification("c", None));
    let routed = route(out.as_processed(), Direction::ToServer);
    assert_eq!(
        routed,
        vec![(Direction::ToClient, a), (Direction::ToServer, b), (Direction::ToClient, c)]
    );
    assert!(!routed.iter().any(|(_, m)| m.get_method() == Some("orig")));
}

#[test]
fn primary_comes_before_generated_messages() {
    let out = HookOutput::new(request(1, "m"))
        .with_messages(vec![
            (Direction::ToServer, Message::notification("A", None)),
            (Direction::ToServer, Message::notification("B", None)),
        ]);
    let routed = route(out.as_processed(), Direction::ToServer);
    let methods: Vec<_> = routed.iter().map(|(d, m)| (*d, m.get_method().unwrap().to_string())).collect();
    assert_eq!(
        methods,
        vec![(Direction::ToServer, s("m")), (Direction::ToServer, s("A")), (Direction::ToServer, s("B"))]
    );
}

#[test]
fn hook_rewrites_request_and_notifies_client() {
    let proxy = ProxyBuilder::new().with_hook("foo", "foo-hook").build();
    let (hooks, mut table) = proxy.into_parts();
    let incoming = Message::from_value(Json::Object(vec![
        (s("id"), Json::Int(1)),
        (s("method"), Json::Str(s("foo"))),
        (s("params"), Json::Object(vec![])),
    ]))
    .unwrap();
    let d = hooks.dispatch(&mut table, incoming);
    assert_eq!(hooks.lookup("foo"), Some(&"foo-hook"));
    let message = match d {
        Dispatch::Invoke { method, message } => {
            assert_eq!(method, "foo");
            message
        }
        Dispatch::Forward(_) => panic!("the hook should be invoked"),
    };
    let rewritten = match message {
        Message::Request(r) => Message::Request(Request {
            id: r.id,
            method: r.method,
            params: Some(Json::Object(vec![(s("x"), Json::Bool(true))])),
        }),
        _ => panic!("a request was expected"),
    };
    let out = HookOutput::new(rewritten)
        .with_message(Direction::ToClient, Message::notification("progress", None));
    let routed = route(out.as_processed(), Direction::ToServer);
    assert_eq!(routed.len(), 2);
    assert_eq!(routed[0].0, Direction::ToServer);
    assert_eq!(routed[0].1.get_id(), Some(&num_id(1)));
    assert_eq!(
        routed[0].1,
        Message::Request(Request { id: num_id(1), method: s("foo"), params: Some(Json::Object(vec![(s("x"), Json::Bool(true))])) })
    );
    assert_eq!(routed.iter().filter(|(d, _)| *d == Direction::ToClient).count(), 1);
    assert_eq!(routed[1], (Direction::ToClient, Message::notification("progress", None)));
    assert!(table.contains(&num_id(1)));
}

#[test]
fn as_processed_shapes() {
    assert_eq!(HookOutput::new(request(1, "m")).as_processed(), ProcessedMessage::Forward(request(1, "m")));
    let p = HookOutput::empty().as_processed();
    assert_eq!(p, ProcessedMessage::Ignore { generated_messages: vec![] });
    assert_eq!(p.get_message(), None);
    assert!(p.get_generated_messages().is_empty());
    let w = HookOutput::new(request(1, "m")).with_message(Direction::ToClient, request(2, "n")).as_processed();
    assert_eq!(w.get_message(), Some(&request(1, "m")));
    assert_eq!(w.get_generated_messages().len(), 1);
    let (main, generated) = w.into_parts();
    assert_eq!(main, Some(request(1, "m")));
    assert_eq!(generated, vec![(Direction::ToClient, request(2, "n"))]);
}

#[test]
fn hook_error_text() {
    let e = HookError::ProcessingFailed(s("bad input"));
    assert_eq!(e.message(), "Hook processing failed: bad input");
}
