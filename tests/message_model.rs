use rpc_proxy::message::RequestId;
use rpc_proxy::{Json, Message, Notification, Request, Response};

fn s(text: &str) -> String {
    text.to_string()
}

fn object(entries: Vec<(&str, Json)>) -> Json {
    Json::Object(entries.into_iter().map(|(k, v)| (k.to_string(), v)).collect())
}

fn nested() -> Json {
    object(vec![
        ("uri", Json::Str(s("file:///a b/ü.rs"))),
        ("list", Json::Array(vec![Json::Int(1), Json::Num(s("2.5")), Json::Null, Json::Bool(true)])),
    ])
}

fn round_trip(m: &Message) {
    let v = m.to_value();
    let back = Message::from_value(m.to_value()).expect("a valid message reads back");
    assert_eq!(&back, m);
    assert_eq!(back.to_value(), v);
}

#[test]
fn round_trip_request() {
    round_trip(&Message::Request(Request { id: RequestId::Int(7), method: s("textDocument/hover"), params: Some(nested()) }));
    round_trip(&Message::Request(Request { id: RequestId::Int(-3), method: s("shutdown"), params: None }));
}

#[test]
fn round_trip_response() {
    round_trip(&Message::Response(Response { id: RequestId::Int(7), result: Some(Json::Int(42)), error: None }));
    round_trip(&Message::Response(Response { id: RequestId::Int(8), result: None, error: Some(nested()) }));
    round_trip(&Message::Response(Response { id: RequestId::Int(9), result: Some(Json::Null), error: Some(Json::Null) }));
}

#[test]
fn round_trip_notification() {
    round_trip(&Message::notification("initialized", Some(object(vec![]))));
    round_trip(&Message::notification("exit", None));
}

#[test]
fn to_value_writes_version_and_omits_absent_fields() {
    let v = Message::Request(Request { id: RequestId::Int(1), method: s("foo"), params: None }).to_value();
    assert_eq!(
        v,
        object(vec![
            ("jsonrpc", Json::Str(s("2.0"))),
            ("id", Json::Int(1)),
            ("method", Json::Str(s("foo"))),
        ])
    );
}

#[test]
fn from_value_decision_table() {
    let req = object(vec![("id", Json::Int(1)), ("method", Json::Str(s("foo"))), ("params", object(vec![]))]);
    assert_eq!(
        Message::from_value(req),
        Ok(Message::Request(Request { id: RequestId::Int(1), method: s("foo"), params: Some(object(vec![])) }))
    );
    let resp = object(vec![("id", Json::Int(1)), ("result", Json::Int(42))]);
    assert_eq!(
        Message::from_value(resp),
        Ok(Message::Response(Response { id: RequestId::Int(1), result: Some(Json::Int(42)), error: None }))
    );
    let note = object(vec![("method", Json::Str(s("ping")))]);
    assert_eq!(
        Message::from_value(note),
        Ok(Message::Notification(Notification { method: s("ping"), params: None }))
    );
}

#[test]
fn from_value_rejects_other_shapes() {
    let only_id = object(vec![("id", Json::Int(1))]);
    assert_eq!(Message::from_value(only_id), Err(s("Invalid message format")));
    let both = object(vec![("id", Json::Int(1)), ("method", Json::Str(s("a"))), ("result", Json::Null)]);
    assert_eq!(Message::from_value(both), Err(s("Invalid message format")));
    let no_id_result = object(vec![("result", Json::Int(1))]);
    assert_eq!(Message::from_value(no_id_result), Err(s("Invalid message format")));
    assert_eq!(Message::from_value(Json::Int(3)), Err(s("Message must be an object")));
}

#[test]
fn string_and_other_number_ids_are_ids() {
    let v = object(vec![("id", Json::Str(s("abc"))), ("method", Json::Str(s("foo")))]);
    assert_eq!(
        Message::from_value(v),
        Ok(Message::Request(Request { id: RequestId::Str(s("abc")), method: s("foo"), params: None }))
    );
    let v = object(vec![("id", Json::Str(s("abc"))), ("error", Json::Null)]);
    assert_eq!(
        Message::from_value(v),
        Ok(Message::Response(Response { id: RequestId::Str(s("abc")), result: None, error: Some(Json::Null) }))
    );
    let v = object(vec![("id", Json::Num(s("1.5"))), ("result", Json::Int(0))]);
    assert_eq!(
        Message::from_value(v).unwrap().get_id(),
        Some(&RequestId::Num(s("1.5")))
    );
    round_trip(&Message::Request(Request { id: RequestId::Str(s("r-1")), method: s("m"), params: None }));
    round_trip(&Message::Response(Response { id: RequestId::Num(s("1e30")), result: Some(Json::Null), error: None }));
}

#[test]
fn non_scalar_id_counts_as_absent() {
    let v = object(vec![("id", Json::Bool(true)), ("method", Json::Str(s("note")))]);
    assert_eq!(
        Message::from_value(v),
        Ok(Message::Notification(Notification { method: s("note"), params: None }))
    );
    let v = object(vec![("id", Json::Null), ("result", Json::Int(1))]);
    assert_eq!(Message::from_value(v), Err(s("Invalid message format")));
}

#[test]
fn id_helpers() {
    let a = RequestId::Str(s("7"));
    assert!(a.same_as(&RequestId::Str(s("7"))));
    assert!(!a.same_as(&RequestId::Int(7)));
    assert_eq!(a.duplicate(), a);
    assert_eq!(a.to_json(), Json::Str(s("7")));
    assert_eq!(RequestId::Int(7).to_json(), Json::Int(7));
}

#[test]
fn first_entry_of_a_key_wins() {
    let v = object(vec![("id", Json::Int(1)), ("id", Json::Int(2)), ("result", Json::Null)]);
    assert_eq!(
        Message::from_value(v),
        Ok(Message::Response(Response { id: RequestId::Int(1), result: Some(Json::Null), error: None }))
    );
}

#[test]
fn getters() {
    let r = Message::Request(Request { id: RequestId::Int(5), method: s("m"), params: None });
    assert_eq!(r.get_method(), Some("m"));
    assert_eq!(r.get_id(), Some(&RequestId::Int(5)));
    let resp = Message::Response(Response { id: RequestId::Int(6), result: None, error: Some(Json::Null) });
    assert_eq!(resp.get_method(), None);
    assert_eq!(resp.get_id(), Some(&RequestId::Int(6)));
    let n = Message::notification("n", None);
    assert_eq!(n.get_method(), Some("n"));
    assert_eq!(n.get_id(), None);
}

#[test]
fn deep_clone_and_duplicate_copy_values() {
    let v = nested();
    assert_eq!(v.deep_clone(), v);
    let m = Message::Request(Request { id: RequestId::Int(2), method: s("x"), params: Some(nested()) });
    assert_eq!(m.duplicate(), m);
}
