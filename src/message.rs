use vstd::prelude::*;

use crate::json::{entries_view, json_view, lemma_entries_view, lemma_entries_view_push, Json, JsonV};

verus! {

/// Where a message produced by a hook is to be delivered.
#[derive(Debug, Clone, Copy, PartialEq, Eq, Structural)]
pub enum Direction {
    ToClient,
    ToServer,
}

/// A request identifier: a JSON scalar, either a number or a string. An integer that fits in
/// an `i64` is held as such; any other number is held as its JSON text.
#[derive(Debug, PartialEq)]
pub enum RequestId {
    Int(i64),
    Num(String),
    Str(String),
}

/// The mathematical view of a request identifier.
pub enum IdV {
    Int(i64),
    Num(Seq<char>),
    Str(Seq<char>),
}

impl View for RequestId {
    type V = IdV;

    open spec fn view(&self) -> IdV {
        match self {
            RequestId::Int(i) => IdV::Int(*i),
            RequestId::Num(s) => IdV::Num(s@),
            RequestId::Str(s) => IdV::Str(s@),
        }
    }
}

/// The JSON value that writes an identifier.
pub open spec fn id_json(id: IdV) -> JsonV {
    match id {
        IdV::Int(i) => JsonV::Int(i),
        IdV::Num(s) => JsonV::Num(s),
        IdV::Str(s) => JsonV::Str(s),
    }
}

impl RequestId {
    /// A copy of this identifier.
    pub fn duplicate(&self) -> (r: RequestId)
        ensures
            r@ == self@,
    {
        match self {
            RequestId::Int(i) => RequestId::Int(*i),
            RequestId::Num(s) => RequestId::Num(s.clone()),
            RequestId::Str(s) => RequestId::Str(s.clone()),
        }
    }

    /// Whether two identifiers are the same scalar.
    pub fn same_as(&self, other: &RequestId) -> (r: bool)
        ensures
            r == (self@ == other@),
    {
        match (self, other) {
            (RequestId::Int(a), RequestId::Int(b)) => *a == *b,
            (RequestId::Num(a), RequestId::Num(b)) => *a == *b,
            (RequestId::Str(a), RequestId::Str(b)) => *a == *b,
            _ => false,
        }
    }

    /// The JSON value that writes this identifier.
    pub fn to_json(&self) -> (r: Json)
        ensures
            r@ == id_json(self@),
    {
        match self {
            RequestId::Int(i) => Json::Int(*i),
            RequestId::Num(s) => Json::Num(s.clone()),
            RequestId::Str(s) => Json::Str(s.clone()),
        }
    }
}

/// A call that expects an answer, correlated by `id`.
#[derive(Debug, PartialEq)]
pub struct Request {
    pub id: RequestId,
    pub method: String,
    pub params: Option<Json>,
}

/// The answer to the request with the same `id`.
#[derive(Debug, PartialEq)]
pub struct Response {
    pub id: RequestId,
    pub result: Option<Json>,
    pub error: Option<Json>,
}

/// A one-way message that expects no answer.
#[derive(Debug, PartialEq)]
pub struct Notification {
    pub method: String,
    pub params: Option<Json>,
}

/// One protocol message: exactly one of the three shapes.
#[derive(Debug, PartialEq)]
pub enum Message {
    Request(Request),
    Response(Response),
    Notification(Notification),
}

/// The mathematical view of a message.
pub enum MessageV {
    Request { id: IdV, method: Seq<char>, params: Option<JsonV> },
    Response { id: IdV, result: Option<JsonV>, error: Option<JsonV> },
    Notification { method: Seq<char>, params: Option<JsonV> },
}

pub open spec fn opt_view(o: Option<Json>) -> Option<JsonV> {
    match o {
        Some(j) => Some(json_view(j)),
        None => None,
    }
}

impl View for Message {
    type V = MessageV;

    open spec fn view(&self) -> MessageV {
        match *self {
            Message::Request(r) => MessageV::Request {
                id: r.id@,
                method: r.method@,
                params: opt_view(r.params),
            },
            Message::Response(r) => MessageV::Response {
                id: r.id@,
                result: opt_view(r.result),
                error: opt_view(r.error),
            },
            Message::Notification(n) => MessageV::Notification {
                method: n.method@,
                params: opt_view(n.params),
            },
        }
    }
}

/// The value of the first entry of an object whose key is `key`.
pub open spec fn lookup(entries: Seq<(Seq<char>, JsonV)>, key: Seq<char>) -> Option<JsonV>
    decreases entries.len(),
{
    if entries.len() == 0 {
        None
    } else if entries[0].0 == key {
        Some(entries[0].1)
    } else {
        lookup(entries.drop_first(), key)
    }
}

/// An identifier is a number or a string; any other value counts as absent.
pub open spec fn id_field(v: Option<JsonV>) -> Option<IdV> {
    match v {
        Some(JsonV::Int(i)) => Some(IdV::Int(i)),
        Some(JsonV::Num(s)) => Some(IdV::Num(s)),
        Some(JsonV::Str(s)) => Some(IdV::Str(s)),
        _ => None,
    }
}

/// A method name is a string; anything else counts as absent.
pub open spec fn method_field(v: Option<JsonV>) -> Option<Seq<char>> {
    match v {
        Some(JsonV::Str(s)) => Some(s),
        _ => None,
    }
}

/// The message that an object's fields describe, by the presence of an id, of a method
/// and of a result or an error; `None` for any other combination and for a non-object.
pub open spec fn message_of(v: JsonV) -> Option<MessageV> {
    match v {
        JsonV::Object(e) => {
            let id = id_field(lookup(e, "id"@));
            let method = method_field(lookup(e, "method"@));
            let params = lookup(e, "params"@);
            let result = lookup(e, "result"@);
            let error = lookup(e, "error"@);
            let outcome = result is Some || error is Some;
            if id is Some && method is Some && !outcome {
                Some(MessageV::Request { id: id->0, method: method->0, params })
            } else if id is Some && method is None && outcome {
                Some(MessageV::Response { id: id->0, result, error })
            } else if id is None && method is Some && !outcome {
                Some(MessageV::Notification { method: method->0, params })
            } else {
                None
            }
        },
        _ => None,
    }
}

/// A single entry when the field is present, none when it is absent.
pub open spec fn opt_entry(key: Seq<char>, v: Option<JsonV>) -> Seq<(Seq<char>, JsonV)> {
    match v {
        Some(j) => seq![(key, j)],
        None => seq![],
    }
}

/// The object that carries a message: the protocol version, then the fields of its shape,
/// with absent optional fields left out.
pub open spec fn value_of(m: MessageV) -> JsonV {
    let head = seq![("jsonrpc"@, JsonV::Str("2.0"@))];
    match m {
        MessageV::Request { id, method, params } => JsonV::Object(
            head + seq![("id"@, id_json(id)), ("method"@, JsonV::Str(method))] + opt_entry(
                "params"@,
                params,
            ),
        ),
        MessageV::Response { id, result, error } => JsonV::Object(
            head + seq![("id"@, id_json(id))] + opt_entry("result"@, result) + opt_entry(
                "error"@,
                error,
            ),
        ),
        MessageV::Notification { method, params } => JsonV::Object(
            head + seq![("method"@, JsonV::Str(method))] + opt_entry("params"@, params),
        ),
    }
}

/// A message that some object describes: a response carries a result or an error.
pub open spec fn valid_message(m: MessageV) -> bool {
    match m {
        MessageV::Response { result, error, .. } => result is Some || error is Some,
        _ => true,
    }
}

pub open spec fn method_of(m: MessageV) -> Option<Seq<char>> {
    match m {
        MessageV::Request { method, .. } => Some(method),
        MessageV::Response { .. } => None,
        MessageV::Notification { method, .. } => Some(method),
    }
}

pub open spec fn id_of(m: MessageV) -> Option<IdV> {
    match m {
        MessageV::Request { id, .. } => Some(id),
        MessageV::Response { id, .. } => Some(id),
        MessageV::Notification { .. } => None,
    }
}

/// Looking up in a suffix that is one entry longer.
proof fn lemma_lookup_step(w: Seq<(Seq<char>, JsonV)>, k: int, key: Seq<char>)
    requires
        0 < k <= w.len(),
    ensures
        lookup(w.subrange(k - 1, w.len() as int), key) == (if w[k - 1].0 == key {
            Some(w[k - 1].1)
        } else {
            lookup(w.subrange(k, w.len() as int), key)
        }),
{
    assert(w.subrange(k - 1, w.len() as int).drop_first() == w.subrange(k, w.len() as int));
}

fn owned(s: &str) -> (r: String)
    ensures
        r@ == s@,
{
    String::from_str(s)
}

fn push_entry(entries: &mut Vec<(String, Json)>, key: &str, value: Json)
    ensures
        entries_view(final(entries)@) == entries_view(old(entries)@).push((key@, value@)),
{
    let k = owned(key);
    proof {
        lemma_entries_view_push(entries@, (k, value));
    }
    entries.push((k, value));
}

fn push_opt_entry(entries: &mut Vec<(String, Json)>, key: &str, value: &Option<Json>)
    ensures
        entries_view(final(entries)@) == entries_view(old(entries)@) + opt_entry(
            key@,
            opt_view(*value),
        ),
{
    match value {
        Some(v) => push_entry(entries, key, v.deep_clone()),
        None => {
            assert(entries_view(entries@) + opt_entry(key@, opt_view(*value)) == entries_view(
                entries@,
            ));
        },
    }
}

fn clone_opt(o: &Option<Json>) -> (r: Option<Json>)
    ensures
        opt_view(r) == opt_view(*o),
{
    match o {
        Some(j) => Some(j.deep_clone()),
        None => None,
    }
}

impl Message {
    /// Reads a message from an object by the presence of its fields.
    pub fn from_value(value: Json) -> (r: Result<Message, String>)
        ensures
            match message_of(value@) {
                Some(m) => r is Ok && r->Ok_0@ == m,
                None => r is Err && r->Err_0@ == (if value@ is Object {
                    "Invalid message format"@
                } else {
                    "Message must be an object"@
                }),
            },
    {
        match value {
            Json::Object(entries) => {
                let ghost w = entries_view(entries@);
                let ghost n = entries@.len();
                let ghost orig = entries@;
                proof {
                    lemma_entries_view(entries@);
                }
                let mut entries = entries;
                let mut id: Option<RequestId> = None;
                let mut method: Option<String> = None;
                let mut params: Option<Json> = None;
                let mut result: Option<Json> = None;
                let mut error: Option<Json> = None;
                while entries.len() > 0
                    invariant
                        w == entries_view(orig),
                        n == orig.len(),
                        w.len() == n,
                        entries@.len() <= n,
                        forall|i: int|
                            0 <= i < n ==> #[trigger] w[i] == (orig[i].0@, json_view(orig[i].1)),
                        entries@ == orig.subrange(0, entries@.len() as int),
                        (match id {
                            Some(i) => Some(i@),
                            None => None::<IdV>,
                        }) == id_field(lookup(w.subrange(entries@.len() as int, n as int), "id"@)),
                        (match method {
                            Some(s) => Some(s@),
                            None => None::<Seq<char>>,
                        }) == method_field(
                            lookup(w.subrange(entries@.len() as int, n as int), "method"@),
                        ),
                        opt_view(params) == lookup(
                            w.subrange(entries@.len() as int, n as int),
                            "params"@,
                        ),
                        opt_view(result) == lookup(
                            w.subrange(entries@.len() as int, n as int),
                            "result"@,
                        ),
                        opt_view(error) == lookup(
                            w.subrange(entries@.len() as int, n as int),
                            "error"@,
                        ),
                    decreases entries@.len(),
                {
                    let ghost k = entries@.len() as int;
                    let entry = entries.pop().unwrap();
                    proof {
                        assert(entry == orig[k - 1]);
                        lemma_keys_distinct();
                        lemma_lookup_step(w, k, "id"@);
                        lemma_lookup_step(w, k, "method"@);
                        lemma_lookup_step(w, k, "params"@);
                        lemma_lookup_step(w, k, "result"@);
                        lemma_lookup_step(w, k, "error"@);
                    }
                    let (key, v) = entry;
                    if key == owned("id") {
                        id = match v {
                            Json::Int(i) => Some(RequestId::Int(i)),
                            Json::Num(t) => Some(RequestId::Num(t)),
                            Json::Str(t) => Some(RequestId::Str(t)),
                            _ => None,
                        };
                    } else if key == owned("method") {
                        method = match v {
                            Json::Str(s) => Some(s),
                            _ => None,
                        };
                    } else if key == owned("params") {
                        params = Some(v);
                    } else if key == owned("result") {
                        result = Some(v);
                    } else if key == owned("error") {
                        error = Some(v);
                    }
                }
                proof {
                    assert(w.subrange(0, n as int) == w);
                }
                let outcome = result.is_some() || error.is_some();
                match (id, method) {
                    (Some(id), Some(method)) if !outcome => Ok(
                        Message::Request(Request { id, method, params }),
                    ),
                    (Some(id), None) if outcome => Ok(
                        Message::Response(Response { id, result, error }),
                    ),
                    (None, Some(method)) if !outcome => Ok(
                        Message::Notification(Notification { method, params }),
                    ),
                    _ => Err(owned("Invalid message format")),
                }
            },
            _ => Err(owned("Message must be an object")),
        }
    }

    /// The object that carries this message.
    pub fn to_value(&self) -> (r: Json)
        ensures
            r@ == value_of(self@),
    {
        let mut entries: Vec<(String, Json)> = Vec::new();
        proof {
            assert(entries_view(entries@) == Seq::<(Seq<char>, JsonV)>::empty());
        }
        push_entry(&mut entries, "jsonrpc", Json::Str(owned("2.0")));
        let ghost head = entries_view(entries@);
        proof {
            assert(head =~= seq![("jsonrpc"@, JsonV::Str("2.0"@))]);
        }
        match self {
            Message::Request(req) => {
                push_entry(&mut entries, "id", req.id.to_json());
                push_entry(&mut entries, "method", Json::Str(req.method.clone()));
                let ghost mid = entries_view(entries@);
                push_opt_entry(&mut entries, "params", &req.params);
                proof {
                    assert(mid =~= head + seq![
                        ("id"@, id_json(req.id@)),
                        ("method"@, JsonV::Str(req.method@)),
                    ]);
                }
            },
            Message::Response(resp) => {
                push_entry(&mut entries, "id", resp.id.to_json());
                let ghost mid = entries_view(entries@);
                push_opt_entry(&mut entries, "result", &resp.result);
                push_opt_entry(&mut entries, "error", &resp.error);
                proof {
                    assert(mid =~= head + seq![("id"@, id_json(resp.id@))]);
                }
            },
            Message::Notification(note) => {
                push_entry(&mut entries, "method", Json::Str(note.method.clone()));
                let ghost mid = entries_view(entries@);
                push_opt_entry(&mut entries, "params", &note.params);
                proof {
                    assert(mid =~= head + seq![("method"@, JsonV::Str(note.method@))]);
                }
            },
        }
        Json::Object(entries)
    }

    /// The method name of a request or a notification.
    pub fn get_method(&self) -> (r: Option<&str>)
        ensures
            match r {
                Some(s) => method_of(self@) == Some(s@),
                None => method_of(self@) is None,
            },
    {
        match self {
            Message::Request(req) => Some(req.method.as_str()),
            Message::Response(_) => None,
            Message::Notification(note) => Some(note.method.as_str()),
        }
    }

    /// The identifier of a request or a response.
    pub fn get_id(&self) -> (r: Option<&RequestId>)
        ensures
            match r {
                Some(i) => id_of(self@) == Some(i@),
                None => id_of(self@) is None,
            },
    {
        match self {
            Message::Request(req) => Some(&req.id),
            Message::Response(resp) => Some(&resp.id),
            Message::Notification(_) => None,
        }
    }

    /// A notification of `method` with the given parameters.
    pub fn notification(method: &str, params: Option<Json>) -> (r: Message)
        ensures
            r@ == (MessageV::Notification { method: method@, params: opt_view(params) }),
    {
        Message::Notification(Notification { method: owned(method), params })
    }

    /// A copy of this message with the same view.
    pub fn duplicate(&self) -> (r: Message)
        ensures
            r@ == self@,
    {
        match self {
            Message::Request(req) => Message::Request(
                Request {
                    id: req.id.duplicate(),
                    method: req.method.clone(),
                    params: clone_opt(&req.params),
                },
            ),
            Message::Response(resp) => Message::Response(
                Response {
                    id: resp.id.duplicate(),
                    result: clone_opt(&resp.result),
                    error: clone_opt(&resp.error),
                },
            ),
            Message::Notification(note) => Message::Notification(
                Notification { method: note.method.clone(), params: clone_opt(&note.params) },
            ),
        }
    }
}

/// A key that differs from the first entry's key is looked up in the rest.
proof fn lemma_lookup_skip(e: Seq<(Seq<char>, JsonV)>, f: Seq<(Seq<char>, JsonV)>, key: Seq<char>)
    requires
        e.len() == 1,
        e[0].0 != key,
    ensures
        lookup(e + f, key) == lookup(f, key),
{
    assert((e + f).drop_first() == f);
}

/// The lookup in an entry list that starts with the key finds that entry.
proof fn lemma_lookup_hit(e: Seq<(Seq<char>, JsonV)>, f: Seq<(Seq<char>, JsonV)>, key: Seq<char>)
    requires
        e.len() == 1,
        e[0].0 == key,
    ensures
        lookup(e + f, key) == Some(e[0].1),
{
}

/// Looking up a key in a list of at most one entry.
proof fn lemma_lookup_opt(key: Seq<char>, v: Option<JsonV>, other: Seq<char>)
    ensures
        lookup(opt_entry(key, v), other) == (if key == other { v } else { None }),
{
    if v is Some {
        assert(opt_entry(key, v).drop_first() == Seq::<(Seq<char>, JsonV)>::empty());
        reveal_with_fuel(lookup, 2);
    }
}

/// The keys of a message object differ from one another.
proof fn lemma_keys_distinct()
    ensures
        "jsonrpc"@ != "id"@,
        "jsonrpc"@ != "method"@,
        "jsonrpc"@ != "params"@,
        "jsonrpc"@ != "result"@,
        "jsonrpc"@ != "error"@,
        "id"@ != "method"@,
        "id"@ != "params"@,
        "id"@ != "result"@,
        "id"@ != "error"@,
        "method"@ != "params"@,
        "method"@ != "result"@,
        "method"@ != "error"@,
        "params"@ != "result"@,
        "params"@ != "error"@,
        "result"@ != "error"@,
{
    reveal_strlit("jsonrpc");
    reveal_strlit("id");
    reveal_strlit("method");
    reveal_strlit("params");
    reveal_strlit("result");
    reveal_strlit("error");
    assert("jsonrpc"@.len() != "id"@.len());
    assert("jsonrpc"@.len() != "error"@.len());
    assert("method"@[0] != "params"@[0]);
    assert("method"@[0] != "result"@[0]);
    assert("params"@[0] != "result"@[0]);
}

/// Looking up a key in two lists joined, where the first has at most one entry.
proof fn lemma_lookup_opt_concat(
    key: Seq<char>,
    v: Option<JsonV>,
    f: Seq<(Seq<char>, JsonV)>,
    other: Seq<char>,
)
    ensures
        lookup(opt_entry(key, v) + f, other) == (if key == other && v is Some {
            v
        } else {
            lookup(f, other)
        }),
{
    if v is Some {
        assert((opt_entry(key, v) + f).drop_first() == f);
    } else {
        assert(opt_entry(key, v) + f == f);
    }
}

/// Reading back the object that carries a valid message gives that message again.
pub proof fn lemma_message_of_value_of(m: MessageV)
    requires
        valid_message(m),
    ensures
        message_of(value_of(m)) == Some(m),
{
    lemma_keys_distinct();
    let head = seq![("jsonrpc"@, JsonV::Str("2.0"@))];
    match m {
        MessageV::Request { id, method, params } => {
            let i = seq![("id"@, id_json(id))];
            let me = seq![("method"@, JsonV::Str(method))];
            let p = opt_entry("params"@, params);
            let e = head + seq![("id"@, id_json(id)), ("method"@, JsonV::Str(method))] + p;
            assert(e == head + (i + (me + p)));
            lemma_lookup_skip(head, i + (me + p), "id"@);
            lemma_lookup_skip(head, i + (me + p), "method"@);
            lemma_lookup_skip(head, i + (me + p), "params"@);
            lemma_lookup_skip(head, i + (me + p), "result"@);
            lemma_lookup_skip(head, i + (me + p), "error"@);
            lemma_lookup_hit(i, me + p, "id"@);
            lemma_lookup_skip(i, me + p, "method"@);
            lemma_lookup_hit(me, p, "method"@);
            lemma_lookup_skip(i, me + p, "params"@);
            lemma_lookup_skip(me, p, "params"@);
            lemma_lookup_opt("params"@, params, "params"@);
            lemma_lookup_skip(i, me + p, "result"@);
            lemma_lookup_skip(me, p, "result"@);
            lemma_lookup_opt("params"@, params, "result"@);
            lemma_lookup_skip(i, me + p, "error"@);
            lemma_lookup_skip(me, p, "error"@);
            lemma_lookup_opt("params"@, params, "error"@);
        },
        MessageV::Response { id, result, error } => {
            let i = seq![("id"@, id_json(id))];
            let r = opt_entry("result"@, result);
            let er = opt_entry("error"@, error);
            let e = head + i + r + er;
            assert(e == head + (i + (r + er)));
            lemma_lookup_skip(head, i + (r + er), "id"@);
            lemma_lookup_skip(head, i + (r + er), "method"@);
            lemma_lookup_skip(head, i + (r + er), "params"@);
            lemma_lookup_skip(head, i + (r + er), "result"@);
            lemma_lookup_skip(head, i + (r + er), "error"@);
            lemma_lookup_hit(i, r + er, "id"@);
            lemma_lookup_skip(i, r + er, "method"@);
            lemma_lookup_opt_concat("result"@, result, er, "method"@);
            lemma_lookup_opt("error"@, error, "method"@);
            lemma_lookup_skip(i, r + er, "params"@);
            lemma_lookup_opt_concat("result"@, result, er, "params"@);
            lemma_lookup_opt("error"@, error, "params"@);
            lemma_lookup_skip(i, r + er, "result"@);
            lemma_lookup_opt_concat("result"@, result, er, "result"@);
            lemma_lookup_opt("error"@, error, "result"@);
            lemma_lookup_skip(i, r + er, "error"@);
            lemma_lookup_opt_concat("result"@, result, er, "error"@);
            lemma_lookup_opt("error"@, error, "error"@);
        },
        MessageV::Notification { method, params } => {
            let me = seq![("method"@, JsonV::Str(method))];
            let p = opt_entry("params"@, params);
            let e = head + me + p;
            assert(e == head + (me + p));
            lemma_lookup_skip(head, me + p, "id"@);
            lemma_lookup_skip(head, me + p, "method"@);
            lemma_lookup_skip(head, me + p, "params"@);
            lemma_lookup_skip(head, me + p, "result"@);
            lemma_lookup_skip(head, me + p, "error"@);
            lemma_lookup_skip(me, p, "id"@);
            lemma_lookup_opt("params"@, params, "id"@);
            lemma_lookup_hit(me, p, "method"@);
            lemma_lookup_skip(me, p, "params"@);
            lemma_lookup_opt("params"@, params, "params"@);
            lemma_lookup_skip(me, p, "result"@);
            lemma_lookup_opt("params"@, params, "result"@);
            lemma_lookup_skip(me, p, "error"@);
            lemma_lookup_opt("params"@, params, "error"@);
        },
    }
}

/// Round trip: for every valid message, reading back its object and writing it out again
/// gives the same object.
pub proof fn lemma_round_trip(m: MessageV)
    requires
        valid_message(m),
    ensures
        message_of(value_of(m)) is Some,
        value_of(message_of(value_of(m))->0) == value_of(m),
{
    lemma_message_of_value_of(m);
}

} // verus!
