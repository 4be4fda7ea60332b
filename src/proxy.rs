use vstd::prelude::*;

use crate::message::{Direction, IdV, Message, MessageV, RequestId};
use crate::processed_message::ProcessedMessage;

verus! {

/// The table that a list of entries describes: a later entry for an id replaces an
/// earlier one.
pub open spec fn pending_map(s: Seq<(RequestId, String)>) -> Map<IdV, Seq<char>>
    decreases s.len(),
{
    if s.len() == 0 {
        Map::empty()
    } else {
        pending_map(s.drop_last()).insert(s.last().0@, s.last().1@)
    }
}

proof fn lemma_pending_map_push(s: Seq<(RequestId, String)>, e: (RequestId, String))
    ensures
        pending_map(s.push(e)) == pending_map(s).insert(e.0@, e.1@),
{
    assert(s.push(e).drop_last() == s);
}

/// The requests that a hook intercepted and whose response has not come yet: request id
/// to method name.
pub struct PendingRequests {
    entries: Vec<(RequestId, String)>,
}

impl View for PendingRequests {
    type V = Map<IdV, Seq<char>>;

    closed spec fn view(&self) -> Map<IdV, Seq<char>> {
        pending_map(self.entries@)
    }
}

impl PendingRequests {
    /// An empty table.
    pub fn new() -> (r: PendingRequests)
        ensures
            r@ == Map::<IdV, Seq<char>>::empty(),
    {
        PendingRequests { entries: Vec::new() }
    }

    /// Records that the response to `id` belongs to `method`, replacing any earlier entry.
    pub fn record(&mut self, id: RequestId, method: String)
        ensures
            final(self)@ == old(self)@.insert(id@, method@),
    {
        proof {
            lemma_pending_map_push(self.entries@, (id, method));
        }
        self.entries.push((id, method));
    }

    /// Removes the entry of `id` and returns its method: each entry is read at most once.
    pub fn take(&mut self, id: &RequestId) -> (r: Option<String>)
        ensures
            final(self)@ == old(self)@.remove(id@),
            match r {
                Some(m) => old(self)@.contains_key(id@) && old(self)@[id@] == m@,
                None => !old(self)@.contains_key(id@),
            },
    {
        let ghost s = self.entries@;
        let mut kept: Vec<(RequestId, String)> = Vec::new();
        let mut found: Option<String> = None;
        let mut i: usize = 0;
        while i < self.entries.len()
            invariant
                self.entries@ == s,
                i <= s.len(),
                pending_map(kept@) == pending_map(s.subrange(0, i as int)).remove(id@),
                match found {
                    Some(m) => pending_map(s.subrange(0, i as int)).contains_key(id@)
                        && pending_map(s.subrange(0, i as int))[id@] == m@,
                    None => !pending_map(s.subrange(0, i as int)).contains_key(id@),
                },
            decreases s.len() - i,
        {
            proof {
                assert(s.subrange(0, i + 1) == s.subrange(0, i as int).push(s[i as int]));
                lemma_pending_map_push(s.subrange(0, i as int), s[i as int]);
            }
            if self.entries[i].0.same_as(id) {
                found = Some(self.entries[i].1.clone());
                assert(pending_map(kept@) =~= pending_map(s.subrange(0, i + 1)).remove(id@));
            } else {
                let key = self.entries[i].0.duplicate();
                let method = self.entries[i].1.clone();
                proof {
                    lemma_pending_map_push(kept@, (key, method));
                }
                kept.push((key, method));
                assert(pending_map(kept@) =~= pending_map(s.subrange(0, i + 1)).remove(id@));
            }
            i = i + 1;
        }
        assert(s.subrange(0, s.len() as int) == s);
        self.entries = kept;
        found
    }

    /// Whether an entry for `id` is pending.
    pub fn contains(&self, id: &RequestId) -> (r: bool)
        ensures
            r == self@.contains_key(id@),
    {
        let ghost s = self.entries@;
        let mut found = false;
        let mut i: usize = 0;
        while i < self.entries.len()
            invariant
                self.entries@ == s,
                i <= s.len(),
                found == pending_map(s.subrange(0, i as int)).contains_key(id@),
            decreases s.len() - i,
        {
            proof {
                assert(s.subrange(0, i + 1) == s.subrange(0, i as int).push(s[i as int]));
                lemma_pending_map_push(s.subrange(0, i as int), s[i as int]);
            }
            if self.entries[i].0.same_as(id) {
                found = true;
            }
            i = i + 1;
        }
        assert(s.subrange(0, s.len() as int) == s);
        found
    }
}

/// The hooks registered by method name, as a map in which a later registration of a name
/// replaces the earlier one.
pub open spec fn registry_map<H>(s: Seq<(String, H)>) -> Map<Seq<char>, H>
    decreases s.len(),
{
    if s.len() == 0 {
        Map::empty()
    } else {
        registry_map(s.drop_last()).insert(s.last().0@, s.last().1)
    }
}

/// Entries after the last one with a key do not change what the map says of that key.
proof fn lemma_registry_prefix<H>(s: Seq<(String, H)>, j: int, key: Seq<char>)
    requires
        0 <= j <= s.len(),
        forall|t: int| j <= t < s.len() ==> #[trigger] s[t].0@ != key,
    ensures
        registry_map(s).contains_key(key) == registry_map(s.subrange(0, j)).contains_key(key),
        registry_map(s).contains_key(key) ==> registry_map(s)[key] == registry_map(
            s.subrange(0, j),
        )[key],
    decreases s.len() - j,
{
    if j < s.len() {
        lemma_registry_prefix(s, j + 1, key);
        assert(s.subrange(0, j + 1).drop_last() == s.subrange(0, j));
    } else {
        assert(s.subrange(0, j) == s);
    }
}

/// The hooks of a session, by method name.
pub struct HookRegistry<H> {
    entries: Vec<(String, H)>,
}

impl<H> View for HookRegistry<H> {
    type V = Map<Seq<char>, H>;

    closed spec fn view(&self) -> Map<Seq<char>, H> {
        registry_map(self.entries@)
    }
}

impl<H> HookRegistry<H> {
    /// A registry with no hook.
    pub fn new() -> (r: HookRegistry<H>)
        ensures
            r@ == Map::<Seq<char>, H>::empty(),
    {
        HookRegistry { entries: Vec::new() }
    }

    /// Registers `hook` for `method`, replacing any hook registered for it before.
    pub fn register(&mut self, method: &str, hook: H)
        ensures
            final(self)@ == old(self)@.insert(method@, hook),
    {
        let key = String::from_str(method);
        self.entries.push((key, hook));
        assert(self.entries@.drop_last() == old(self).entries@);
    }

    /// The hook registered for `method`.
    pub fn lookup(&self, method: &str) -> (r: Option<&H>)
        ensures
            match r {
                Some(h) => self@.contains_key(method@) && self@[method@] == *h,
                None => !self@.contains_key(method@),
            },
    {
        let key = String::from_str(method);
        let mut i: usize = self.entries.len();
        while i > 0
            invariant
                i <= self.entries@.len(),
                key@ == method@,
                forall|t: int| i <= t < self.entries@.len() ==> #[trigger] self.entries@[t].0@ != key@,
            decreases i,
        {
            if self.entries[i - 1].0 == key {
                proof {
                    let s = self.entries@;
                    lemma_registry_prefix(s, i as int, key@);
                    assert(s.subrange(0, i as int).drop_last() == s.subrange(0, i - 1));
                }
                return Some(&self.entries[i - 1].1);
            }
            i = i - 1;
        }
        proof {
            lemma_registry_prefix(self.entries@, 0, key@);
        }
        None
    }

    /// Whether a hook is registered for `method`.
    pub fn contains(&self, method: &str) -> (r: bool)
        ensures
            r == self@.contains_key(method@),
    {
        self.lookup(method).is_some()
    }
}

/// What the pipeline decided for one message.
#[derive(Debug, PartialEq)]
pub enum Dispatch {
    /// No hook applies: the message goes on unchanged.
    Forward(Message),
    /// The hook registered for `method` is to be invoked on `message`.
    Invoke { method: String, message: Message },
}

impl Dispatch {
    /// The method whose hook is to be invoked, if any.
    pub open spec fn hook_method(&self) -> Option<Seq<char>> {
        match self {
            Dispatch::Forward(_) => None,
            Dispatch::Invoke { method, .. } => Some(method@),
        }
    }

    /// The message that the decision carries.
    pub open spec fn carried(&self) -> Message {
        match self {
            Dispatch::Forward(m) => *m,
            Dispatch::Invoke { message, .. } => *message,
        }
    }
}

/// The hook to invoke, if any, and the correlation table after one message: a request for a
/// hooked method is recorded; a response takes its id's entry and goes to the hook of the
/// recorded method; a notification goes to its method's hook; all else passes through.
pub open spec fn dispatch_spec(
    hooks: Set<Seq<char>>,
    table: Map<IdV, Seq<char>>,
    m: MessageV,
) -> (Option<Seq<char>>, Map<IdV, Seq<char>>) {
    match m {
        MessageV::Request { id, method, .. } => if hooks.contains(method) {
            (Some(method), table.insert(id, method))
        } else {
            (None, table)
        },
        MessageV::Notification { method, .. } => if hooks.contains(method) {
            (Some(method), table)
        } else {
            (None, table)
        },
        MessageV::Response { id, .. } => if table.contains_key(id) && hooks.contains(table[id]) {
            (Some(table[id]), table.remove(id))
        } else {
            (None, table.remove(id))
        },
    }
}

impl<H> HookRegistry<H> {
    /// Decides what happens to `message`, and records or takes its correlation entry.
    pub fn dispatch(&self, table: &mut PendingRequests, message: Message) -> (r: Dispatch)
        ensures
            (r.hook_method(), final(table)@) == dispatch_spec(self@.dom(), old(table)@, message@),
            r.carried() == message,
    {
        match message {
            Message::Request(request) => {
                if self.contains(request.method.as_str()) {
                    let method = request.method.clone();
                    table.record(request.id.duplicate(), request.method.clone());
                    Dispatch::Invoke { method, message: Message::Request(request) }
                } else {
                    Dispatch::Forward(Message::Request(request))
                }
            },
            Message::Notification(note) => {
                if self.contains(note.method.as_str()) {
                    let method = note.method.clone();
                    Dispatch::Invoke { method, message: Message::Notification(note) }
                } else {
                    Dispatch::Forward(Message::Notification(note))
                }
            },
            Message::Response(response) => {
                match table.take(&response.id) {
                    Some(method) => {
                        if self.contains(method.as_str()) {
                            Dispatch::Invoke { method, message: Message::Response(response) }
                        } else {
                            Dispatch::Forward(Message::Response(response))
                        }
                    },
                    None => Dispatch::Forward(Message::Response(response)),
                }
            },
        }
    }
}

/// The messages to send, in order, with the direction of each.
pub open spec fn routed(p: ProcessedMessage, primary: Direction) -> Seq<(Direction, Message)> {
    match p.primary() {
        Some(m) => seq![(primary, m)] + p.generated(),
        None => p.generated(),
    }
}

/// Orders what a dispatch produced for sending: the primary message first, travelling in
/// `primary`, then each generated message in the order the hook gave, in its own direction.
pub fn route(processed: ProcessedMessage, primary: Direction) -> (r: Vec<(Direction, Message)>)
    ensures
        r@ == routed(processed, primary),
{
    let ghost p = processed;
    let (main, generated) = processed.into_parts();
    match main {
        Some(m) => {
            let mut out: Vec<(Direction, Message)> = Vec::new();
            out.push((primary, m));
            let mut generated = generated;
            out.append(&mut generated);
            assert(out@ =~= routed(p, primary));
            out
        },
        None => generated,
    }
}

/// The messages that reach the queue of direction `d`, in order.
pub open spec fn queue_of(s: Seq<(Direction, Message)>, d: Direction) -> Seq<Message>
    decreases s.len(),
{
    if s.len() == 0 {
        Seq::empty()
    } else {
        let rest = queue_of(s.drop_first(), d);
        if s[0].0 == d {
            seq![s[0].1] + rest
        } else {
            rest
        }
    }
}

/// Each queue receives the primary message, if it travels that way, before the generated
/// messages bound for it, and these in the order the hook produced them; when the primary
/// message is dropped, the queues receive the generated messages alone.
pub proof fn lemma_route_order(p: ProcessedMessage, primary: Direction, d: Direction)
    ensures
        queue_of(routed(p, primary), d) == (match p.primary() {
            Some(m) => if d == primary {
                seq![m]
            } else {
                Seq::empty()
            },
            None => Seq::empty(),
        }) + queue_of(p.generated(), d),
{
    if let Some(m) = p.primary() {
        assert((seq![(primary, m)] + p.generated()).drop_first() == p.generated());
    }
    assert(Seq::<Message>::empty() + queue_of(p.generated(), d) == queue_of(p.generated(), d));
}

/// A message whose method has no hook, or a response whose id was never recorded, passes
/// through unchanged and leaves the table as it was (for a response, without its id's entry,
/// which it never had).
pub proof fn lemma_no_hook_passthrough(
    hooks: Set<Seq<char>>,
    table: Map<IdV, Seq<char>>,
    m: MessageV,
)
    requires
        match m {
            MessageV::Request { method, .. } => !hooks.contains(method),
            MessageV::Notification { method, .. } => !hooks.contains(method),
            MessageV::Response { id, .. } => !table.contains_key(id),
        },
    ensures
        dispatch_spec(hooks, table, m) == (None::<Seq<char>>, table),
{
    if let MessageV::Response { id, .. } = m {
        assert(table.remove(id) =~= table);
    }
}

/// The correlation table after the first `i` messages of `events`, starting from `t0`.
pub open spec fn table_after(
    hooks: Set<Seq<char>>,
    t0: Map<IdV, Seq<char>>,
    events: Seq<MessageV>,
    i: nat,
) -> Map<IdV, Seq<char>>
    decreases i,
{
    if i == 0 || i > events.len() {
        t0
    } else {
        dispatch_spec(hooks, table_after(hooks, t0, events, (i - 1) as nat), events[i - 1]).1
    }
}

/// The method whose hook message `i` of `events` is dispatched to, if any.
pub open spec fn hook_at(
    hooks: Set<Seq<char>>,
    t0: Map<IdV, Seq<char>>,
    events: Seq<MessageV>,
    i: nat,
) -> Option<Seq<char>> {
    dispatch_spec(hooks, table_after(hooks, t0, events, i), events[i as int]).0
}

pub open spec fn is_request(m: MessageV, id: IdV, method: Seq<char>) -> bool {
    match m {
        MessageV::Request { id: i, method: mm, .. } => i == id && mm == method,
        _ => false,
    }
}

pub open spec fn is_response(m: MessageV, id: IdV) -> bool {
    match m {
        MessageV::Response { id: i, .. } => i == id,
        _ => false,
    }
}

/// The table that the first `i` requests leave behind.
pub open spec fn recorded(hooks: Set<Seq<char>>, ids: Seq<IdV>, methods: Seq<Seq<char>>, i: nat) -> Map<
    IdV,
    Seq<char>,
>
    decreases i,
{
    if i == 0 {
        Map::empty()
    } else {
        let t = recorded(hooks, ids, methods, (i - 1) as nat);
        if hooks.contains(methods[i - 1]) {
            t.insert(ids[i - 1], methods[i - 1])
        } else {
            t
        }
    }
}

/// The table `t` after the responses to the requests `order[0..k]` took their entries.
pub open spec fn taken(t: Map<IdV, Seq<char>>, ids: Seq<IdV>, order: Seq<int>, k: nat) -> Map<
    IdV,
    Seq<char>,
>
    decreases k,
{
    if k == 0 {
        t
    } else {
        taken(t, ids, order, (k - 1) as nat).remove(ids[order[k - 1]])
    }
}

proof fn lemma_recorded_entry(
    hooks: Set<Seq<char>>,
    ids: Seq<IdV>,
    methods: Seq<Seq<char>>,
    i: nat,
    j: int,
)
    requires
        i <= ids.len() == methods.len(),
        0 <= j < ids.len(),
        forall|a: int, b: int| 0 <= a < b < ids.len() ==> ids[a] != ids[b],
    ensures
        j < i ==> (recorded(hooks, ids, methods, i).contains_key(ids[j]) == hooks.contains(
            methods[j],
        )),
        j < i && hooks.contains(methods[j]) ==> recorded(hooks, ids, methods, i)[ids[j]]
            == methods[j],
        j >= i ==> !recorded(hooks, ids, methods, i).contains_key(ids[j]),
    decreases i,
{
    if i > 0 {
        lemma_recorded_entry(hooks, ids, methods, (i - 1) as nat, j);
        if j != i - 1 {
            assert(ids[i - 1] != ids[j]);
        }
    }
}

proof fn lemma_taken_entry(t: Map<IdV, Seq<char>>, ids: Seq<IdV>, order: Seq<int>, k: nat, x: IdV)
    requires
        k <= order.len(),
        forall|q: int| 0 <= q < k ==> ids[#[trigger] order[q]] != x,
    ensures
        taken(t, ids, order, k).contains_key(x) == t.contains_key(x),
        t.contains_key(x) ==> taken(t, ids, order, k)[x] == t[x],
    decreases k,
{
    if k > 0 {
        lemma_taken_entry(t, ids, order, (k - 1) as nat, x);
        assert(ids[order[k - 1]] != x);
    }
}

proof fn lemma_table_after_requests(
    hooks: Set<Seq<char>>,
    ids: Seq<IdV>,
    methods: Seq<Seq<char>>,
    events: Seq<MessageV>,
    i: nat,
)
    requires
        i <= ids.len() == methods.len(),
        ids.len() <= events.len(),
        forall|j: int| 0 <= j < ids.len() ==> is_request(#[trigger] events[j], ids[j], methods[j]),
    ensures
        table_after(hooks, Map::empty(), events, i) == recorded(hooks, ids, methods, i),
    decreases i,
{
    if i > 0 {
        lemma_table_after_requests(hooks, ids, methods, events, (i - 1) as nat);
        assert(is_request(events[i - 1], ids[i - 1], methods[i - 1]));
    }
}

proof fn lemma_table_after_responses(
    hooks: Set<Seq<char>>,
    ids: Seq<IdV>,
    methods: Seq<Seq<char>>,
    order: Seq<int>,
    events: Seq<MessageV>,
    k: nat,
)
    requires
        ids.len() == methods.len() == order.len(),
        events.len() == 2 * ids.len(),
        k <= ids.len(),
        forall|j: int| 0 <= j < ids.len() ==> is_request(#[trigger] events[j], ids[j], methods[j]),
        forall|q: int|
            0 <= q < order.len() ==> 0 <= #[trigger] order[q] < ids.len() && is_response(
                events[ids.len() + q],
                ids[order[q]],
            ),
    ensures
        table_after(hooks, Map::empty(), events, ids.len() + k) == taken(
            recorded(hooks, ids, methods, ids.len()),
            ids,
            order,
            k,
        ),
    decreases k,
{
    let n = ids.len();
    if k == 0 {
        lemma_table_after_requests(hooks, ids, methods, events, n);
    } else {
        lemma_table_after_responses(hooks, ids, methods, order, events, (k - 1) as nat);
        assert(is_response(events[n + (k - 1)], ids[order[k - 1]]));
        assert((n + k - 1) as nat == (n + (k - 1)) as nat);
    }
}

/// Correlation is exact: after requests with distinct ids, followed by their responses in
/// any order, each response is dispatched to the hook of its own request's method, or to
/// none when that method has no hook; and each request to its own method's hook.
pub proof fn lemma_correlation(
    hooks: Set<Seq<char>>,
    ids: Seq<IdV>,
    methods: Seq<Seq<char>>,
    order: Seq<int>,
    events: Seq<MessageV>,
)
    requires
        ids.len() == methods.len() == order.len(),
        events.len() == 2 * ids.len(),
        forall|a: int, b: int| 0 <= a < b < ids.len() ==> ids[a] != ids[b],
        forall|j: int| 0 <= j < ids.len() ==> is_request(#[trigger] events[j], ids[j], methods[j]),
        forall|q: int|
            0 <= q < order.len() ==> 0 <= #[trigger] order[q] < ids.len() && is_response(
                events[ids.len() + q],
                ids[order[q]],
            ),
        forall|a: int, b: int| 0 <= a < b < order.len() ==> order[a] != order[b],
    ensures
        forall|j: int|
            0 <= j < ids.len() ==> #[trigger] hook_at(hooks, Map::empty(), events, j as nat) == (
            if hooks.contains(methods[j]) {
                Some(methods[j])
            } else {
                None
            }),
        forall|k: int|
            0 <= k < ids.len() ==> #[trigger] hook_at(
                hooks,
                Map::empty(),
                events,
                (ids.len() + k) as nat,
            ) == (if hooks.contains(methods[order[k]]) {
                Some(methods[order[k]])
            } else {
                None
            }),
{
    let n = ids.len();
    assert forall|j: int| 0 <= j < n implies #[trigger] hook_at(
        hooks,
        Map::empty(),
        events,
        j as nat,
    ) == (if hooks.contains(methods[j]) {
        Some(methods[j])
    } else {
        None
    }) by {
        assert(is_request(events[j], ids[j], methods[j]));
    }
    assert forall|k: int| 0 <= k < n implies #[trigger] hook_at(
        hooks,
        Map::empty(),
        events,
        (n + k) as nat,
    ) == (if hooks.contains(methods[order[k]]) {
        Some(methods[order[k]])
    } else {
        None
    }) by {
        let j = order[k];
        let x = ids[j];
        let t = recorded(hooks, ids, methods, n);
        lemma_table_after_responses(hooks, ids, methods, order, events, k as nat);
        lemma_recorded_entry(hooks, ids, methods, n, j);
        assert forall|q: int| 0 <= q < k implies ids[#[trigger] order[q]] != x by {
            assert(order[q] != order[k]);
            if order[q] < j {
                assert(ids[order[q]] != ids[j]);
            } else {
                assert(ids[j] != ids[order[q]]);
            }
        }
        lemma_taken_entry(t, ids, order, k as nat, x);
        assert(is_response(events[n + k], x));
    }
}

/// A proxy session's state before it runs: its hooks and an empty correlation table.
pub struct Proxy<H> {
    hooks: HookRegistry<H>,
    pending_requests: PendingRequests,
}

impl<H> Proxy<H> {
    fn new(hooks: HookRegistry<H>) -> (r: Proxy<H>)
        ensures
            r.hooks()@ == hooks@,
            r.pending()@ == Map::<IdV, Seq<char>>::empty(),
    {
        Proxy { hooks, pending_requests: PendingRequests::new() }
    }

    pub closed spec fn hooks(&self) -> HookRegistry<H> {
        self.hooks
    }

    pub closed spec fn pending(&self) -> PendingRequests {
        self.pending_requests
    }

    /// The registry and the correlation table that a session runs with.
    pub fn into_parts(self) -> (r: (HookRegistry<H>, PendingRequests))
        ensures
            r.0@ == self.hooks()@,
            r.1@ == self.pending()@,
    {
        (self.hooks, self.pending_requests)
    }
}

impl<H> Default for Proxy<H> {
    /// A proxy with no hooks.
    fn default() -> (r: Proxy<H>)
        ensures
            r.hooks()@ == Map::<Seq<char>, H>::empty(),
            r.pending()@ == Map::<IdV, Seq<char>>::empty(),
    {
        Proxy::new(HookRegistry::new())
    }
}

/// Assembles the hooks of a proxy; the last registration for a method wins.
pub struct ProxyBuilder<H> {
    hooks: HookRegistry<H>,
}

impl<H> ProxyBuilder<H> {
    pub closed spec fn hooks(&self) -> Map<Seq<char>, H> {
        self.hooks@
    }

    pub fn new() -> (r: ProxyBuilder<H>)
        ensures
            r.hooks() == Map::<Seq<char>, H>::empty(),
    {
        ProxyBuilder { hooks: HookRegistry::new() }
    }

    pub fn with_hook(self, method: &str, hook: H) -> (r: ProxyBuilder<H>)
        ensures
            r.hooks() == self.hooks().insert(method@, hook),
    {
        let mut b = self;
        b.hooks.register(method, hook);
        b
    }

    pub fn build(self) -> (r: Proxy<H>)
        ensures
            r.hooks()@ == self.hooks(),
            r.pending()@ == Map::<IdV, Seq<char>>::empty(),
    {
        Proxy::new(self.hooks)
    }
}

impl<H> Default for ProxyBuilder<H> {
    /// A builder with no hooks.
    fn default() -> (r: ProxyBuilder<H>)
        ensures
            r.hooks() == Map::<Seq<char>, H>::empty(),
    {
        ProxyBuilder::new()
    }
}

} // verus!
