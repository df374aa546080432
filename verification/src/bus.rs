//! Host-owned dual-channel Bus (Pub/Sub + Request/Response).
//! Surfaces talk only through a scoped `BusProxy`: each operation checks the Manifest's
//! permissions and the topic's contract before the Bus routes anything.
//! Handlers are named by `HandlerId`; whoever registered a handler runs it when the Bus
//! routes a payload to that id.

use vstd::prelude::*;

use crate::json::{schema_check, validate_against_schema, JsonValue, JsonView};
use crate::manifest::{
    contract_for, contract_of, declares_topic, texts, BusContract, ManifestPermissions,
};

verus! {

/// Name of a registered subscriber or request handler.
pub type HandlerId = u64;

/// Why the Bus refused an operation.
#[derive(Debug, PartialEq, Eq)]
pub enum BusError {
    PermissionDenied { action: &'static str, topic: String },
    UnknownTopic(String),
    ContractViolation(String),
    NoHandler(String),
    NotLoaded(String),
}

/// The content of a `BusError`.
pub enum BusErrorView {
    PermissionDenied { action: Seq<char>, topic: Seq<char> },
    UnknownTopic(Seq<char>),
    ContractViolation(Seq<char>),
    NoHandler(Seq<char>),
    NotLoaded(Seq<char>),
}

impl View for BusError {
    type V = BusErrorView;

    open spec fn view(&self) -> BusErrorView {
        match self {
            BusError::PermissionDenied { action, topic } => BusErrorView::PermissionDenied {
                action: action@,
                topic: topic@,
            },
            BusError::UnknownTopic(t) => BusErrorView::UnknownTopic(t@),
            BusError::ContractViolation(m) => BusErrorView::ContractViolation(m@),
            BusError::NoHandler(t) => BusErrorView::NoHandler(t@),
            BusError::NotLoaded(id) => BusErrorView::NotLoaded(id@),
        }
    }
}

/// The description `BusError::message` gives.
pub open spec fn bus_error_text(e: BusError) -> Seq<char> {
    match e {
        BusError::PermissionDenied { action, topic } => "Bus permission denied: cannot "@ + action@
            + " `"@ + topic@ + "`"@,
        BusError::UnknownTopic(t) => "unknown Bus topic `"@ + t@ + "`"@,
        BusError::ContractViolation(m) => "Bus contract violation: "@ + m@,
        BusError::NoHandler(t) => "no handler for `"@ + t@ + "`"@,
        BusError::NotLoaded(id) => "Plugin not loaded on Bus: "@ + id@,
    }
}

impl BusError {
    /// Human-readable description.
    pub fn message(&self) -> (r: String)
        ensures
            r@ == bus_error_text(*self),
    {
        match self {
            BusError::PermissionDenied { action, topic } => String::from_str(
                "Bus permission denied: cannot ",
            ).concat(action).concat(" `").concat(topic.as_str()).concat("`"),
            BusError::UnknownTopic(t) => String::from_str("unknown Bus topic `").concat(
                t.as_str(),
            ).concat("`"),
            BusError::ContractViolation(m) => String::from_str("Bus contract violation: ").concat(
                m.as_str(),
            ),
            BusError::NoHandler(t) => String::from_str("no handler for `").concat(t.as_str()).concat(
                "`",
            ),
            BusError::NotLoaded(id) => String::from_str("Plugin not loaded on Bus: ").concat(
                id.as_str(),
            ),
        }
    }
}

/// A request handler registered for a topic, with the serving Plugin's contract for it.
pub struct ServerEntry {
    pub topic: String,
    pub handler: HandlerId,
    pub contract: BusContract,
}

/// Internal Bus router. Plugin surfaces reach it only through a `BusProxy`.
pub struct Bus {
    /// (topic, subscriber) in subscription order.
    pub subscribers: Vec<(String, HandlerId)>,
    /// Request handlers; a topic has at most the handler of its latest `serve`.
    pub servers: Vec<ServerEntry>,
    /// The id the next registration gets.
    pub next_handler: HandlerId,
}

/// Subscribers of `topic`, in subscription order.
pub open spec fn subscribers_for(subs: Seq<(String, HandlerId)>, topic: Seq<char>) -> Seq<HandlerId>
    decreases subs.len(),
{
    if subs.len() == 0 {
        Seq::empty()
    } else {
        let rest = subscribers_for(subs.drop_last(), topic);
        if subs.last().0@ == topic {
            rest.push(subs.last().1)
        } else {
            rest
        }
    }
}

/// Index of the handler serving `topic`, or -1.
pub open spec fn server_pos(servers: Seq<ServerEntry>, topic: Seq<char>) -> int
    decreases servers.len(),
{
    if servers.len() == 0 {
        -1
    } else if servers[0].topic@ == topic {
        0
    } else {
        let p = server_pos(servers.drop_first(), topic);
        if p < 0 {
            -1
        } else {
            p + 1
        }
    }
}

/// The entry serving `topic`, if any.
pub open spec fn server_for(servers: Seq<ServerEntry>, topic: Seq<char>) -> Option<ServerEntry> {
    let p = server_pos(servers, topic);
    if p >= 0 {
        Some(servers[p])
    } else {
        None
    }
}

proof fn lemma_server_pos(servers: Seq<ServerEntry>, topic: Seq<char>, i: int)
    requires
        -1 <= i < servers.len(),
        i >= 0 ==> servers[i].topic@ == topic,
        forall|j: int| 0 <= j < servers.len() && (i < 0 || j < i) ==> #[trigger] servers[j].topic@ != topic,
    ensures
        server_pos(servers, topic) == i,
    decreases servers.len(),
{
    if servers.len() > 0 && servers[0].topic@ != topic {
        let t = servers.drop_first();
        assert forall|j: int| 0 <= j < t.len() && (i - 1 < 0 || j < i - 1) implies #[trigger] t[j].topic@
            != topic by {
            assert(t[j] == servers[j + 1]);
        }
        if i > 0 {
            assert(t[i - 1] == servers[i]);
            lemma_server_pos(t, topic, i - 1);
        } else {
            lemma_server_pos(t, topic, -1);
        }
    }
}

/// `topic` is one of `allowed`.
pub open spec fn permits(allowed: Seq<String>, topic: Seq<char>) -> bool {
    texts(allowed).contains(topic)
}

/// Whether `topic` is one of `allowed`.
fn list_permits(allowed: &Vec<String>, topic: &String) -> (b: bool)
    ensures
        b == permits(allowed@, topic@),
{
    let mut i: usize = 0;
    while i < allowed.len()
        invariant
            i <= allowed@.len(),
            forall|j: int| 0 <= j < i ==> #[trigger] allowed@[j]@ != topic@,
        decreases allowed.len() - i,
    {
        if allowed[i] == *topic {
            assert(texts(allowed@)[i as int] == topic@);
            return true;
        }
        i = i + 1;
    }
    assert forall|j: int| 0 <= j < texts(allowed@).len() implies texts(allowed@)[j] != topic@ by {
        assert(texts(allowed@)[j] == allowed@[j]@);
    }
    false
}

/// The handler a served call goes to, with the serving Plugin's contract.
#[derive(Debug)]
pub struct CallRoute {
    pub handler: HandlerId,
    pub server_contract: BusContract,
}

/// Scoped Bus handle for one Plugin surface (window UI or Sidecar).
pub struct BusProxy {
    pub plugin_id: String,
    pub permissions: ManifestPermissions,
    pub contracts: Vec<(String, BusContract)>,
}

impl Default for Bus {
    /// An empty Bus.
    fn default() -> (b: Self)
        ensures
            b.subscribers@.len() == 0,
            b.servers@.len() == 0,
    {
        Bus::new()
    }
}

impl Bus {
    /// An empty Bus: no subscribers, no handlers.
    pub fn new() -> (b: Bus)
        ensures
            b.subscribers@.len() == 0,
            b.servers@.len() == 0,
            b.next_handler == 0,
    {
        Bus { subscribers: Vec::new(), servers: Vec::new(), next_handler: 0 }
    }

    /// A proxy that acts for `plugin_id` with its Manifest's permissions and contracts.
    pub fn proxy(
        &self,
        plugin_id: String,
        permissions: ManifestPermissions,
        contracts: Vec<(String, BusContract)>,
    ) -> (p: BusProxy)
        ensures
            p.plugin_id == plugin_id,
            p.permissions == permissions,
            p.contracts == contracts,
    {
        BusProxy { plugin_id, permissions, contracts }
    }

    /// Subscribers of `topic`, in subscription order.
    pub fn subscribers_of(&self, topic: &String) -> (r: Vec<HandlerId>)
        ensures
            r@ == subscribers_for(self.subscribers@, topic@),
    {
        let mut r: Vec<HandlerId> = Vec::new();
        let mut i: usize = 0;
        while i < self.subscribers.len()
            invariant
                i <= self.subscribers@.len(),
                r@ == subscribers_for(self.subscribers@.subrange(0, i as int), topic@),
            decreases self.subscribers.len() - i,
        {
            proof {
                let next = self.subscribers@.subrange(0, i + 1);
                assert(next.drop_last() =~= self.subscribers@.subrange(0, i as int));
            }
            if self.subscribers[i].0 == *topic {
                r.push(self.subscribers[i].1);
            }
            i = i + 1;
        }
        assert(self.subscribers@.subrange(0, self.subscribers@.len() as int) =~= self.subscribers@);
        r
    }

    /// Index of the handler serving `topic`.
    pub fn server_index(&self, topic: &String) -> (r: Option<usize>)
        ensures
            match r {
                Some(i) => i < self.servers@.len() && i as int == server_pos(self.servers@, topic@),
                None => server_pos(self.servers@, topic@) == -1,
            },
    {
        let mut i: usize = 0;
        while i < self.servers.len()
            invariant
                i <= self.servers@.len(),
                forall|j: int| 0 <= j < i ==> #[trigger] self.servers@[j].topic@ != topic@,
            decreases self.servers.len() - i,
        {
            if self.servers[i].topic == *topic {
                proof {
                    lemma_server_pos(self.servers@, topic@, i as int);
                }
                return Some(i);
            }
            i = i + 1;
        }
        proof {
            lemma_server_pos(self.servers@, topic@, -1);
        }
        None
    }

    fn fresh_handler(&mut self) -> (h: HandlerId)
        ensures
            h == old(self).next_handler,
            final(self).next_handler == old(self).next_handler.wrapping_add(1),
            final(self).subscribers == old(self).subscribers,
            final(self).servers == old(self).servers,
    {
        let h = self.next_handler;
        self.next_handler = self.next_handler.wrapping_add(1);
        h
    }

    fn register_subscriber(&mut self, topic: String) -> (h: HandlerId)
        ensures
            final(self).subscribers@ == old(self).subscribers@.push((topic, h)),
            final(self).servers == old(self).servers,
    {
        let h = self.fresh_handler();
        self.subscribers.push((topic, h));
        h
    }

    fn register_server(&mut self, topic: String, contract: BusContract) -> (h: HandlerId)
        ensures
            final(self).subscribers == old(self).subscribers,
            ({
                let p = server_pos(final(self).servers@, topic@);
                &&& 0 <= p < final(self).servers@.len()
                &&& final(self).servers@[p].handler == h
                &&& final(self).servers@[p].contract == contract
            }),
            forall|t: Seq<char>|
                t != topic@ ==> #[trigger] server_for(final(self).servers@, t) == server_for(old(self).servers@, t),
    {
        let h = self.fresh_handler();
        let found = self.server_index(&topic);
        let ghost before = self.servers@;
        proof {
            lemma_server_pos_facts(before, topic@);
        }
        match found {
            Some(i) => {
                let entry = ServerEntry { topic, handler: h, contract };
                self.servers.set(i, entry);
                proof {
                    let after = self.servers@;
                    assert forall|j: int| 0 <= j < after.len() && j < i implies #[trigger] after[j].topic@
                        != after[i as int].topic@ by {
                        assert(after[j] == before[j]);
                    }
                    lemma_server_pos(after, after[i as int].topic@, i as int);
                    assert forall|t: Seq<char>| t != after[i as int].topic@ implies #[trigger] server_for(after, t)
                        == server_for(before, t) by {
                        lemma_server_pos_facts(before, t);
                        let q = server_pos(before, t);
                        assert forall|j: int| 0 <= j < after.len() && (q < 0 || j < q) implies #[trigger] after[j].topic@
                            != t by {
                            if j != i {
                                assert(after[j] == before[j]);
                            }
                        }
                        if q >= 0 {
                            assert(q != i);
                            assert(after[q] == before[q]);
                        }
                        lemma_server_pos(after, t, q);
                    }
                }
            },
            None => {
                let ghost t0 = topic@;
                self.servers.push(ServerEntry { topic, handler: h, contract });
                proof {
                    let after = self.servers@;
                    lemma_server_pos_facts(before, t0);
                    assert forall|j: int| 0 <= j < after.len() && j < before.len() implies #[trigger] after[j].topic@
                        != t0 by {
                        assert(after[j] == before[j]);
                    }
                    lemma_server_pos(after, t0, before.len() as int);
                    assert forall|t: Seq<char>| t != t0 implies #[trigger] server_for(after, t) == server_for(before, t) by {
                        lemma_server_pos_facts(before, t);
                        let q = server_pos(before, t);
                        assert forall|j: int| 0 <= j < after.len() && (q < 0 || j < q) implies #[trigger] after[j].topic@
                            != t by {
                            if j < before.len() {
                                assert(after[j] == before[j]);
                            }
                        }
                        if q >= 0 {
                            assert(after[q] == before[q]);
                        }
                        lemma_server_pos(after, t, q);
                    }
                }
            },
        }
        h
    }
}

/// `server_pos` is the first index serving `topic`, or -1.
pub proof fn lemma_server_pos_facts(servers: Seq<ServerEntry>, topic: Seq<char>)
    ensures
        -1 <= server_pos(servers, topic) < servers.len(),
        server_pos(servers, topic) >= 0 ==> servers[server_pos(servers, topic)].topic@ == topic,
        forall|j: int|
            0 <= j < servers.len() && (server_pos(servers, topic) < 0 || j < server_pos(
                servers,
                topic,
            )) ==> #[trigger] servers[j].topic@ != topic,
    decreases servers.len(),
{
    if servers.len() > 0 && servers[0].topic@ != topic {
        let t = servers.drop_first();
        lemma_server_pos_facts(t, topic);
        assert forall|j: int|
            0 <= j < servers.len() && (server_pos(servers, topic) < 0 || j < server_pos(
                servers,
                topic,
            )) implies #[trigger] servers[j].topic@ != topic by {
            if j > 0 {
                assert(servers[j] == t[j - 1]);
            }
        }
    }
}

/// The first check a payload fails against a topic's schema, as a Bus error.
pub open spec fn schema_error(value: JsonValue, schema: JsonValue) -> Result<(), BusErrorView> {
    match schema_check(value@, schema@) {
        Ok(()) => Ok(()),
        Err(m) => Err(BusErrorView::ContractViolation(m)),
    }
}

/// Permission gate: `Ok` when `topic` is in `allowed`.
pub open spec fn permission_check(action: Seq<char>, topic: Seq<char>, allowed: Seq<String>) -> Result<
    (),
    BusErrorView,
> {
    if permits(allowed, topic) {
        Ok(())
    } else {
        Err(BusErrorView::PermissionDenied { action, topic })
    }
}

impl BusProxy {
    /// Every check `emit` makes, in order: the `emit` permission, a declared contract, and the
    /// payload against the contract's `request` schema.
    pub open spec fn emit_check(&self, topic: Seq<char>, payload: JsonValue) -> Result<(), BusErrorView> {
        if !permits(self.permissions.emit@, topic) {
            Err(BusErrorView::PermissionDenied { action: "emit"@, topic })
        } else if !declares_topic(self.contracts@, topic) {
            Err(BusErrorView::UnknownTopic(topic))
        } else {
            schema_error(payload, contract_of(self.contracts@, topic).request)
        }
    }

    /// The checks `subscribe` makes: the `subscribe` permission and a declared contract.
    pub open spec fn subscribe_check(&self, topic: Seq<char>) -> Result<(), BusErrorView> {
        if !permits(self.permissions.subscribe@, topic) {
            Err(BusErrorView::PermissionDenied { action: "subscribe"@, topic })
        } else if !declares_topic(self.contracts@, topic) {
            Err(BusErrorView::UnknownTopic(topic))
        } else {
            Ok(())
        }
    }

    /// The checks `serve` makes: the `call` permission and a declared contract.
    pub open spec fn serve_check(&self, topic: Seq<char>) -> Result<(), BusErrorView> {
        if !permits(self.permissions.call@, topic) {
            Err(BusErrorView::PermissionDenied { action: "call"@, topic })
        } else if !declares_topic(self.contracts@, topic) {
            Err(BusErrorView::UnknownTopic(topic))
        } else {
            Ok(())
        }
    }

    /// The checks `call` makes before a handler runs: the `call` permission, a declared
    /// contract, the request against it, a handler for the topic, and the request against the
    /// serving Plugin's contract.
    pub open spec fn call_check(&self, bus: Bus, topic: Seq<char>, payload: JsonValue) -> Result<
        (),
        BusErrorView,
    > {
        if !permits(self.permissions.call@, topic) {
            Err(BusErrorView::PermissionDenied { action: "call"@, topic })
        } else if !declares_topic(self.contracts@, topic) {
            Err(BusErrorView::UnknownTopic(topic))
        } else if schema_check(payload@, contract_of(self.contracts@, topic).request@) is Err {
            schema_error(payload, contract_of(self.contracts@, topic).request)
        } else if server_pos(bus.servers@, topic) < 0 {
            Err(BusErrorView::NoHandler(topic))
        } else {
            match schema_check(payload@, bus.servers@[server_pos(bus.servers@, topic)].contract.request@) {
                Ok(()) => Ok(()),
                Err(m) => Err(BusErrorView::ContractViolation("request: "@ + m)),
            }
        }
    }

    /// What a call returns once its handler gave `outcome`: a handler error, the response
    /// against the serving Plugin's contract, then against the caller's.
    pub open spec fn finish_outcome(
        &self,
        topic: Seq<char>,
        server_contract: (JsonView, JsonView),
        outcome: Result<JsonValue, String>,
    ) -> Result<(), BusErrorView> {
        match outcome {
            Err(m) => Err(BusErrorView::ContractViolation(m@)),
            Ok(res) => match schema_check(res@, server_contract.1) {
                Err(m) => Err(BusErrorView::ContractViolation("response: "@ + m)),
                Ok(()) => if !declares_topic(self.contracts@, topic) {
                    Err(BusErrorView::UnknownTopic(topic))
                } else {
                    schema_error(res, contract_of(self.contracts@, topic).response)
                },
            },
        }
    }

    /// The Plugin this proxy acts for.
    pub fn plugin_id(&self) -> (r: &String)
        ensures
            *r == self.plugin_id,
    {
        &self.plugin_id
    }

    fn ensure_permission(action: &'static str, topic: &String, allowed: &Vec<String>) -> (r: Result<
        (),
        BusError,
    >)
        ensures
            match r {
                Ok(()) => permission_check(action@, topic@, allowed@) is Ok,
                Err(e) => permission_check(action@, topic@, allowed@) == Err::<(), BusErrorView>(e@),
            },
    {
        if list_permits(allowed, topic) {
            Ok(())
        } else {
            Err(BusError::PermissionDenied { action, topic: topic.clone() })
        }
    }

    fn declared_contract(&self, topic: &String) -> (r: Result<&BusContract, BusError>)
        ensures
            match r {
                Ok(c) => declares_topic(self.contracts@, topic@) && *c == contract_of(
                    self.contracts@,
                    topic@,
                ),
                Err(e) => !declares_topic(self.contracts@, topic@) && e@ == BusErrorView::UnknownTopic(
                    topic@,
                ),
            },
    {
        match contract_for(&self.contracts, topic) {
            Some(c) => Ok(c),
            None => Err(BusError::UnknownTopic(topic.clone())),
        }
    }

    /// Publishes `payload` on `topic`. Returns the subscribers it is delivered to, in
    /// subscription order; the caller hands each of them the payload.
    pub fn emit(&self, bus: &Bus, topic: &str, payload: &JsonValue) -> (r: Result<
        Vec<HandlerId>,
        BusError,
    >)
        ensures
            match r {
                Ok(d) => self.emit_check(topic@, *payload) is Ok && d@ == subscribers_for(
                    bus.subscribers@,
                    topic@,
                ),
                Err(e) => self.emit_check(topic@, *payload) == Err::<(), BusErrorView>(e@),
            },
    {
        let t = String::from_str(topic);
        Self::ensure_permission("emit", &t, &self.permissions.emit)?;
        let contract = self.declared_contract(&t)?;
        match validate_against_schema(payload, &contract.request) {
            Ok(()) => {},
            Err(m) => {
                return Err(BusError::ContractViolation(m));
            },
        }
        Ok(bus.subscribers_of(&t))
    }

    /// Subscribes to `topic`; events published there are delivered to the returned handler.
    pub fn subscribe(&self, bus: &mut Bus, topic: &str) -> (r: Result<HandlerId, BusError>)
        ensures
            match r {
                Ok(h) => self.subscribe_check(topic@) is Ok && final(bus).subscribers@.len()
                    == old(bus).subscribers@.len() + 1 && final(bus).subscribers@.last().0@ == topic@
                    && final(bus).subscribers@.last().1 == h && final(bus).subscribers@.drop_last()
                    == old(bus).subscribers@ && final(bus).servers == old(bus).servers,
                Err(e) => self.subscribe_check(topic@) == Err::<(), BusErrorView>(e@) && *final(bus)
                    == *old(bus),
            },
    {
        let t = String::from_str(topic);
        Self::ensure_permission("subscribe", &t, &self.permissions.subscribe)?;
        let _contract = self.declared_contract(&t)?;
        let h = bus.register_subscriber(t);
        assert(bus.subscribers@.drop_last() =~= old(bus).subscribers@);
        Ok(h)
    }

    /// Serves requests on `topic` (this replaces any earlier handler for it); calls are routed
    /// to the returned handler. Serving needs the `call` permission.
    pub fn serve(&self, bus: &mut Bus, topic: &str) -> (r: Result<HandlerId, BusError>)
        ensures
            match r {
                Ok(h) => {
                    let p = server_pos(final(bus).servers@, topic@);
                    &&& self.serve_check(topic@) is Ok
                    &&& 0 <= p < final(bus).servers@.len()
                    &&& final(bus).servers@[p].handler == h
                    &&& final(bus).servers@[p].contract@ == contract_of(self.contracts@, topic@)@
                    &&& final(bus).subscribers == old(bus).subscribers
                    &&& forall|t: Seq<char>|
                        t != topic@ ==> #[trigger] server_for(final(bus).servers@, t) == server_for(
                            old(bus).servers@,
                            t,
                        )
                },
                Err(e) => self.serve_check(topic@) == Err::<(), BusErrorView>(e@) && *final(bus)
                    == *old(bus),
            },
    {
        let t = String::from_str(topic);
        Self::ensure_permission("call", &t, &self.permissions.call)?;
        let contract = self.declared_contract(&t)?;
        let c = contract.clone();
        let h = bus.register_server(t, c);
        Ok(h)
    }

    /// Starts a request on `topic`: returns the handler to run with `payload` and the serving
    /// Plugin's contract; `finish_call` then checks what the handler gave back.
    pub fn call(&self, bus: &Bus, topic: &str, payload: &JsonValue) -> (r: Result<CallRoute, BusError>)
        ensures
            match r {
                Ok(route) => {
                    let p = server_pos(bus.servers@, topic@);
                    &&& self.call_check(*bus, topic@, *payload) is Ok
                    &&& 0 <= p < bus.servers@.len()
                    &&& route.handler == bus.servers@[p].handler
                    &&& route.server_contract@ == bus.servers@[p].contract@
                },
                Err(e) => self.call_check(*bus, topic@, *payload) == Err::<(), BusErrorView>(e@),
            },
    {
        let t = String::from_str(topic);
        Self::ensure_permission("call", &t, &self.permissions.call)?;
        let contract = self.declared_contract(&t)?;
        match validate_against_schema(payload, &contract.request) {
            Ok(()) => {},
            Err(m) => {
                return Err(BusError::ContractViolation(m));
            },
        }
        let idx = match bus.server_index(&t) {
            Some(i) => i,
            None => {
                return Err(BusError::NoHandler(t));
            },
        };
        let entry = &bus.servers[idx];
        match validate_against_schema(payload, &entry.contract.request) {
            Ok(()) => {},
            Err(m) => {
                return Err(BusError::ContractViolation(String::from_str("request: ").concat(m.as_str())));
            },
        }
        Ok(CallRoute { handler: entry.handler, server_contract: entry.contract.clone() })
    }

    /// Completes a request on `topic` with the handler's `outcome`.
    pub fn finish_call(&self, topic: &str, route: &CallRoute, outcome: Result<JsonValue, String>) -> (r:
        Result<JsonValue, BusError>)
        ensures
            match r {
                Ok(res) => self.finish_outcome(topic@, route.server_contract@, outcome) is Ok
                    && outcome == Ok::<JsonValue, String>(res),
                Err(e) => self.finish_outcome(topic@, route.server_contract@, outcome) == Err::<
                    (),
                    BusErrorView,
                >(e@),
            },
    {
        let res = match outcome {
            Err(m) => {
                return Err(BusError::ContractViolation(m));
            },
            Ok(res) => res,
        };
        match validate_against_schema(&res, &route.server_contract.response) {
            Ok(()) => {},
            Err(m) => {
                return Err(
                    BusError::ContractViolation(String::from_str("response: ").concat(m.as_str())),
                );
            },
        }
        let t = String::from_str(topic);
        let contract = self.declared_contract(&t)?;
        match validate_against_schema(&res, &contract.response) {
            Ok(()) => {},
            Err(m) => {
                return Err(BusError::ContractViolation(m));
            },
        }
        Ok(res)
    }
}

/// Publishing on `topic` after a new subscription to it reaches every earlier subscriber of
/// `topic` in order and then the new one; subscribers of other topics are unaffected.
pub proof fn law_publish_reaches_new_subscriber(
    subs: Seq<(String, HandlerId)>,
    topic: String,
    h: HandlerId,
    other: Seq<char>,
)
    ensures
        subscribers_for(subs.push((topic, h)), topic@) == subscribers_for(subs, topic@).push(h),
        other != topic@ ==> subscribers_for(subs.push((topic, h)), other) == subscribers_for(
            subs,
            other,
        ),
{
    assert(subs.push((topic, h)).drop_last() =~= subs);
}

/// A call on `topic` goes to the handler of the latest `serve` of `topic`: when `servers`
/// serves `topic` at `server_pos` with handler `h`, no other entry is chosen.
pub proof fn law_call_goes_to_server(servers: Seq<ServerEntry>, topic: Seq<char>)
    ensures
        server_pos(servers, topic) >= 0 ==> servers[server_pos(servers, topic)].topic@ == topic,
        server_pos(servers, topic) < 0 ==> forall|j: int|
            0 <= j < servers.len() ==> #[trigger] servers[j].topic@ != topic,
{
    lemma_server_pos_facts(servers, topic);
}

/// Traffic on a topic the Manifest does not declare for that action is refused with
/// `PermissionDenied`, whatever the payload, the contracts or the Bus state.
pub proof fn law_undeclared_traffic_is_refused(
    proxy: BusProxy,
    bus: Bus,
    topic: Seq<char>,
    payload: JsonValue,
)
    ensures
        !permits(proxy.permissions.emit@, topic) ==> proxy.emit_check(topic, payload) == Err::<
            (),
            BusErrorView,
        >(BusErrorView::PermissionDenied { action: "emit"@, topic }),
        !permits(proxy.permissions.subscribe@, topic) ==> proxy.subscribe_check(topic) == Err::<
            (),
            BusErrorView,
        >(BusErrorView::PermissionDenied { action: "subscribe"@, topic }),
        !permits(proxy.permissions.call@, topic) ==> proxy.call_check(bus, topic, payload) == Err::<
            (),
            BusErrorView,
        >(BusErrorView::PermissionDenied { action: "call"@, topic }),
        !permits(proxy.permissions.call@, topic) ==> proxy.serve_check(topic) == Err::<
            (),
            BusErrorView,
        >(BusErrorView::PermissionDenied { action: "call"@, topic }),
{
}

/// A permitted, declared event whose payload breaks the topic's `request` schema is refused
/// with `ContractViolation` carrying the checker's message.
pub proof fn law_contract_violation_is_refused(proxy: BusProxy, topic: Seq<char>, payload: JsonValue)
    requires
        permits(proxy.permissions.emit@, topic),
        declares_topic(proxy.contracts@, topic),
        schema_check(payload@, contract_of(proxy.contracts@, topic).request@) is Err,
    ensures
        proxy.emit_check(topic, payload) == Err::<(), BusErrorView>(
            BusErrorView::ContractViolation(
                schema_check(payload@, contract_of(proxy.contracts@, topic).request@)->Err_0,
            ),
        ),
{
}

/// A permitted call on a declared topic whose payload breaks the caller's `request` schema is
/// refused with `ContractViolation` carrying the checker's message, whatever the Bus serves:
/// it is never routed to a handler.
pub proof fn law_invalid_request_is_never_routed(proxy: BusProxy, bus: Bus, topic: Seq<char>, payload: JsonValue)
    requires
        permits(proxy.permissions.call@, topic),
        declares_topic(proxy.contracts@, topic),
        schema_check(payload@, contract_of(proxy.contracts@, topic).request@) is Err,
    ensures
        proxy.call_check(bus, topic, payload) == Err::<(), BusErrorView>(
            BusErrorView::ContractViolation(
                schema_check(payload@, contract_of(proxy.contracts@, topic).request@)->Err_0,
            ),
        ),
{
}

/// A permitted call on a declared topic whose payload meets the caller's `request` schema is
/// routed when some Plugin serves the topic and the payload meets the serving Plugin's
/// `request` schema too; it is refused with `NoHandler` when none serves it, and with
/// `ContractViolation` (the message prefixed `request: `) when the serving schema fails.
pub proof fn law_valid_request_is_routed(proxy: BusProxy, bus: Bus, topic: Seq<char>, payload: JsonValue)
    requires
        permits(proxy.permissions.call@, topic),
        declares_topic(proxy.contracts@, topic),
        schema_check(payload@, contract_of(proxy.contracts@, topic).request@) is Ok,
    ensures
        server_pos(bus.servers@, topic) < 0 ==> proxy.call_check(bus, topic, payload) == Err::<(), BusErrorView>(
            BusErrorView::NoHandler(topic),
        ),
        server_pos(bus.servers@, topic) >= 0 ==> match schema_check(
            payload@,
            bus.servers@[server_pos(bus.servers@, topic)].contract.request@,
        ) {
            Ok(()) => proxy.call_check(bus, topic, payload) is Ok,
            Err(m) => proxy.call_check(bus, topic, payload) == Err::<(), BusErrorView>(
                BusErrorView::ContractViolation("request: "@ + m),
            ),
        },
{
}

/// A handler's answer that meets the serving and the calling Plugin's `response` schemas is
/// what the caller gets back, unchanged.
pub proof fn law_valid_response_round_trips(
    proxy: BusProxy,
    topic: Seq<char>,
    server_contract: (JsonView, JsonView),
    res: JsonValue,
)
    requires
        declares_topic(proxy.contracts@, topic),
        schema_check(res@, server_contract.1) is Ok,
        schema_check(res@, contract_of(proxy.contracts@, topic).response@) is Ok,
    ensures
        proxy.finish_outcome(topic, server_contract, Ok(res)) is Ok,
{
}

} // verus!
