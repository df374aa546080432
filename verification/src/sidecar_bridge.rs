//! Bridge between a Sidecar process (one JSON message per line on stdio) and the Host Bus:
//! which topics a Sidecar is wired to, and what each message means. Reading and writing the
//! lines is the caller's part.

use vstd::prelude::*;

use crate::bus::{server_for, server_pos, Bus, BusErrorView, BusProxy, HandlerId};
use crate::json::JsonValue;
use crate::text::{decimal, join_path, join_path_spec, u64_to_decimal};

verus! {

/// A message from the Host to a Sidecar.
#[derive(Debug, PartialEq, Eq)]
pub enum HostToSidecar {
    Event { topic: String, payload: JsonValue },
    Call { id: String, topic: String, payload: JsonValue },
    Shutdown,
}

/// A message from a Sidecar to the Host.
#[allow(inconsistent_fields)]
#[derive(Debug, PartialEq, Eq)]
pub enum SidecarToHost {
    Ready,
    Emit { topic: String, payload: JsonValue },
    Response { id: String, payload: JsonValue },
    Error { id: Option<String>, message: String },
}

/// What the Host does with a Sidecar message.
#[derive(Debug, PartialEq, Eq)]
pub enum BridgeStep {
    Nothing,
    /// Publish on the Bus through the Sidecar's Plugin proxy (a refusal is dropped).
    Publish { topic: String, payload: JsonValue },
    /// Hand `outcome` to the caller waiting on call `id`.
    Answer { id: String, outcome: Result<JsonValue, String> },
}

/// The Bus wiring of one running Sidecar.
pub struct SidecarBridge {
    pub plugin_id: String,
    /// Subscriber that forwards `echo.ping` events to the Sidecar.
    pub event_handler: HandlerId,
    /// Request handler that forwards `echo.reflect` calls to the Sidecar.
    pub call_handler: HandlerId,
    /// Number the next forwarded call is given.
    pub next_call: u64,
    /// Forwarded calls still waiting for an answer.
    pub waiting: Vec<String>,
}

/// Index of `id` among the waiting calls, or -1.
pub open spec fn waiting_pos(waiting: Seq<String>, id: Seq<char>) -> int
    decreases waiting.len(),
{
    if waiting.len() == 0 {
        -1
    } else if waiting[0]@ == id {
        0
    } else {
        let p = waiting_pos(waiting.drop_first(), id);
        if p < 0 {
            -1
        } else {
            p + 1
        }
    }
}

proof fn lemma_waiting_pos_is(waiting: Seq<String>, id: Seq<char>, i: int)
    requires
        -1 <= i < waiting.len(),
        i >= 0 ==> waiting[i]@ == id,
        forall|j: int| 0 <= j < waiting.len() && (i < 0 || j < i) ==> #[trigger] waiting[j]@ != id,
    ensures
        waiting_pos(waiting, id) == i,
    decreases waiting.len(),
{
    if waiting.len() > 0 && waiting[0]@ != id {
        let t = waiting.drop_first();
        assert forall|j: int| 0 <= j < t.len() && (i - 1 < 0 || j < i - 1) implies #[trigger] t[j]@ != id by {
            assert(t[j] == waiting[j + 1]);
        }
        if i > 0 {
            assert(t[i - 1] == waiting[i]);
            lemma_waiting_pos_is(t, id, i - 1);
        } else {
            lemma_waiting_pos_is(t, id, -1);
        }
    }
}

impl SidecarBridge {
    /// Wires the Sidecar of `proxy`'s Plugin to the Bus: subscribes it to `echo.ping` and has it
    /// serve `echo.reflect`. A refusal is reported with the Bus error's text (a subscription
    /// made before a refused `serve` stays on the Bus).
    pub fn attach(bus: &mut Bus, proxy: &BusProxy) -> (r: Result<SidecarBridge, String>)
        ensures
            match r {
                Ok(b) => {
                    &&& proxy.subscribe_check("echo.ping"@) is Ok
                    &&& proxy.serve_check("echo.reflect"@) is Ok
                    &&& b.plugin_id == proxy.plugin_id
                    &&& b.waiting@.len() == 0
                    &&& final(bus).subscribers@.len() == old(bus).subscribers@.len() + 1
                    &&& final(bus).subscribers@.last() == (final(bus).subscribers@.last().0, b.event_handler)
                    &&& final(bus).subscribers@.last().0@ == "echo.ping"@
                    &&& final(bus).subscribers@.drop_last() == old(bus).subscribers@
                    &&& forall|t: Seq<char>|
                        t != "echo.reflect"@ ==> #[trigger] server_for(final(bus).servers@, t) == server_for(
                            old(bus).servers@,
                            t,
                        )
                    &&& final(bus).servers@[server_pos(final(bus).servers@, "echo.reflect"@)].handler
                        == b.call_handler
                    &&& 0 <= server_pos(final(bus).servers@, "echo.reflect"@)
                },
                Err(m) => match proxy.subscribe_check("echo.ping"@) {
                    Err(e) => m@ == view_text(e),
                    Ok(()) => proxy.serve_check("echo.reflect"@) matches Err(e) && m@ == view_text(e),
                },
            },
    {
        let event_handler = match proxy.subscribe(bus, "echo.ping") {
            Ok(h) => h,
            Err(e) => {
                return Err(e.message());
            },
        };
        let ghost after_sub = *bus;
        let call_handler = match proxy.serve(bus, "echo.reflect") {
            Ok(h) => h,
            Err(e) => {
                return Err(e.message());
            },
        };
        Ok(
            SidecarBridge {
                plugin_id: proxy.plugin_id.clone(),
                event_handler,
                call_handler,
                next_call: 1,
                waiting: Vec::new(),
            },
        )
    }

    /// The message that delivers a Bus event to the Sidecar, when `handler` is its subscriber.
    pub fn event_message(&self, handler: HandlerId, payload: JsonValue) -> (r: Option<HostToSidecar>)
        ensures
            match r {
                Some(m) => {
                    &&& handler == self.event_handler
                    &&& m matches HostToSidecar::Event { topic, payload: p } && topic@ == "echo.ping"@
                        && p == payload
                },
                None => handler != self.event_handler,
            },
    {
        if handler == self.event_handler {
            Some(HostToSidecar::Event { topic: String::from_str("echo.ping"), payload })
        } else {
            None
        }
    }

    /// The message that forwards a call to the Sidecar; the call waits under a fresh number.
    pub fn begin_call(&mut self, payload: JsonValue) -> (r: HostToSidecar)
        requires
            old(self).next_call < u64::MAX,
        ensures
            r matches HostToSidecar::Call { id, topic, payload: p } && id@ == decimal(
                old(self).next_call as nat,
            ) && topic@ == "echo.reflect"@ && p == payload,
            final(self).next_call == old(self).next_call + 1,
            final(self).waiting@.len() == old(self).waiting@.len() + 1,
            final(self).waiting@.last()@ == decimal(old(self).next_call as nat),
            final(self).waiting@.drop_last() == old(self).waiting@,
            final(self).event_handler == old(self).event_handler,
            final(self).call_handler == old(self).call_handler,
            final(self).plugin_id == old(self).plugin_id,
    {
        let id = u64_to_decimal(self.next_call);
        self.next_call = self.next_call + 1;
        self.waiting.push(id.clone());
        assert(self.waiting@.drop_last() =~= old(self).waiting@);
        HostToSidecar::Call { id, topic: String::from_str("echo.reflect"), payload }
    }

    fn take_waiting(&mut self, id: &String) -> (found: bool)
        ensures
            found == (waiting_pos(old(self).waiting@, id@) >= 0),
            found ==> final(self).waiting@ == old(self).waiting@.remove(
                waiting_pos(old(self).waiting@, id@),
            ),
            !found ==> final(self).waiting@ == old(self).waiting@,
            final(self).next_call == old(self).next_call,
            final(self).event_handler == old(self).event_handler,
            final(self).call_handler == old(self).call_handler,
            final(self).plugin_id == old(self).plugin_id,
    {
        let mut i: usize = 0;
        while i < self.waiting.len()
            invariant
                i <= self.waiting@.len(),
                self.waiting == old(self).waiting,
                self.next_call == old(self).next_call,
                self.event_handler == old(self).event_handler,
                self.call_handler == old(self).call_handler,
                self.plugin_id == old(self).plugin_id,
                forall|j: int| 0 <= j < i ==> #[trigger] self.waiting@[j]@ != id@,
            decreases self.waiting.len() - i,
        {
            if self.waiting[i] == *id {
                proof {
                    lemma_waiting_pos_is(self.waiting@, id@, i as int);
                }
                self.waiting.remove(i);
                return true;
            }
            i = i + 1;
        }
        proof {
            lemma_waiting_pos_is(self.waiting@, id@, -1);
        }
        false
    }

    /// What a Sidecar message means: an emit is published on the Bus, and a response or an
    /// error for a waiting call answers that call (once); anything else is dropped.
    pub fn on_message(&mut self, msg: SidecarToHost) -> (r: BridgeStep)
        ensures
            match msg {
                SidecarToHost::Ready => r == BridgeStep::Nothing && final(self).waiting == old(self).waiting,
                SidecarToHost::Emit { topic, payload } => r == BridgeStep::Publish { topic, payload }
                    && final(self).waiting == old(self).waiting,
                SidecarToHost::Response { id, payload } => if waiting_pos(old(self).waiting@, id@)
                    >= 0 {
                    r == BridgeStep::Answer { id, outcome: Ok(payload) } && final(self).waiting@
                        == old(self).waiting@.remove(waiting_pos(old(self).waiting@, id@))
                } else {
                    r == BridgeStep::Nothing && final(self).waiting@ == old(self).waiting@
                },
                SidecarToHost::Error { id, message } => match id {
                    Some(id) => if waiting_pos(old(self).waiting@, id@) >= 0 {
                        r == BridgeStep::Answer { id, outcome: Err(message) } && final(self).waiting@ == old(self).waiting@.remove(waiting_pos(old(self).waiting@, id@))
                    } else {
                        r == BridgeStep::Nothing && final(self).waiting@ == old(self).waiting@
                    },
                    None => r == BridgeStep::Nothing && final(self).waiting == old(self).waiting,
                },
            },
            final(self).next_call == old(self).next_call,
            final(self).event_handler == old(self).event_handler,
            final(self).call_handler == old(self).call_handler,
    {
        match msg {
            SidecarToHost::Ready => BridgeStep::Nothing,
            SidecarToHost::Emit { topic, payload } => BridgeStep::Publish { topic, payload },
            SidecarToHost::Response { id, payload } => {
                if self.take_waiting(&id) {
                    BridgeStep::Answer { id, outcome: Ok(payload) }
                } else {
                    BridgeStep::Nothing
                }
            },
            SidecarToHost::Error { id, message } => match id {
                Some(id) => {
                    if self.take_waiting(&id) {
                        BridgeStep::Answer { id, outcome: Err(message) }
                    } else {
                        BridgeStep::Nothing
                    }
                },
                None => BridgeStep::Nothing,
            },
        }
    }
}

/// The text of a Bus error view (what `BusError::message` gives).
pub open spec fn view_text(e: BusErrorView) -> Seq<char> {
    match e {
        BusErrorView::PermissionDenied { action, topic } => "Bus permission denied: cannot "@ + action
            + " `"@ + topic + "`"@,
        BusErrorView::UnknownTopic(t) => "unknown Bus topic `"@ + t + "`"@,
        BusErrorView::ContractViolation(m) => "Bus contract violation: "@ + m,
        BusErrorView::NoHandler(t) => "no handler for `"@ + t + "`"@,
        BusErrorView::NotLoaded(id) => "Plugin not loaded on Bus: "@ + id,
    }
}

/// What the echo Sidecar does with a Host message.
#[derive(Debug, PartialEq, Eq)]
pub enum EchoStep {
    Reply(SidecarToHost),
    Ignore,
    Stop,
}

/// The echo Sidecar: answers `echo.ping` events with `echo.pong` carrying the same payload,
/// answers `echo.reflect` calls with the request payload, refuses other calls, and stops on
/// `Shutdown`.
pub fn echo_step(msg: HostToSidecar) -> (r: EchoStep)
    ensures
        match msg {
            HostToSidecar::Shutdown => r == EchoStep::Stop,
            HostToSidecar::Event { topic, payload } => if topic@ == "echo.ping"@ {
                r matches EchoStep::Reply(SidecarToHost::Emit { topic: t, payload: p }) && t@
                    == "echo.pong"@ && p == payload
            } else {
                r == EchoStep::Ignore
            },
            HostToSidecar::Call { id, topic, payload } => if topic@ == "echo.reflect"@ {
                r == EchoStep::Reply(SidecarToHost::Response { id, payload })
            } else {
                r matches EchoStep::Reply(SidecarToHost::Error { id: Some(i), message }) && i == id
                    && message@ == "unhandled call `"@ + topic@ + "`"@
            },
        },
{
    match msg {
        HostToSidecar::Shutdown => EchoStep::Stop,
        HostToSidecar::Event { topic, payload } => {
            if topic == String::from_str("echo.ping") {
                EchoStep::Reply(SidecarToHost::Emit { topic: String::from_str("echo.pong"), payload })
            } else {
                EchoStep::Ignore
            }
        },
        HostToSidecar::Call { id, topic, payload } => {
            if topic == String::from_str("echo.reflect") {
                EchoStep::Reply(SidecarToHost::Response { id, payload })
            } else {
                let message = String::from_str("unhandled call `").concat(topic.as_str()).concat("`");
                EchoStep::Reply(SidecarToHost::Error { id: Some(id), message })
            }
        },
    }
}

/// The places to look for a Plugin's Sidecar binary `name`, in order: next to the Host
/// executable (in `exe_dir`, also with `.exe` on Windows), in the build directory under
/// `manifest_dir`, then the Plugin's own Sidecar `entry`.
pub open spec fn sidecar_candidates_spec(
    name: Seq<char>,
    exe_dir: Option<Seq<char>>,
    windows: bool,
    manifest_dir: Seq<char>,
    entry: Seq<char>,
) -> Seq<Seq<char>> {
    let beside: Seq<Seq<char>> = match exe_dir {
        Some(d) => if windows {
            seq![join_path_spec(d, name), join_path_spec(d, name + ".exe"@)]
        } else {
            seq![join_path_spec(d, name)]
        },
        None => Seq::empty(),
    };
    beside + seq![join_path_spec(join_path_spec(manifest_dir, "target/debug"@), name), entry]
}

/// Where to look for the Sidecar binary `name` of Plugin `plugin_id`: the built echo Sidecar
/// (`built_echo`) is taken as it is for the echo Plugin or a binary of that name; otherwise
/// the candidates of `sidecar_candidates_spec`, in order, of which the first that exists is
/// used.
pub fn sidecar_binary_candidates(
    plugin_id: &str,
    name: &str,
    built_echo: Option<String>,
    exe_dir: Option<String>,
    windows: bool,
    manifest_dir: &str,
    entry: &str,
) -> (r: (Option<String>, Vec<String>))
    ensures
        r.0 == (if built_echo is Some && (name@ == "echo-sidecar"@ || plugin_id@ == "echo"@) {
            built_echo
        } else {
            None
        }),
        r.1@.map_values(|c: String| c@) == sidecar_candidates_spec(
            name@,
            match exe_dir {
                Some(d) => Some(d@),
                None => None,
            },
            windows,
            manifest_dir@,
            entry@,
        ),
{
    proof {
        reveal_strlit("echo-sidecar");
        reveal_strlit("echo");
        reveal_strlit(".exe");
        reveal_strlit("target/debug");
    }
    let chosen = match built_echo {
        Some(b) => if String::from_str(name) == String::from_str("echo-sidecar") || String::from_str(plugin_id)
            == String::from_str("echo") {
            Some(b)
        } else {
            None
        },
        None => None,
    };
    let mut out: Vec<String> = Vec::new();
    match &exe_dir {
        Some(d) => {
            out.push(join_path(d.as_str(), name));
            if windows {
                let with_ext = String::from_str(name).concat(".exe");
                out.push(join_path(d.as_str(), with_ext.as_str()));
            }
        },
        None => {},
    }
    let debug_dir = join_path(manifest_dir, "target/debug");
    out.push(join_path(debug_dir.as_str(), name));
    out.push(String::from_str(entry));
    proof {
        let ev = match exe_dir {
            Some(d) => Some(d@),
            None => None::<Seq<char>>,
        };
        assert(out@.map_values(|c: String| c@) =~= sidecar_candidates_spec(name@, ev, windows, manifest_dir@, entry@));
    }
    (chosen, out)
}

} // verus!
