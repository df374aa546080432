//! Plugin windows and their Sidecars: opening a Plugin instance (starting and wiring its
//! Sidecar once), closing a Plugin's windows, and the Bus as a Plugin window reaches it.

use vstd::prelude::*;

use crate::bus::{subscribers_for, Bus, BusError, BusErrorView, BusProxy, CallRoute, HandlerId};
use crate::ids::is_v4_uuid_text;
use crate::json::{JsonValue, JsonView};
use crate::host::{
    has_sidecar, has_window_for, lemma_plugin_pos, lemma_sidecar_entry_pos, lemma_sidecar_entry_pos_is,
    lemma_sidecars_with_windows, live_blanks, live_plugin_windows, live_slot, names_sidecar,
    no_sidecar_started, plugin_pos, running_ones_kept, same_commands, sidecars_have_windows,
    same_windows, sidecar_entry_pos, sidecars_distinct, sidecars_with_windows, Host,
    PluginWindowEntry, SidecarEntry,
};
use crate::ids::new_uuid;
use crate::manifest::{
    clone_contracts, contract_pos, contracts_view, lemma_contract_pos_views, Manifest,
};
use crate::platform::{Platform, SidecarId, WindowId};
use crate::sidecar_bridge::{view_text, SidecarBridge};
use crate::text::join_path_spec;
use crate::workspace::WindowGeometry;

verus! {

/// The proxy a Plugin's surfaces act through: its id, permissions and contracts.
pub open spec fn proxy_of(m: Manifest) -> BusProxy {
    BusProxy { plugin_id: m.id, permissions: m.permissions, contracts: m.contracts }
}

/// `p` acts for the Plugin of `m`: the same id, permissions and contracts (by content).
pub open spec fn acts_for(p: BusProxy, m: Manifest) -> bool {
    &&& p.plugin_id == m.id
    &&& p.permissions.emit@ == m.permissions.emit@
    &&& p.permissions.subscribe@ == m.permissions.subscribe@
    &&& p.permissions.call@ == m.permissions.call@
    &&& contracts_view(p.contracts@) == contracts_view(m.contracts@)
}

/// A proxy that acts for a Plugin decides every Bus operation as the Plugin's own proxy does.
pub proof fn lemma_acts_for(
    p: BusProxy,
    m: Manifest,
    bus: Bus,
    topic: Seq<char>,
    payload: JsonValue,
    server_contract: (JsonView, JsonView),
    outcome: Result<JsonValue, String>,
)
    requires
        acts_for(p, m),
    ensures
        p.emit_check(topic, payload) == proxy_of(m).emit_check(topic, payload),
        p.subscribe_check(topic) == proxy_of(m).subscribe_check(topic),
        p.serve_check(topic) == proxy_of(m).serve_check(topic),
        p.call_check(bus, topic, payload) == proxy_of(m).call_check(bus, topic, payload),
        p.finish_outcome(topic, server_contract, outcome) == proxy_of(m).finish_outcome(
            topic,
            server_contract,
            outcome,
        ),
{
    lemma_contract_pos_views(p.contracts@, m.contracts@, topic);
    crate::manifest::lemma_contract_pos(m.contracts@, topic);
    let q = contract_pos(m.contracts@, topic);
    assert(contracts_view(p.contracts@).len() == p.contracts@.len());
    assert(contracts_view(m.contracts@).len() == m.contracts@.len());
    if q >= 0 {
        assert(contracts_view(p.contracts@)[q] == contracts_view(m.contracts@)[q]);
        assert(contracts_view(p.contracts@)[q] == (p.contracts@[q].0@, p.contracts@[q].1@));
        assert(contracts_view(m.contracts@)[q] == (m.contracts@[q].0@, m.contracts@[q].1@));
        assert(p.contracts@[q].1.request@ == m.contracts@[q].1.request@);
        assert(p.contracts@[q].1.response@ == m.contracts@[q].1.response@);
    }
}

/// Why wiring the Sidecar of `m` to the Bus is refused, if it is.
pub open spec fn attach_refusal(m: Manifest) -> Option<Seq<char>> {
    match proxy_of(m).subscribe_check("echo.ping"@) {
        Err(e) => Some(view_text(e)),
        Ok(()) => match proxy_of(m).serve_check("echo.reflect"@) {
            Err(e) => Some(view_text(e)),
            Ok(()) => None,
        },
    }
}

/// The Sidecar start logged last failed, or the Bus refuses the Plugin it was for.
pub open spec fn last_start_refused(
    log: Seq<(Seq<char>, Seq<char>, Option<Seq<char>>)>,
    plugins: Seq<Manifest>,
) -> bool {
    log.len() > 0 && (log.last().2 is None || attach_refusal(plugins[plugin_pos(plugins, log.last().0)]) is Some)
}

/// `log` is `before` with one more Sidecar start: for Plugin `m`, with its Sidecar entry under
/// its root.
pub open spec fn logs_start_of(
    log: Seq<(Seq<char>, Seq<char>, Option<Seq<char>>)>,
    before: Seq<(Seq<char>, Seq<char>, Option<Seq<char>>)>,
    m: Manifest,
) -> bool {
    &&& log.len() == before.len() + 1
    &&& log.drop_last() == before
    &&& log.last().0 == m.id@
    &&& (m.sidecar matches Some(e) && log.last().1 == join_path_spec(m.root@, e@))
}

/// The Plugin windows of `s` that do not show `plugin_id`, in order.
pub open spec fn windows_without(s: Seq<PluginWindowEntry>, plugin_id: Seq<char>) -> Seq<
    PluginWindowEntry,
>
    decreases s.len(),
{
    if s.len() == 0 {
        Seq::empty()
    } else {
        (if s[0].plugin_id@ == plugin_id {
            Seq::empty()
        } else {
            seq![s[0]]
        }) + windows_without(s.drop_first(), plugin_id)
    }
}

/// Index of the first Plugin window labelled `label`, or -1.
pub open spec fn label_pos(s: Seq<PluginWindowEntry>, label: Seq<char>) -> int
    decreases s.len(),
{
    if s.len() == 0 {
        -1
    } else if s[0].id.0@ == label {
        0
    } else {
        let p = label_pos(s.drop_first(), label);
        if p < 0 {
            -1
        } else {
            p + 1
        }
    }
}

pub proof fn lemma_label_pos_is(s: Seq<PluginWindowEntry>, label: Seq<char>, i: int)
    requires
        -1 <= i < s.len(),
        i >= 0 ==> s[i].id.0@ == label,
        forall|j: int| 0 <= j < s.len() && (i < 0 || j < i) ==> #[trigger] s[j].id.0@ != label,
    ensures
        label_pos(s, label) == i,
    decreases s.len(),
{
    if s.len() > 0 && i != 0 {
        let t = s.drop_first();
        assert(s[0].id.0@ != label);
        assert forall|j: int| 0 <= j < t.len() && (i - 1 < 0 || j < i - 1) implies #[trigger] t[j].id.0@
            != label by {
            assert(t[j] == s[j + 1]);
        }
        if i > 0 {
            assert(t[i - 1] == s[i]);
            lemma_label_pos_is(t, label, i - 1);
        } else {
            lemma_label_pos_is(t, label, -1);
        }
    }
}

/// Removing one entry of a distinct list keeps it distinct.
proof fn lemma_distinct_remove(s: Seq<SidecarEntry>, i: int)
    requires
        sidecars_distinct(s),
        0 <= i < s.len(),
    ensures
        sidecars_distinct(s.remove(i)),
        forall|j: int| 0 <= j < s.remove(i).len() ==> #[trigger] s.remove(i)[j].plugin_id@ != s[i].plugin_id@,
{
    let r = s.remove(i);
    assert forall|a: int, b: int| 0 <= a < b < r.len() implies #[trigger] r[a].plugin_id@
        != #[trigger] r[b].plugin_id@ by {
        let a2 = if a < i { a } else { a + 1 };
        let b2 = if b < i { b } else { b + 1 };
        assert(r[a] == s[a2]);
        assert(r[b] == s[b2]);
    }
    assert forall|j: int| 0 <= j < r.len() implies #[trigger] r[j].plugin_id@ != s[i].plugin_id@ by {
        let j2 = if j < i { j } else { j + 1 };
        assert(r[j] == s[j2]);
    }
}

/// A Sidecar entry of a Plugin that still has a window is kept.
proof fn lemma_kept_with_window(s: Seq<SidecarEntry>, w: Seq<PluginWindowEntry>, plugin_id: Seq<char>)
    requires
        has_sidecar(s, plugin_id),
        has_window_for(w, plugin_id),
    ensures
        has_sidecar(sidecars_with_windows(s, w), plugin_id),
    decreases s.len(),
{
    let t = s.drop_first();
    let rest = sidecars_with_windows(t, w);
    let head: Seq<SidecarEntry> = if has_window_for(w, s[0].plugin_id@) {
        seq![s[0]]
    } else {
        Seq::empty()
    };
    assert(sidecars_with_windows(s, w) == head + rest);
    if s[0].plugin_id@ == plugin_id {
        lemma_sidecar_entry_pos_is(head + rest, plugin_id, 0);
    } else {
        lemma_sidecar_entry_pos(s, plugin_id);
        lemma_sidecar_entry_pos(t, plugin_id);
        let p = sidecar_entry_pos(s, plugin_id);
        assert(t[p - 1] == s[p]);
        assert(has_sidecar(t, plugin_id)) by {
            if sidecar_entry_pos(t, plugin_id) < 0 {
                assert(t[p - 1].plugin_id@ != plugin_id);
            }
        }
        lemma_kept_with_window(t, w, plugin_id);
        lemma_sidecar_entry_pos(rest, plugin_id);
        let q = sidecar_entry_pos(rest, plugin_id);
        let all = head + rest;
        lemma_sidecar_entry_pos(all, plugin_id);
        assert(all[head.len() + q] == rest[q]);
        if sidecar_entry_pos(all, plugin_id) < 0 {
            assert(all[head.len() + q].plugin_id@ != plugin_id);
        }
    }
}

/// One Sidecar per privileged Plugin: while a Plugin has a Sidecar and a window open, opening
/// it again does not start another Sidecar.
pub proof fn law_reopen_starts_no_second_sidecar<P: Platform>(h: Host<P>, plugin_id: Seq<char>)
    requires
        has_sidecar(h.sidecars@, plugin_id),
        has_window_for(h.open_plugin_windows(), plugin_id),
    ensures
        !h.needs_sidecar(plugin_id),
{
    lemma_kept_with_window(h.sidecars@, h.open_plugin_windows(), plugin_id);
}

impl<P: Platform> Host<P> {
    /// The Plugin windows still open.
    pub open spec fn open_plugin_windows(&self) -> Seq<PluginWindowEntry> {
        live_plugin_windows(self.platform, self.plugin_windows@)
    }

    /// The Sidecars kept once closed windows are forgotten.
    pub open spec fn kept_sidecars(&self) -> Seq<SidecarEntry> {
        sidecars_with_windows(self.sidecars@, self.open_plugin_windows())
    }

    /// Opening a window of `plugin_id` has to start its Sidecar first: the Plugin is registered
    /// and privileged, and no Sidecar of it is kept.
    pub open spec fn needs_sidecar(&self, plugin_id: Seq<char>) -> bool {
        let p = plugin_pos(self.plugins@, plugin_id);
        &&& p >= 0
        &&& self.plugins@[p].sidecar is Some
        &&& !has_sidecar(self.kept_sidecars(), plugin_id)
    }

    /// Opens a window of Plugin `plugin_id` showing instance `instance_id` (closed windows are
    /// forgotten first), at `geometry` when given. A privileged Plugin without a running
    /// Sidecar first gets one started and wired to the Bus; if that fails nothing is opened.
    /// `Ok(None)` when no such Plugin is registered.
    pub fn open_plugin_instance(
        &mut self,
        plugin_id: &String,
        instance_id: &String,
        geometry: Option<WindowGeometry>,
    ) -> (r: Result<Option<WindowId>, String>)
        ensures
            final(self).blanks@ == live_blanks(old(self).platform, old(self).blanks@),
            final(self).launcher == live_slot(old(self).platform, old(self).launcher),
            final(self).palette == live_slot(old(self).platform, old(self).palette),
            final(self).same_config(old(self)),
            final(self).platform.quit_requested() == old(self).platform.quit_requested(),
            forall|w: Seq<char>|
                !old(self).platform.window_destroyed(w) ==> !#[trigger] final(self).platform.window_destroyed(w),
            forall|w: Seq<char>|
                !old(self).platform.window_destroyed(w) ==> #[trigger] final(self).platform.geometry_of(w)
                    == old(self).platform.geometry_of(w),
            plugin_pos(old(self).plugins@, plugin_id@) < 0 ==> {
                &&& r == Ok::<Option<WindowId>, String>(None)
                &&& final(self).plugin_windows@ == old(self).open_plugin_windows()
                &&& final(self).sidecars@ == old(self).kept_sidecars()
                &&& final(self).bus == old(self).bus
                &&& same_windows(final(self).platform, old(self).platform)
            },
            plugin_pos(old(self).plugins@, plugin_id@) >= 0 ==> r != Ok::<Option<WindowId>, String>(
                None,
            ),
            r matches Ok(Some(w)) ==> {
                &&& old(self).platform.window_destroyed(w.0@)
                &&& final(self).plugin_windows@ == old(self).open_plugin_windows().push(
                    PluginWindowEntry { id: w, plugin_id: *plugin_id, instance_id: *instance_id },
                )
                &&& !final(self).platform.window_destroyed(w.0@)
                &&& !final(self).platform.window_privileged(w.0@)
                &&& (geometry matches Some(g) ==> final(self).platform.geometry_of(w.0@) == Some(g))
                &&& final(self).platform.window_ui_entry(w.0@) == Some(
                    join_path_spec(
                        old(self).plugins@[plugin_pos(old(self).plugins@, plugin_id@)].root@,
                        old(self).plugins@[plugin_pos(old(self).plugins@, plugin_id@)].ui@,
                    ),
                )
                &&& final(self).platform.window_instance(w.0@) == Some(instance_id@)
                &&& final(self).platform.geometry_of(w.0@) is Some
            },
            r is Err ==> {
                &&& old(self).needs_sidecar(plugin_id@)
                &&& final(self).plugin_windows@ == old(self).open_plugin_windows()
                &&& final(self).sidecars@ == old(self).kept_sidecars()
                &&& no_sidecar_started(final(self).platform, old(self).platform)
            },
            plugin_pos(old(self).plugins@, plugin_id@) >= 0 && !old(self).needs_sidecar(plugin_id@)
                ==> r is Ok && final(self).sidecars@ == old(self).kept_sidecars() && final(self).bus
                == old(self).bus,
            old(self).needs_sidecar(plugin_id@) && attach_refusal(
                old(self).plugins@[plugin_pos(old(self).plugins@, plugin_id@)],
            ) is Some ==> r is Err,
            old(self).needs_sidecar(plugin_id@) && r is Ok ==> {
                &&& final(self).sidecars@.len() == old(self).kept_sidecars().len() + 1
                &&& final(self).sidecars@.drop_last() == old(self).kept_sidecars()
                &&& final(self).sidecars@.last().plugin_id == *plugin_id
                &&& final(self).platform.sidecar_running(final(self).sidecars@.last().sidecar.0@)
            },
            sidecars_distinct(old(self).sidecars@) ==> sidecars_distinct(final(self).sidecars@),
            forall|w: Seq<char>|
                old(self).platform.window_destroyed(w) ==> #[trigger] final(self).platform.window_destroyed(w)
                    || (r matches Ok(Some(id)) && id.0@ == w),
            forall|w: Seq<char>|
                !old(self).platform.window_destroyed(w) ==> #[trigger] final(self).platform.window_instance(w)
                    == old(self).platform.window_instance(w),
            forall|x: Seq<char>|
                #[trigger] final(self).platform.sidecar_running(x) ==> old(self).platform.sidecar_running(x)
                    || names_sidecar(final(self).sidecars@, x),
            running_ones_kept(final(self).platform, old(self).sidecars@, final(self).sidecars@),
            sidecars_have_windows(final(self).sidecars@, final(self).plugin_windows@),
            !old(self).needs_sidecar(plugin_id@) ==> final(self).platform.spawn_log() == old(self).platform.spawn_log(),
            old(self).needs_sidecar(plugin_id@) ==> {
                let m = old(self).plugins@[plugin_pos(old(self).plugins@, plugin_id@)];
                let log = final(self).platform.spawn_log();
                &&& logs_start_of(log, old(self).platform.spawn_log(), m)
                &&& (r is Ok <==> (log.last().2 is Some && attach_refusal(m) is None))
                &&& (r is Ok ==> log.last().2 == Some(final(self).sidecars@.last().sidecar.0@))
            },
    {
        proof {
            lemma_sidecars_with_windows(old(self).sidecars@, old(self).open_plugin_windows());
        }
        self.prune();
        let ghost pruned = *self;
        let i = match self.find_plugin(plugin_id) {
            Some(i) => i,
            None => {
                return Ok(None);
            },
        };
        proof {
            lemma_plugin_pos(self.plugins@, plugin_id@);
        }
        match self.plugins[i].sidecar_entry_path() {
            Some(entry) => {
                match self.sidecar_index(plugin_id) {
                    Some(_) => {},
                    None => {
                        let spawned = self.platform.spawn_sidecar(plugin_id.as_str(), entry.as_str());
                        let ghost spawned_state = *self;
                        proof {
                            assert(self.platform.spawn_log().drop_last() =~= pruned.platform.spawn_log());
                            assert(self.plugins@[i as int].id@ == plugin_id@);
                        }
                        match self.adopt_sidecar(i, plugin_id, spawned) {
                            Ok(()) => {
                                proof {
                                    assert(self.sidecars@.drop_last() =~= pruned.sidecars@);
                                    let last = self.sidecars@.len() - 1;
                                    assert forall|x: Seq<char>| #[trigger] self.platform.sidecar_running(x)
                                        implies pruned.platform.sidecar_running(x) || names_sidecar(self.sidecars@, x) by {
                                        if x == self.sidecars@[last].sidecar.0@ {
                                            assert(names_sidecar(self.sidecars@, x));
                                        } else {
                                            assert(spawned_state.platform.sidecar_running(x));
                                        }
                                    }
                                    assert forall|x: Seq<char>| #[trigger] self.platform.sidecar_running(x)
                                        && names_sidecar(pruned.sidecars@, x) implies names_sidecar(self.sidecars@, x) by {
                                        let j = choose|j: int| 0 <= j < pruned.sidecars@.len()
                                            && #[trigger] pruned.sidecars@[j].sidecar.0@ == x;
                                        assert(self.sidecars@[j] == pruned.sidecars@[j]);
                                    }
                                    if sidecars_distinct(pruned.sidecars@) {
                                        lemma_sidecar_entry_pos(pruned.sidecars@, plugin_id@);
                                        assert(sidecars_distinct(self.sidecars@)) by {
                                            let s2 = self.sidecars@;
                                            assert forall|a: int, b: int| 0 <= a < b < s2.len() implies
                                                #[trigger] s2[a].plugin_id@ != #[trigger] s2[b].plugin_id@ by {
                                                if b == s2.len() - 1 {
                                                    assert(s2[a] == pruned.sidecars@[a]);
                                                } else {
                                                    assert(s2[a] == pruned.sidecars@[a]);
                                                    assert(s2[b] == pruned.sidecars@[b]);
                                                }
                                            }
                                        }
                                    }
                                }
                            },
                            Err(e) => {
                                return Err(e);
                            },
                        }
                    },
                }
            },
            None => {},
        }
        proof {
            assert(forall|x: Seq<char>| #[trigger] self.platform.sidecar_running(x)
                ==> pruned.platform.sidecar_running(x) || names_sidecar(self.sidecars@, x));
            assert(running_ones_kept(self.platform, pruned.sidecars@, self.sidecars@));
        }
        let ghost before_window = *self;
        let ui = self.plugins[i].ui_entry_path();
        let window = self.platform.create_pure_ui_window(plugin_id.as_str(), instance_id.as_str(), ui.as_str());
        match geometry {
            Some(g) => {
                self.platform.set_window_geometry(&window, &g);
            },
            None => {},
        }
        self.plugin_windows.push(
            PluginWindowEntry { id: window.clone(), plugin_id: plugin_id.clone(), instance_id: instance_id.clone() },
        );
        proof {
            let n = pruned.sidecars@.len();
            assert forall|k: int| 0 <= k < self.sidecars@.len() implies has_window_for(
                self.plugin_windows@,
                #[trigger] self.sidecars@[k].plugin_id@,
            ) by {
                if k < n {
                    assert(self.sidecars@[k] == pruned.sidecars@[k]);
                    assert(has_window_for(pruned.plugin_windows@, pruned.sidecars@[k].plugin_id@));
                    let i = choose|i: int| 0 <= i < pruned.plugin_windows@.len()
                        && #[trigger] pruned.plugin_windows@[i].plugin_id@ == pruned.sidecars@[k].plugin_id@;
                    assert(self.plugin_windows@[i] == pruned.plugin_windows@[i]);
                } else {
                    let m = self.plugin_windows@.len() - 1;
                    assert(self.plugin_windows@[m].plugin_id@ == plugin_id@);
                }
            }
            assert forall|x: Seq<char>| #[trigger] self.platform.sidecar_running(x)
                && names_sidecar(old(self).sidecars@, x) implies names_sidecar(self.sidecars@, x) by {
                assert(before_window.platform.sidecar_running(x));
                if pruned.platform.sidecar_running(x) {
                    assert(names_sidecar(pruned.sidecars@, x));
                }
            }
        }
        Ok(Some(window))
    }

    /// Takes the Sidecar the platform started (or failed to start) for Plugin `i` (`plugin_id`):
    /// a started one is wired to the Bus and recorded, unless the Bus refuses it, in which case it
    /// is stopped again and the refusal returned; a start failure is returned as it is.
    pub fn adopt_sidecar(&mut self, i: usize, plugin_id: &String, spawned: Result<SidecarId, String>) -> (r:
        Result<(), String>)
        requires
            i < old(self).plugins@.len(),
            old(self).plugins@[i as int].id@ == plugin_id@,
        ensures
            final(self).same_config(old(self)),
            final(self).blanks == old(self).blanks,
            final(self).plugin_windows == old(self).plugin_windows,
            final(self).launcher == old(self).launcher,
            final(self).palette == old(self).palette,
            same_windows(final(self).platform, old(self).platform),
            same_commands(final(self).platform, old(self).platform),
            final(self).platform.quit_requested() == old(self).platform.quit_requested(),
            forall|w: Seq<char>| #[trigger] final(self).platform.window_privileged(w) == old(self).platform.window_privileged(w),
            forall|w: Seq<char>| #[trigger] final(self).platform.window_ui_entry(w) == old(self).platform.window_ui_entry(w),
            forall|w: Seq<char>| #[trigger] final(self).platform.window_instance(w) == old(self).platform.window_instance(w),
            final(self).platform.spawn_log() == old(self).platform.spawn_log(),
            match spawned {
                Err(e) => (r matches Err(m) && m == e) && *final(self) == *old(self),
                Ok(sid) => match attach_refusal(old(self).plugins@[i as int]) {
                    Some(t) => {
                        &&& r matches Err(m) && m@ == t
                        &&& final(self).sidecars == old(self).sidecars
                        &&& !final(self).platform.sidecar_running(sid.0@)
                        &&& forall|x: Seq<char>|
                            x != sid.0@ ==> #[trigger] final(self).platform.sidecar_running(x)
                                == old(self).platform.sidecar_running(x)
                    },
                    None => {
                        &&& r is Ok
                        &&& final(self).sidecars@.len() == old(self).sidecars@.len() + 1
                        &&& final(self).sidecars@.drop_last() == old(self).sidecars@
                        &&& final(self).sidecars@.last().plugin_id == *plugin_id
                        &&& final(self).sidecars@.last().sidecar == sid
                        &&& final(self).platform == old(self).platform
                    },
                },
            },
    {
        let sid = match spawned {
            Ok(s) => s,
            Err(e) => {
                return Err(e);
            },
        };
        let proxy = self.bus.proxy(
            self.plugins[i].id.clone(),
            self.plugins[i].permissions.clone(),
            clone_contracts(&self.plugins[i].contracts),
        );
        proof {
            let m = self.plugins@[i as int];
            lemma_contract_pos_views(proxy.contracts@, m.contracts@, "echo.ping"@);
            lemma_contract_pos_views(proxy.contracts@, m.contracts@, "echo.reflect"@);
            assert(proxy.subscribe_check("echo.ping"@) == proxy_of(m).subscribe_check("echo.ping"@));
            assert(proxy.serve_check("echo.reflect"@) == proxy_of(m).serve_check("echo.reflect"@));
        }
        match SidecarBridge::attach(&mut self.bus, &proxy) {
            Ok(bridge) => {
                self.sidecars.push(SidecarEntry { plugin_id: plugin_id.clone(), sidecar: sid, bridge });
                assert(self.sidecars@.drop_last() =~= old(self).sidecars@);
                Ok(())
            },
            Err(e) => {
                self.platform.stop_sidecar(&sid);
                Err(e)
            },
        }
    }

    /// Index of the Sidecar entry of `plugin_id`.
    pub fn sidecar_index(&self, plugin_id: &String) -> (r: Option<usize>)
        ensures
            match r {
                Some(i) => i < self.sidecars@.len() && i as int == sidecar_entry_pos(
                    self.sidecars@,
                    plugin_id@,
                ),
                None => !has_sidecar(self.sidecars@, plugin_id@),
            },
    {
        let mut i: usize = 0;
        while i < self.sidecars.len()
            invariant
                i <= self.sidecars@.len(),
                forall|j: int| 0 <= j < i ==> #[trigger] self.sidecars@[j].plugin_id@ != plugin_id@,
            decreases self.sidecars.len() - i,
        {
            if self.sidecars[i].plugin_id == *plugin_id {
                proof {
                    lemma_sidecar_entry_pos_is(self.sidecars@, plugin_id@, i as int);
                }
                return Some(i);
            }
            i = i + 1;
        }
        proof {
            lemma_sidecar_entry_pos_is(self.sidecars@, plugin_id@, -1);
        }
        None
    }

    /// Stops the Sidecar of `plugin_id`, if one runs, and forgets its entry.
    fn stop_sidecar_of(&mut self, plugin_id: &String)
        ensures
            has_sidecar(old(self).sidecars@, plugin_id@) ==> {
                let p = sidecar_entry_pos(old(self).sidecars@, plugin_id@);
                &&& final(self).sidecars@ == old(self).sidecars@.remove(p)
                &&& !final(self).platform.sidecar_running(old(self).sidecars@[p].sidecar.0@)
            },
            !has_sidecar(old(self).sidecars@, plugin_id@) ==> final(self).sidecars == old(self).sidecars
                && final(self).platform == old(self).platform,
            sidecars_distinct(old(self).sidecars@) ==> sidecars_distinct(final(self).sidecars@)
                && !has_sidecar(final(self).sidecars@, plugin_id@),
            forall|w: Seq<char>| #[trigger] final(self).platform.window_destroyed(w) == old(self).platform.window_destroyed(w),
            forall|w: Seq<char>| #[trigger] final(self).platform.geometry_of(w) == old(self).platform.geometry_of(w),
            final(self).platform.quit_requested() == old(self).platform.quit_requested(),
            final(self).blanks == old(self).blanks,
            final(self).plugin_windows == old(self).plugin_windows,
            final(self).launcher == old(self).launcher,
            final(self).palette == old(self).palette,
            final(self).same_settings(old(self)),
    {
        match self.sidecar_index(plugin_id) {
            Some(i) => {
                proof {
                    lemma_sidecar_entry_pos(self.sidecars@, plugin_id@);
                    if sidecars_distinct(self.sidecars@) {
                        lemma_distinct_remove(self.sidecars@, i as int);
                    }
                }
                let entry = self.sidecars.remove(i);
                self.platform.stop_sidecar(&entry.sidecar);
                proof {
                    if sidecars_distinct(old(self).sidecars@) {
                        lemma_sidecar_entry_pos_is(self.sidecars@, plugin_id@, -1);
                    }
                }
            },
            None => {},
        }
    }

    /// Whether the Sidecar of `plugin_id` is running.
    pub fn sidecar_running_for(&self, plugin_id: &str) -> (b: bool)
        ensures
            b == (has_sidecar(self.sidecars@, plugin_id@) && self.platform.sidecar_running(
                self.sidecars@[sidecar_entry_pos(self.sidecars@, plugin_id@)].sidecar.0@,
            )),
    {
        let pid = String::from_str(plugin_id);
        match self.sidecar_index(&pid) {
            Some(i) => self.platform.is_sidecar_running(&self.sidecars[i].sidecar),
            None => false,
        }
    }

    /// Closes every window of `plugin_id` and stops its Sidecar.
    pub fn close_plugin_windows(&mut self, plugin_id: &str)
        ensures
            final(self).plugin_windows@ == windows_without(old(self).plugin_windows@, plugin_id@),
            forall|i: int|
                0 <= i < old(self).plugin_windows@.len() && old(self).plugin_windows@[i].plugin_id@
                    == plugin_id@ ==> final(self).platform.window_destroyed(
                    #[trigger] old(self).plugin_windows@[i].id.0@,
                ),
            has_sidecar(old(self).sidecars@, plugin_id@) ==> {
                let p = sidecar_entry_pos(old(self).sidecars@, plugin_id@);
                &&& final(self).sidecars@ == old(self).sidecars@.remove(p)
                &&& !final(self).platform.sidecar_running(old(self).sidecars@[p].sidecar.0@)
            },
            !has_sidecar(old(self).sidecars@, plugin_id@) ==> final(self).sidecars == old(self).sidecars,
            sidecars_distinct(old(self).sidecars@) ==> sidecars_distinct(final(self).sidecars@)
                && !has_sidecar(final(self).sidecars@, plugin_id@),
            forall|w: Seq<char>| #[trigger] final(self).platform.geometry_of(w) == old(self).platform.geometry_of(w),
            final(self).platform.quit_requested() == old(self).platform.quit_requested(),
            final(self).blanks == old(self).blanks,
            final(self).launcher == old(self).launcher,
            final(self).palette == old(self).palette,
            final(self).same_settings(old(self)),
    {
        let pid = String::from_str(plugin_id);
        let mut entries: Vec<PluginWindowEntry> = Vec::new();
        core::mem::swap(&mut entries, &mut self.plugin_windows);
        let ghost all = entries@;
        let mut kept: Vec<PluginWindowEntry> = Vec::new();
        let ghost mut done: int = 0;
        while entries.len() > 0
            invariant
                0 <= done <= all.len(),
                entries@ == all.subrange(done, all.len() as int),
                windows_without(all, pid@) == kept@ + windows_without(entries@, pid@),
                all == old(self).plugin_windows@,
                pid@ == plugin_id@,
                forall|i: int|
                    0 <= i < done && all[i].plugin_id@ == pid@ ==> self.platform.window_destroyed(
                        #[trigger] all[i].id.0@,
                    ),
                forall|w: Seq<char>| #[trigger] self.platform.geometry_of(w) == old(self).platform.geometry_of(w),
                forall|x: Seq<char>| #[trigger] self.platform.sidecar_running(x) == old(self).platform.sidecar_running(x),
                self.platform.quit_requested() == old(self).platform.quit_requested(),
                self.blanks == old(self).blanks,
                self.sidecars == old(self).sidecars,
                self.launcher == old(self).launcher,
                self.palette == old(self).palette,
                self.same_settings(old(self)),
            decreases entries.len(),
        {
            let ghost before = entries@;
            let e = entries.remove(0);
            assert(before.drop_first() =~= entries@);
            assert(e == all[done]);
            let is_of = e.plugin_id == pid;
            if is_of {
                self.platform.close_window(&e.id);
            } else {
                kept.push(e);
            }
            proof {
                assert(windows_without(before, pid@) == (if is_of {
                    Seq::<PluginWindowEntry>::empty()
                } else {
                    seq![before[0]]
                }) + windows_without(entries@, pid@));
                done = done + 1;
            }
            assert(windows_without(all, pid@) =~= kept@ + windows_without(entries@, pid@));
            assert(entries@ =~= all.subrange(done, all.len() as int));
        }
        assert(windows_without(entries@, pid@) =~= Seq::<PluginWindowEntry>::empty());
        assert(kept@ =~= windows_without(all, pid@));
        self.plugin_windows = kept;
        let ghost closed = self.platform;
        self.stop_sidecar_of(&pid);
        proof {
            assert forall|i: int|
                0 <= i < all.len() && all[i].plugin_id@ == plugin_id@ implies self.platform.window_destroyed(
                #[trigger] all[i].id.0@,
            ) by {
                assert(closed.window_destroyed(all[i].id.0@));
            }
        }
    }

    /// The proxy a surface of `plugin_id` acts through: `NotLoaded` when no such Plugin is
    /// registered. There is no other way onto the Bus.
    pub fn scoped_bus(&self, plugin_id: &str) -> (r: Result<BusProxy, BusError>)
        ensures
            match r {
                Ok(p) => plugin_pos(self.plugins@, plugin_id@) >= 0 && acts_for(
                    p,
                    self.plugins@[plugin_pos(self.plugins@, plugin_id@)],
                ),
                Err(e) => plugin_pos(self.plugins@, plugin_id@) < 0 && e@ == BusErrorView::NotLoaded(
                    plugin_id@,
                ),
            },
    {
        let pid = String::from_str(plugin_id);
        match self.find_plugin(&pid) {
            Some(i) => {
                let m = &self.plugins[i];
                Ok(self.bus.proxy(m.id.clone(), m.permissions.clone(), clone_contracts(&m.contracts)))
            },
            None => Err(BusError::NotLoaded(pid)),
        }
    }

    /// The proxy a window labelled `label` acts through, or the refusal's text.
    pub open spec fn window_proxy(&self, label: Seq<char>) -> Result<BusProxy, Seq<char>> {
        let w = label_pos(self.plugin_windows@, label);
        if w < 0 {
            Err("window is not a Plugin surface"@)
        } else {
            let pid = self.plugin_windows@[w].plugin_id@;
            let p = plugin_pos(self.plugins@, pid);
            if p < 0 {
                Err("Plugin not loaded on Bus: "@ + pid)
            } else {
                Ok(proxy_of(self.plugins@[p]))
            }
        }
    }

    fn proxy_for_window(&self, label: &str) -> (r: Result<BusProxy, String>)
        ensures
            match self.window_proxy(label@) {
                Ok(q) => r matches Ok(p) && acts_for(p, self.plugins@[plugin_pos(
                    self.plugins@,
                    self.plugin_windows@[label_pos(self.plugin_windows@, label@)].plugin_id@,
                )]) && proxy_of(self.plugins@[plugin_pos(
                    self.plugins@,
                    self.plugin_windows@[label_pos(self.plugin_windows@, label@)].plugin_id@,
                )]) == q,
                Err(t) => r matches Err(e) && e@ == t,
            },
    {
        let pid = match self.plugin_id_for_window_label(label) {
            Some(p) => p,
            None => {
                return Err(String::from_str("window is not a Plugin surface"));
            },
        };
        match self.scoped_bus(pid.as_str()) {
            Ok(p) => Ok(p),
            Err(e) => Err(e.message()),
        }
    }

    /// Publishes `payload` on `topic` for the Plugin window labelled `label`, through its
    /// scoped proxy: the subscribers to deliver it to, in order.
    pub fn bus_emit_from_window(&self, label: &str, topic: &str, payload: &JsonValue) -> (r: Result<
        Vec<HandlerId>,
        String,
    >)
        ensures
            match self.window_proxy(label@) {
                Err(t) => r matches Err(e) && e@ == t,
                Ok(p) => match p.emit_check(topic@, *payload) {
                    Err(be) => r matches Err(e) && e@ == view_text(be),
                    Ok(()) => r matches Ok(hs) && hs@ == subscribers_for(self.bus.subscribers@, topic@),
                },
            },
    {
        let proxy = self.proxy_for_window(label)?;
        proof {
            let m = self.plugins@[plugin_pos(
                self.plugins@,
                self.plugin_windows@[label_pos(self.plugin_windows@, label@)].plugin_id@,
            )];
            lemma_acts_for(proxy, m, self.bus, topic@, *payload, arbitrary(), arbitrary());
        }
        match proxy.emit(&self.bus, topic, payload) {
            Ok(hs) => Ok(hs),
            Err(e) => Err(e.message()),
        }
    }

    /// Starts a request on `topic` for the Plugin window labelled `label`, through its scoped
    /// proxy: the handler to run and the serving Plugin's contract.
    pub fn bus_call_from_window(&self, label: &str, topic: &str, payload: &JsonValue) -> (r: Result<
        CallRoute,
        String,
    >)
        ensures
            match self.window_proxy(label@) {
                Err(t) => r matches Err(e) && e@ == t,
                Ok(p) => match p.call_check(self.bus, topic@, *payload) {
                    Err(be) => r matches Err(e) && e@ == view_text(be),
                    Ok(()) => r matches Ok(route) && {
                        let s = crate::bus::server_pos(self.bus.servers@, topic@);
                        &&& 0 <= s < self.bus.servers@.len()
                        &&& route.handler == self.bus.servers@[s].handler
                        &&& route.server_contract@ == self.bus.servers@[s].contract@
                    },
                },
            },
    {
        let proxy = self.proxy_for_window(label)?;
        proof {
            let m = self.plugins@[plugin_pos(
                self.plugins@,
                self.plugin_windows@[label_pos(self.plugin_windows@, label@)].plugin_id@,
            )];
            lemma_acts_for(proxy, m, self.bus, topic@, *payload, arbitrary(), arbitrary());
        }
        match proxy.call(&self.bus, topic, payload) {
            Ok(route) => Ok(route),
            Err(e) => Err(e.message()),
        }
    }

    /// Completes a request the Plugin window labelled `label` started, with what the handler
    /// gave back.
    pub fn finish_call_from_window(
        &self,
        label: &str,
        topic: &str,
        route: &CallRoute,
        outcome: Result<JsonValue, String>,
    ) -> (r: Result<JsonValue, String>)
        ensures
            match self.window_proxy(label@) {
                Err(t) => r matches Err(e) && e@ == t,
                Ok(p) => match p.finish_outcome(topic@, route.server_contract@, outcome) {
                    Err(be) => r matches Err(e) && e@ == view_text(be),
                    Ok(()) => r matches Ok(res) && outcome == Ok::<JsonValue, String>(res),
                },
            },
    {
        let proxy = self.proxy_for_window(label)?;
        proof {
            let m = self.plugins@[plugin_pos(
                self.plugins@,
                self.plugin_windows@[label_pos(self.plugin_windows@, label@)].plugin_id@,
            )];
            lemma_acts_for(proxy, m, self.bus, topic@, arbitrary(), route.server_contract@, outcome);
        }
        match proxy.finish_call(topic, route, outcome) {
            Ok(res) => Ok(res),
            Err(e) => Err(e.message()),
        }
    }

    /// Opens a new instance (fresh instance id) of Plugin `id`.
    pub fn open_plugin(&mut self, id: &str) -> (r: Result<(), String>)
        ensures
            plugin_pos(old(self).plugins@, id@) < 0 ==> (r matches Err(e) && e@ == "unknown Plugin: "@
                + id@) && *final(self) == *old(self),
            plugin_pos(old(self).plugins@, id@) >= 0 && !old(self).needs_sidecar(id@) ==> r is Ok,
            plugin_pos(old(self).plugins@, id@) >= 0 && r is Err ==> old(self).needs_sidecar(id@)
                && final(self).plugin_windows@ == old(self).open_plugin_windows(),
            r is Ok ==> {
                &&& final(self).plugin_windows@.len() == old(self).open_plugin_windows().len() + 1
                &&& final(self).plugin_windows@.drop_last() == old(self).open_plugin_windows()
                &&& final(self).plugin_windows@.last().plugin_id@ == id@
                &&& is_v4_uuid_text(final(self).plugin_windows@.last().instance_id@)
                &&& !final(self).platform.window_destroyed(
                    final(self).plugin_windows@.last().id.0@,
                )
                &&& !final(self).platform.window_privileged(
                    final(self).plugin_windows@.last().id.0@,
                )
                &&& final(self).platform.window_ui_entry(final(self).plugin_windows@.last().id.0@)
                    == Some(
                    join_path_spec(
                        old(self).plugins@[plugin_pos(old(self).plugins@, id@)].root@,
                        old(self).plugins@[plugin_pos(old(self).plugins@, id@)].ui@,
                    ),
                )
                &&& final(self).platform.window_instance(final(self).plugin_windows@.last().id.0@)
                    == Some(final(self).plugin_windows@.last().instance_id@)
            },
            r is Ok && old(self).needs_sidecar(id@) ==> has_sidecar(final(self).sidecars@, id@),
            r is Ok && !old(self).needs_sidecar(id@) ==> final(self).sidecars@ == old(self).kept_sidecars(),
            plugin_pos(old(self).plugins@, id@) >= 0 ==> {
                &&& final(self).blanks@ == live_blanks(old(self).platform, old(self).blanks@)
                &&& final(self).launcher == live_slot(old(self).platform, old(self).launcher)
                &&& final(self).palette == live_slot(old(self).platform, old(self).palette)
            },
            forall|w: Seq<char>|
                !old(self).platform.window_destroyed(w) ==> !#[trigger] final(self).platform.window_destroyed(w)
                    && final(self).platform.geometry_of(w) == old(self).platform.geometry_of(w),
            r is Ok ==> final(self).platform.geometry_of(final(self).plugin_windows@.last().id.0@) is Some,
            !old(self).needs_sidecar(id@) ==> final(self).platform.spawn_log() == old(self).platform.spawn_log(),
            old(self).needs_sidecar(id@) ==> {
                let m = old(self).plugins@[plugin_pos(old(self).plugins@, id@)];
                let log = final(self).platform.spawn_log();
                &&& logs_start_of(log, old(self).platform.spawn_log(), m)
                &&& (r is Ok <==> (log.last().2 is Some && attach_refusal(m) is None))
                &&& (r is Ok ==> log.last().2 == Some(final(self).sidecars@.last().sidecar.0@)
                    && final(self).sidecars@.last().plugin_id@ == id@)
            },
            final(self).same_config(old(self)),
            sidecars_distinct(old(self).sidecars@) ==> sidecars_distinct(final(self).sidecars@),
    {
        let pid = String::from_str(id);
        if self.find_plugin(&pid).is_none() {
            return Err(String::from_str("unknown Plugin: ").concat(id));
        }
        let instance_id = new_uuid();
        let ghost before = *self;
        match self.open_plugin_instance(&pid, &instance_id, None) {
            Ok(_) => {
                proof {
                    let s = self.sidecars@;
                    if before.needs_sidecar(id@) {
                        lemma_sidecar_entry_pos(s, id@);
                        if !has_sidecar(s, id@) {
                            assert(s[s.len() - 1].plugin_id@ != id@);
                        }
                    }
                    assert(self.plugin_windows@.drop_last() =~= before.open_plugin_windows());
                }
                Ok(())
            },
            Err(e) => Err(e),
        }
    }

    /// The Plugin shown by the window labelled `label`.
    pub fn plugin_id_for_window_label(&self, label: &str) -> (r: Option<String>)
        ensures
            r == if label_pos(self.plugin_windows@, label@) >= 0 {
                Some(self.plugin_windows@[label_pos(self.plugin_windows@, label@)].plugin_id)
            } else {
                None
            },
    {
        match self.plugin_window_index(label) {
            Some(i) => Some(self.plugin_windows[i].plugin_id.clone()),
            None => None,
        }
    }

    /// The Plugin instance shown by the window labelled `label` (the identity a Plugin keys its
    /// own state by).
    pub fn instance_id_for_window_label(&self, label: &str) -> (r: Option<String>)
        ensures
            r == if label_pos(self.plugin_windows@, label@) >= 0 {
                Some(self.plugin_windows@[label_pos(self.plugin_windows@, label@)].instance_id)
            } else {
                None
            },
    {
        match self.plugin_window_index(label) {
            Some(i) => Some(self.plugin_windows[i].instance_id.clone()),
            None => None,
        }
    }

    pub(crate) fn plugin_window_index(&self, label: &str) -> (r: Option<usize>)
        ensures
            match r {
                Some(i) => i < self.plugin_windows@.len() && i as int == label_pos(
                    self.plugin_windows@,
                    label@,
                ),
                None => label_pos(self.plugin_windows@, label@) == -1,
            },
    {
        let l = String::from_str(label);
        let mut i: usize = 0;
        while i < self.plugin_windows.len()
            invariant
                i <= self.plugin_windows@.len(),
                l@ == label@,
                forall|j: int| 0 <= j < i ==> #[trigger] self.plugin_windows@[j].id.0@ != label@,
            decreases self.plugin_windows.len() - i,
        {
            if self.plugin_windows[i].id.0 == l {
                proof {
                    lemma_label_pos_is(self.plugin_windows@, label@, i as int);
                }
                return Some(i);
            }
            i = i + 1;
        }
        proof {
            lemma_label_pos_is(self.plugin_windows@, label@, -1);
        }
        None
    }
}

} // verus!
