//! Restoring a saved Workspace: the content windows are replaced by the saved ones, each with
//! its saved identity and geometry, and the saved Window Groups come back.

use vstd::prelude::*;

use crate::host::{
    blank_snapshot, lemma_live_all, lemma_plugin_pos, live_slot, names_sidecar, plugin_pos, plugin_snapshot, running_ones_kept,
    sidecars_have_windows, BlankWindowEntry, Host, PluginWindowEntry,
};
use crate::ids::{is_v4_uuid_text, new_uuid};
use crate::manifest::Manifest;
use crate::plugin_windows::attach_refusal;
use crate::platform::{Platform, WindowId, WindowKind};
use crate::workspace::{Workspace, WorkspaceWindow, WorkspaceWindowKind};
use vstd::seq_lib::group_filter_ensures;

verus! {

/// Selects the saved blank windows.
pub open spec fn saved_blank() -> spec_fn(WorkspaceWindow) -> bool {
    |w: WorkspaceWindow| w.kind is Blank
}

/// The identity a saved blank window had (empty in files written before identities existed).
pub open spec fn saved_blank_id(w: WorkspaceWindow) -> Seq<char> {
    match w.kind {
        WorkspaceWindowKind::Blank { blank_id } => blank_id@,
        WorkspaceWindowKind::Plugin { .. } => Seq::empty(),
    }
}

/// The Plugin a saved Plugin window shows.
pub open spec fn saved_plugin_id(w: WorkspaceWindow) -> Seq<char> {
    match w.kind {
        WorkspaceWindowKind::Plugin { plugin_id, .. } => plugin_id@,
        WorkspaceWindowKind::Blank { .. } => Seq::empty(),
    }
}

/// `e` on `p` is saved blank window `w` brought back: its identity (a fresh one when none was
/// saved), open, at the saved geometry.
pub open spec fn restores_blank<P: Platform>(p: P, e: BlankWindowEntry, w: WorkspaceWindow) -> bool {
    &&& if saved_blank_id(w).len() == 0 {
        is_v4_uuid_text(e.blank_id@)
    } else {
        e.blank_id@ == saved_blank_id(w)
    }
    &&& !p.window_destroyed(e.id.0@)
    &&& p.geometry_of(e.id.0@) == Some(w.geometry)
}

/// `e` on `p` is saved Plugin window `w` brought back: same Plugin and instance, open, at the
/// saved geometry.
pub open spec fn restores_plugin<P: Platform>(p: P, e: PluginWindowEntry, w: WorkspaceWindow) -> bool {
    &&& w.kind == WorkspaceWindowKind::Plugin { plugin_id: e.plugin_id, instance_id: e.instance_id }
    &&& !p.window_destroyed(e.id.0@)
    &&& p.geometry_of(e.id.0@) == Some(w.geometry)
    &&& p.window_instance(e.id.0@) == Some(e.instance_id@)
}

/// A Sidecar start for Plugin `pid` logged at or after `base` failed, or the Bus refuses that
/// Plugin.
pub open spec fn start_refused_since(
    log: Seq<(Seq<char>, Seq<char>, Option<Seq<char>>)>,
    base: int,
    plugins: Seq<Manifest>,
    pid: Seq<char>,
) -> bool {
    exists|t: int|
        base <= t < log.len() && (#[trigger] log[t]).0 == pid && (log[t].2 is None || attach_refusal(
            plugins[plugin_pos(plugins, pid)],
        ) is Some)
}

/// Window slot `slot` holds a window open on `p`.
pub open spec fn slot_open<P: Platform>(p: P, slot: Option<WindowId>) -> bool {
    match slot {
        Some(id) => !p.window_destroyed(id.0@),
        None => false,
    }
}

/// `log` starts with `before`.
pub open spec fn log_extends(
    log: Seq<(Seq<char>, Seq<char>, Option<Seq<char>>)>,
    before: Seq<(Seq<char>, Seq<char>, Option<Seq<char>>)>,
) -> bool {
    before.len() <= log.len() && forall|t: int| 0 <= t < before.len() ==> #[trigger] log[t] == before[t]
}

/// Saved window `w` is a Plugin window whose Plugin opens without a Sidecar.
pub open spec fn plain_plugin_entry(plugins: Seq<Manifest>, w: WorkspaceWindow) -> bool {
    w.kind matches WorkspaceWindowKind::Plugin { plugin_id, .. } && opens_plainly(plugins, plugin_id@)
}

/// Plugin `plugin_id` is registered and opens without a Sidecar.
pub open spec fn opens_plainly(plugins: Seq<Manifest>, plugin_id: Seq<char>) -> bool {
    let p = plugin_pos(plugins, plugin_id);
    p >= 0 && plugins[p].sidecar is None
}

/// The saved form of blank windows holds only blank windows, so selecting the blanks keeps
/// it whole.
proof fn lemma_blank_snapshot_filter<P: Platform>(p: P, b: Seq<BlankWindowEntry>)
    ensures
        blank_snapshot(p, b).filter(saved_blank()) == blank_snapshot(p, b),
    decreases b.len(),
{
    if b.len() > 0 {
        lemma_blank_snapshot_filter(p, b.drop_last());
        let head = blank_snapshot(p, b.drop_last());
        match p.geometry_of(b.last().id.0@) {
            Some(g) => {
                let x = WorkspaceWindow {
                    kind: WorkspaceWindowKind::Blank { blank_id: b.last().blank_id },
                    geometry: g,
                };
                assert(blank_snapshot(p, b) =~= head.push(x));
                head.lemma_filter_push(x, saved_blank());
            },
            None => {
                assert(blank_snapshot(p, b) =~= head);
            },
        }
    } else {
        assert(blank_snapshot(p, b).filter(saved_blank()) =~= blank_snapshot(p, b)) by {
            reveal(Seq::filter);
        }
    }
}

/// The saved form of Plugin windows holds no blank window.
proof fn lemma_plugin_snapshot_filter<P: Platform>(p: P, w: Seq<PluginWindowEntry>)
    ensures
        plugin_snapshot(p, w).filter(saved_blank()) == Seq::<WorkspaceWindow>::empty(),
    decreases w.len(),
{
    if w.len() > 0 {
        lemma_plugin_snapshot_filter(p, w.drop_last());
        let head = plugin_snapshot(p, w.drop_last());
        match p.geometry_of(w.last().id.0@) {
            Some(g) => {
                let x = WorkspaceWindow {
                    kind: WorkspaceWindowKind::Plugin {
                        plugin_id: w.last().plugin_id,
                        instance_id: w.last().instance_id,
                    },
                    geometry: g,
                };
                assert(plugin_snapshot(p, w) =~= head.push(x));
                head.lemma_filter_push(x, saved_blank());
            },
            None => {
                assert(plugin_snapshot(p, w) =~= head);
            },
        }
    } else {
        assert(plugin_snapshot(p, w).filter(saved_blank()) =~= Seq::<WorkspaceWindow>::empty()) by {
            reveal(Seq::filter);
        }
    }
}

/// Plugin window `j` of `windows` on `p` brings back saved window `saved[origin[j]]`, with
/// `origin` increasing: the windows come back one for one and in saved order.
pub open spec fn in_saved_order<P: Platform>(
    p: P,
    windows: Seq<PluginWindowEntry>,
    saved: Seq<WorkspaceWindow>,
    origin: Seq<int>,
) -> bool {
    &&& origin.len() == windows.len()
    &&& forall|j: int|
        0 <= j < origin.len() ==> 0 <= #[trigger] origin[j] < saved.len() && restores_plugin(
            p,
            windows[j],
            saved[origin[j]],
        )
    &&& forall|a: int, c: int| 0 <= a < c < origin.len() ==> #[trigger] origin[a] < #[trigger] origin[c]
}

/// Every window of the saved form of blank windows is a blank window.
proof fn lemma_blank_snapshot_kinds<P: Platform>(p: P, b: Seq<BlankWindowEntry>)
    ensures
        forall|k: int| 0 <= k < blank_snapshot(p, b).len() ==> (#[trigger] blank_snapshot(p, b)[k]).kind is Blank,
    decreases b.len(),
{
    if b.len() > 0 {
        lemma_blank_snapshot_kinds(p, b.drop_last());
        let head = blank_snapshot(p, b.drop_last());
        let all = blank_snapshot(p, b);
        assert forall|k: int| 0 <= k < all.len() implies (#[trigger] all[k]).kind is Blank by {
            if k < head.len() {
                assert(all[k] == head[k]);
            }
        }
    }
}

/// Restoring what was saved of blank windows `b` and Plugin windows `w` on platform `p` (the
/// layout `stop` and `save_workspace` hand out) brings every saved blank window back, one for
/// one and in order, with its identity and geometry, and the saved Plugin windows back one for
/// one and in saved order, each with its Plugin, instance id and geometry, every one whose
/// Plugin opens without a Sidecar among them.
pub proof fn law_saved_layout_comes_back<P: Platform>(
    p: P,
    b: Seq<BlankWindowEntry>,
    w: Seq<PluginWindowEntry>,
    plugins: Seq<Manifest>,
    after: Host<P>,
)
    requires
        after.restored_prefix(
            plugins,
            blank_snapshot(p, b) + plugin_snapshot(p, w),
            (blank_snapshot(p, b) + plugin_snapshot(p, w)).len() as int,
        ),
    ensures
        after.blanks@.len() == blank_snapshot(p, b).len(),
        forall|k: int|
            0 <= k < after.blanks@.len() ==> restores_blank(
                after.platform,
                #[trigger] after.blanks@[k],
                blank_snapshot(p, b)[k],
            ),
        forall|k: int|
            0 <= k < plugin_snapshot(p, w).len() && (plugin_snapshot(p, w)[k].kind matches WorkspaceWindowKind::Plugin {
                plugin_id,
                ..
            } && opens_plainly(plugins, plugin_id@)) ==> exists|j: int|
                0 <= j < after.plugin_windows@.len() && restores_plugin(
                    after.platform,
                    after.plugin_windows@[j],
                    #[trigger] plugin_snapshot(p, w)[k],
                ),
        exists|origin: Seq<int>|
            #[trigger] in_saved_order(after.platform, after.plugin_windows@, plugin_snapshot(p, w), origin),
{
    broadcast use group_filter_ensures;

    let bs = blank_snapshot(p, b);
    let ps = plugin_snapshot(p, w);
    let all = bs + ps;
    lemma_blank_snapshot_filter(p, b);
    lemma_plugin_snapshot_filter(p, w);
    Seq::filter_distributes_over_add(bs, ps, saved_blank());
    assert(all.subrange(0, all.len() as int) =~= all);
    assert(all.filter(saved_blank()) =~= bs);
    lemma_blank_snapshot_kinds(p, b);
    let o = choose|o: Seq<int>| #[trigger] after.plugin_origins(plugins, all, all.len() as int, o);
    let o2 = o.map_values(|x: int| x - bs.len());
    assert forall|j: int| 0 <= j < o2.len() implies 0 <= #[trigger] o2[j] < ps.len() && restores_plugin(
        after.platform,
        after.plugin_windows@[j],
        ps[o2[j]],
    ) by {
        assert(restores_plugin(after.platform, after.plugin_windows@[j], all[o[j]]));
        if o[j] < bs.len() {
            assert(all[o[j]] == bs[o[j]]);
            assert(bs[o[j]].kind is Blank);
        }
        assert(all[o[j]] == ps[o[j] - bs.len()]);
    }
    assert forall|a: int, c: int| 0 <= a < c < o2.len() implies #[trigger] o2[a] < #[trigger] o2[c] by {
        assert(o[a] < o[c]);
    }
    assert(o2.len() == after.plugin_windows@.len());
    assert(in_saved_order(after.platform, after.plugin_windows@, ps, o2));
    assert forall|k: int|
        0 <= k < ps.len() && (ps[k].kind matches WorkspaceWindowKind::Plugin { plugin_id, .. }
            && opens_plainly(plugins, plugin_id@)) implies exists|j: int|
            0 <= j < after.plugin_windows@.len() && restores_plugin(
                after.platform,
                after.plugin_windows@[j],
                #[trigger] ps[k],
            ) by {
        assert(all[bs.len() + k] == ps[k]);
    }
}

impl<P: Platform> Host<P> {
    /// Every window the Host lists is open.
    pub open spec fn all_open(&self) -> bool {
        &&& forall|i: int|
            0 <= i < self.blanks@.len() ==> !self.platform.window_destroyed(
                #[trigger] self.blanks@[i].id.0@,
            )
        &&& forall|i: int|
            0 <= i < self.plugin_windows@.len() ==> !self.platform.window_destroyed(
                #[trigger] self.plugin_windows@[i].id.0@,
            )
    }

    /// The first `i` saved windows of `saved` are back: the blanks among them, in order, and
    /// every Plugin window listed is one of them; every one whose Plugin opens plainly is
    /// listed; all listed windows are open.
    pub open spec fn restored_prefix(&self, plugins: Seq<Manifest>, saved: Seq<WorkspaceWindow>, i: int) -> bool {
        &&& 0 <= i <= saved.len()
        &&& self.all_open()
        &&& self.blanks@.len() == saved.subrange(0, i).filter(saved_blank()).len()
        &&& forall|k: int|
            0 <= k < self.blanks@.len() ==> restores_blank(
                self.platform,
                #[trigger] self.blanks@[k],
                saved.subrange(0, i).filter(saved_blank())[k],
            )
        &&& forall|j: int|
            0 <= j < self.plugin_windows@.len() ==> exists|k: int|
                0 <= k < i && restores_plugin(self.platform, #[trigger] self.plugin_windows@[j], saved[k])
        &&& forall|k: int|
            0 <= k < i && (saved[k].kind matches WorkspaceWindowKind::Plugin { plugin_id, .. }
                && opens_plainly(plugins, plugin_id@)) ==> exists|j: int|
                0 <= j < self.plugin_windows@.len() && restores_plugin(
                    self.platform,
                    self.plugin_windows@[j],
                    #[trigger] saved[k],
                )
        &&& exists|origin: Seq<int>| #[trigger] self.plugin_origins(plugins, saved, i, origin)
    }

    /// Every saved Plugin window among the first `i` of `saved` whose Plugin is registered is
    /// back, or a Sidecar start for its Plugin logged since `base` failed or was refused.
    pub open spec fn skips_refused(&self, plugins: Seq<Manifest>, saved: Seq<WorkspaceWindow>, i: int, base: int) -> bool {
        forall|k: int|
            0 <= k < i && (#[trigger] saved[k]).kind is Plugin && plugin_pos(plugins, saved_plugin_id(saved[k])) >= 0
                ==> (exists|j: int|
                0 <= j < self.plugin_windows@.len() && restores_plugin(self.platform, self.plugin_windows@[j], saved[k]))
                || start_refused_since(self.platform.spawn_log(), base, plugins, saved_plugin_id(saved[k]))
    }

    /// Window slot `slot` holds an open window that is not one of the listed content windows.
    pub open spec fn slot_open_unlisted(&self, slot: Option<WindowId>) -> bool {
        slot_open(self.platform, slot) && !self.lists_label(slot->Some_0.0@)
    }

    /// The window labelled `w` is closed, or it is one the Host lists.
    pub open spec fn closed_or_listed(&self, w: Seq<char>) -> bool {
        ||| self.platform.window_destroyed(w)
        ||| exists|j: int| 0 <= j < self.blanks@.len() && #[trigger] self.blanks@[j].id.0@ == w
        ||| exists|j: int| 0 <= j < self.plugin_windows@.len() && #[trigger] self.plugin_windows@[j].id.0@ == w
    }

    /// `origin[j]` is the saved window that Plugin window `j` brings back: the Plugin windows
    /// come back one for one and in saved order, from the first `i` saved windows, and every one
    /// of those whose Plugin opens plainly is among them.
    pub open spec fn plugin_origins(
        &self,
        plugins: Seq<Manifest>,
        saved: Seq<WorkspaceWindow>,
        i: int,
        origin: Seq<int>,
    ) -> bool {
        &&& origin.len() == self.plugin_windows@.len()
        &&& forall|j: int|
            0 <= j < origin.len() ==> 0 <= #[trigger] origin[j] < i && restores_plugin(
                self.platform,
                self.plugin_windows@[j],
                saved[origin[j]],
            )
        &&& forall|a: int, b: int| 0 <= a < b < origin.len() ==> #[trigger] origin[a] < #[trigger] origin[b]
        &&& forall|k: int|
            0 <= k < i && #[trigger] plain_plugin_entry(plugins, saved[k]) ==> exists|j: int|
                0 <= j < origin.len() && origin[j] == k
    }

    /// Brings back saved blank window `saved[i]`.
    fn restore_blank_window(
        &mut self,
        blank_id: &String,
        geometry: crate::workspace::WindowGeometry,
        Ghost(plugins): Ghost<Seq<Manifest>>,
        Ghost(saved): Ghost<Seq<WorkspaceWindow>>,
        Ghost(i): Ghost<int>,
        Ghost(base): Ghost<int>,
    )
        requires
            old(self).restored_prefix(plugins, saved, i),
            i < saved.len(),
            saved[i].kind == (WorkspaceWindowKind::Blank { blank_id: *blank_id }),
            saved[i].geometry == geometry,
        ensures
            final(self).restored_prefix(plugins, saved, i + 1),
            final(self).same_config(old(self)),
            final(self).bus == old(self).bus,
            final(self).sidecars == old(self).sidecars,
            final(self).plugin_windows == old(self).plugin_windows,
            forall|w: Seq<char>| old(self).closed_or_listed(w) ==> #[trigger] final(self).closed_or_listed(w),
            forall|x: Seq<char>| #[trigger] final(self).platform.sidecar_running(x) == old(self).platform.sidecar_running(x),
            final(self).platform.spawn_log() == old(self).platform.spawn_log(),
            old(self).skips_refused(plugins, saved, i, base) ==> final(self).skips_refused(plugins, saved, i + 1, base),
            final(self).launcher == old(self).launcher,
            final(self).palette == old(self).palette,
            forall|w: Seq<char>| !old(self).platform.window_destroyed(w) ==> !#[trigger] final(self).platform.window_destroyed(w),
    {
        broadcast use group_filter_ensures;

        let ghost pre = *self;
        let ghost cur = saved.subrange(0, i);
        proof {
            assert(saved.subrange(0, i + 1) =~= cur.push(saved[i]));
            cur.lemma_filter_push(saved[i], saved_blank());
        }
        let id_text = if blank_id.as_str().unicode_len() == 0 {
            new_uuid()
        } else {
            blank_id.clone()
        };
        let id = self.platform.create_window(WindowKind::Blank);
        self.platform.set_window_geometry(&id, &geometry);
        self.blanks.push(BlankWindowEntry { id, blank_id: id_text });
        proof {
            let n = pre.blanks@.len();
            let label = self.blanks@[n as int].id.0@;
            assert forall|k: int| 0 <= k < self.blanks@.len() implies restores_blank(
                self.platform,
                #[trigger] self.blanks@[k],
                saved.subrange(0, i + 1).filter(saved_blank())[k],
            ) by {
                if k < n {
                    assert(self.blanks@[k] == pre.blanks@[k]);
                    assert(restores_blank(pre.platform, pre.blanks@[k], cur.filter(saved_blank())[k]));
                    assert(pre.blanks@[k].id.0@ != label);
                } else {
                    assert(saved.subrange(0, i + 1).filter(saved_blank())[k] == saved[i]);
                }
            }
            assert forall|j: int| 0 <= j < self.plugin_windows@.len() implies exists|k: int|
                0 <= k < i + 1 && restores_plugin(self.platform, #[trigger] self.plugin_windows@[j], saved[k]) by {
                let k = choose|k: int|
                    0 <= k < i && restores_plugin(pre.platform, pre.plugin_windows@[j], saved[k]);
                assert(pre.plugin_windows@[j].id.0@ != label);
            }
            assert forall|k: int|
                0 <= k < i + 1 && (saved[k].kind matches WorkspaceWindowKind::Plugin { plugin_id, .. }
                    && opens_plainly(plugins, plugin_id@)) implies exists|j: int|
                    0 <= j < self.plugin_windows@.len() && restores_plugin(
                        self.platform,
                        self.plugin_windows@[j],
                        #[trigger] saved[k],
                    ) by {
                if k < i {
                    let j = choose|j: int|
                        0 <= j < pre.plugin_windows@.len() && restores_plugin(
                            pre.platform,
                            pre.plugin_windows@[j],
                            saved[k],
                        );
                    assert(pre.plugin_windows@[j].id.0@ != label);
                    assert(restores_plugin(self.platform, self.plugin_windows@[j], saved[k]));
                }
            }
            assert forall|k: int| 0 <= k < self.blanks@.len() implies !self.platform.window_destroyed(
                #[trigger] self.blanks@[k].id.0@,
            ) by {
                if k < n {
                    assert(self.blanks@[k] == pre.blanks@[k]);
                    assert(!pre.platform.window_destroyed(pre.blanks@[k].id.0@));
                }
            }
            assert forall|k: int| 0 <= k < self.plugin_windows@.len() implies !self.platform.window_destroyed(
                #[trigger] self.plugin_windows@[k].id.0@,
            ) by {
                assert(!pre.platform.window_destroyed(pre.plugin_windows@[k].id.0@));
            }
            let o = choose|o: Seq<int>| #[trigger] pre.plugin_origins(plugins, saved, i, o);
            assert forall|j: int| 0 <= j < o.len() implies 0 <= #[trigger] o[j] < i + 1 && restores_plugin(
                self.platform,
                self.plugin_windows@[j],
                saved[o[j]],
            ) by {
                assert(restores_plugin(pre.platform, pre.plugin_windows@[j], saved[o[j]]));
                assert(pre.plugin_windows@[j].id.0@ != label);
            }
            assert forall|k: int| 0 <= k < i + 1 && #[trigger] plain_plugin_entry(plugins, saved[k])
                implies exists|j: int| 0 <= j < o.len() && o[j] == k by {
                if k == i {
                    assert(!plain_plugin_entry(plugins, saved[k]));
                }
            }
            assert(self.plugin_origins(plugins, saved, i + 1, o));
            if pre.skips_refused(plugins, saved, i, base) {
                assert forall|k: int|
                    0 <= k < i + 1 && (#[trigger] saved[k]).kind is Plugin && plugin_pos(plugins, saved_plugin_id(saved[k])) >= 0
                    implies (exists|j: int|
                    0 <= j < self.plugin_windows@.len() && restores_plugin(self.platform, self.plugin_windows@[j], saved[k]))
                    || start_refused_since(self.platform.spawn_log(), base, plugins, saved_plugin_id(saved[k])) by {
                    if exists|j: int| 0 <= j < pre.plugin_windows@.len() && restores_plugin(pre.platform, pre.plugin_windows@[j], saved[k]) {
                        let j = choose|j: int| 0 <= j < pre.plugin_windows@.len() && restores_plugin(pre.platform, pre.plugin_windows@[j], saved[k]);
                        assert(pre.plugin_windows@[j].id.0@ != label);
                        assert(restores_plugin(self.platform, self.plugin_windows@[j], saved[k]));
                    }
                }
            }
            assert forall|w: Seq<char>| pre.closed_or_listed(w) implies #[trigger] self.closed_or_listed(w) by {
                if w == label {
                    assert(self.blanks@[n as int].id.0@ == w);
                } else if !pre.platform.window_destroyed(w) {
                    if exists|j: int| 0 <= j < pre.blanks@.len() && #[trigger] pre.blanks@[j].id.0@ == w {
                        let j = choose|j: int| 0 <= j < pre.blanks@.len() && #[trigger] pre.blanks@[j].id.0@ == w;
                        assert(self.blanks@[j] == pre.blanks@[j]);
                    }
                }
            }
        }
    }

    /// Brings back saved Plugin window `saved[i]`, when its Plugin is registered and its
    /// Sidecar (if any) starts.
    #[verifier::rlimit(50)]
    #[verifier::spinoff_prover]
    fn restore_plugin_window(
        &mut self,
        plugin_id: &String,
        instance_id: &String,
        geometry: crate::workspace::WindowGeometry,
        Ghost(saved): Ghost<Seq<WorkspaceWindow>>,
        Ghost(i): Ghost<int>,
        Ghost(base): Ghost<int>,
    )
        requires
            old(self).restored_prefix(old(self).plugins@, saved, i),
            i < saved.len(),
            saved[i].kind == (WorkspaceWindowKind::Plugin {
                plugin_id: *plugin_id,
                instance_id: *instance_id,
            }),
            saved[i].geometry == geometry,
            0 <= base <= old(self).platform.spawn_log().len(),
        ensures
            final(self).restored_prefix(old(self).plugins@, saved, i + 1),
            final(self).same_config(old(self)),
            forall|w: Seq<char>| old(self).closed_or_listed(w) ==> #[trigger] final(self).closed_or_listed(w),
            forall|x: Seq<char>|
                #[trigger] final(self).platform.sidecar_running(x) ==> old(self).platform.sidecar_running(x)
                    || names_sidecar(final(self).sidecars@, x),
            running_ones_kept(final(self).platform, old(self).sidecars@, final(self).sidecars@),
            sidecars_have_windows(final(self).sidecars@, final(self).plugin_windows@),
            log_extends(final(self).platform.spawn_log(), old(self).platform.spawn_log()),
            final(self).launcher == live_slot(old(self).platform, old(self).launcher),
            final(self).palette == live_slot(old(self).platform, old(self).palette),
            forall|w: Seq<char>| !old(self).platform.window_destroyed(w) ==> !#[trigger] final(self).platform.window_destroyed(w),
            old(self).skips_refused(old(self).plugins@, saved, i, base) ==> final(self).skips_refused(
                old(self).plugins@,
                saved,
                i + 1,
                base,
            ),
    {
        broadcast use group_filter_ensures;

        let ghost pre = *self;
        let ghost cur = saved.subrange(0, i);
        proof {
            assert(saved.subrange(0, i + 1) =~= cur.push(saved[i]));
            cur.lemma_filter_push(saved[i], saved_blank());
            lemma_live_all(self.platform, self.blanks@, self.plugin_windows@);
        }
        let r = self.open_plugin_instance(plugin_id, instance_id, Some(geometry));
        proof {
            let n = pre.plugin_windows@.len();
            let o = choose|o: Seq<int>| #[trigger] pre.plugin_origins(pre.plugins@, saved, i, o);
            let o2 = if self.plugin_windows@.len() == n { o } else { o.push(i) };
            if self.plugin_windows@.len() != n {
                assert(r matches Ok(Some(_)));
                assert(self.plugin_windows@[n as int].id == r->Ok_0->Some_0);
            }
            assert forall|j: int| 0 <= j < o2.len() implies 0 <= #[trigger] o2[j] < i + 1 && restores_plugin(
                self.platform,
                self.plugin_windows@[j],
                saved[o2[j]],
            ) by {
                if j < n {
                    assert(o2[j] == o[j]);
                    assert(restores_plugin(pre.platform, pre.plugin_windows@[j], saved[o[j]]));
                    assert(self.plugin_windows@[j] == pre.plugin_windows@[j]);
                    assert(!pre.platform.window_destroyed(pre.plugin_windows@[j].id.0@));
                }
            }
            assert forall|a: int, b: int| 0 <= a < b < o2.len() implies #[trigger] o2[a] < #[trigger] o2[b] by {
                if b < n {
                    assert(o2[a] == o[a] && o2[b] == o[b]);
                } else {
                    assert(o2[a] == o[a]);
                }
            }
            assert forall|k: int| 0 <= k < i + 1 && #[trigger] plain_plugin_entry(pre.plugins@, saved[k])
                implies exists|j: int| 0 <= j < o2.len() && o2[j] == k by {
                if k < i {
                    let j = choose|j: int| 0 <= j < o.len() && o[j] == k;
                    assert(o2[j] == o[j]);
                } else {
                    assert(self.plugin_windows@.len() != n);
                    assert(o2[n as int] == i);
                }
            }
            assert(self.plugin_origins(pre.plugins@, saved, i + 1, o2));
            let log0 = pre.platform.spawn_log();
            let log1 = self.platform.spawn_log();
            if pre.needs_sidecar(plugin_id@) {
                assert(log1.drop_last() == log0);
                assert forall|t: int| 0 <= t < log0.len() implies #[trigger] log1[t] == log0[t] by {
                    assert(log1.drop_last()[t] == log1[t]);
                }
            }
            assert(log_extends(log1, log0));
            if pre.skips_refused(pre.plugins@, saved, i, base) {
                lemma_plugin_pos(pre.plugins@, plugin_id@);
                assert forall|k: int|
                    0 <= k < i + 1 && (#[trigger] saved[k]).kind is Plugin && plugin_pos(pre.plugins@, saved_plugin_id(saved[k])) >= 0
                    implies (exists|j: int|
                    0 <= j < self.plugin_windows@.len() && restores_plugin(self.platform, self.plugin_windows@[j], saved[k]))
                    || start_refused_since(log1, base, pre.plugins@, saved_plugin_id(saved[k])) by {
                    if k < i {
                        if exists|j: int| 0 <= j < pre.plugin_windows@.len() && restores_plugin(pre.platform, pre.plugin_windows@[j], saved[k]) {
                            let j = choose|j: int| 0 <= j < pre.plugin_windows@.len() && restores_plugin(pre.platform, pre.plugin_windows@[j], saved[k]);
                            assert(self.plugin_windows@[j] == pre.plugin_windows@[j]);
                            assert(!pre.platform.window_destroyed(pre.plugin_windows@[j].id.0@));
                            assert(restores_plugin(self.platform, self.plugin_windows@[j], saved[k]));
                        } else {
                            assert(start_refused_since(log0, base, pre.plugins@, saved_plugin_id(saved[k])));
                            let t = choose|t: int| base <= t < log0.len() && (#[trigger] log0[t]).0 == saved_plugin_id(saved[k])
                                && (log0[t].2 is None || attach_refusal(pre.plugins@[plugin_pos(pre.plugins@, saved_plugin_id(saved[k]))]) is Some);
                            assert(log1[t] == log0[t]);
                        }
                    } else {
                        if self.plugin_windows@.len() != n {
                            assert(restores_plugin(self.platform, self.plugin_windows@[n as int], saved[k]));
                        } else {
                            assert(r is Err);
                            assert(log1[log0.len() as int] == log1.last());
                        }
                    }
                }
            }
            assert forall|w: Seq<char>| pre.closed_or_listed(w) implies #[trigger] self.closed_or_listed(w) by {
                if pre.platform.window_destroyed(w) {
                    if !self.platform.window_destroyed(w) {
                        assert(self.plugin_windows@[n as int].id.0@ == w);
                    }
                } else if exists|j: int| 0 <= j < pre.plugin_windows@.len() && #[trigger] pre.plugin_windows@[j].id.0@ == w {
                    let j = choose|j: int| 0 <= j < pre.plugin_windows@.len() && #[trigger] pre.plugin_windows@[j].id.0@ == w;
                    assert(self.plugin_windows@[j] == pre.plugin_windows@[j]);
                }
            }
            assert(self.blanks@ == pre.blanks@);
            assert forall|k: int| 0 <= k < self.blanks@.len() implies restores_blank(
                self.platform,
                #[trigger] self.blanks@[k],
                saved.subrange(0, i + 1).filter(saved_blank())[k],
            ) by {
                assert(restores_blank(pre.platform, pre.blanks@[k], cur.filter(saved_blank())[k]));
            }
            assert forall|k: int| 0 <= k < n implies #[trigger] self.plugin_windows@[k] == pre.plugin_windows@[k] by {}
            assert forall|j: int| 0 <= j < self.plugin_windows@.len() implies exists|k: int|
                0 <= k < i + 1 && restores_plugin(self.platform, #[trigger] self.plugin_windows@[j], saved[k]) by {
                if j < n {
                    let k = choose|k: int|
                        0 <= k < i && restores_plugin(pre.platform, pre.plugin_windows@[j], saved[k]);
                    assert(restores_plugin(self.platform, self.plugin_windows@[j], saved[k]));
                } else {
                    assert(restores_plugin(self.platform, self.plugin_windows@[j], saved[i]));
                }
            }
            assert forall|k: int|
                0 <= k < i + 1 && (saved[k].kind matches WorkspaceWindowKind::Plugin { plugin_id, .. }
                    && opens_plainly(pre.plugins@, plugin_id@)) implies exists|j: int|
                    0 <= j < self.plugin_windows@.len() && restores_plugin(
                        self.platform,
                        self.plugin_windows@[j],
                        #[trigger] saved[k],
                    ) by {
                if k < i {
                    let j = choose|j: int|
                        0 <= j < pre.plugin_windows@.len() && restores_plugin(
                            pre.platform,
                            pre.plugin_windows@[j],
                            saved[k],
                        );
                    assert(restores_plugin(self.platform, self.plugin_windows@[j], saved[k]));
                } else {
                    assert(restores_plugin(self.platform, self.plugin_windows@[n as int], saved[k]));
                }
            }
            assert forall|k: int| 0 <= k < self.blanks@.len() implies !self.platform.window_destroyed(
                #[trigger] self.blanks@[k].id.0@,
            ) by {
                assert(!pre.platform.window_destroyed(pre.blanks@[k].id.0@));
            }
            assert forall|k: int| 0 <= k < self.plugin_windows@.len() implies !self.platform.window_destroyed(
                #[trigger] self.plugin_windows@[k].id.0@,
            ) by {
                if k < n {
                    assert(!pre.platform.window_destroyed(pre.plugin_windows@[k].id.0@));
                }
            }
        }
    }

    /// Replaces the content windows and Window Groups with those of `ws`: the content windows
    /// open before are closed and the Sidecars running before are stopped; then every blank
    /// window comes back with its identity and geometry, and every Plugin window whose Plugin is
    /// registered comes back, one for one and in saved order, with its instance id and geometry
    /// (one is skipped only after a Sidecar start for its Plugin failed or was refused). The
    /// launcher and palette stay as they were, unless their window is gone. A label or Sidecar
    /// id the platform hands out again for a restored window or Sidecar is then that one's.
    pub fn apply_workspace(&mut self, ws: Workspace)
        ensures
            final(self).window_groups == ws.groups,
            final(self).same_base(old(self)),
            final(self).restored_prefix(old(self).plugins@, ws.windows@, ws.windows@.len() as int),
            forall|i: int|
                0 <= i < old(self).blanks@.len() ==> final(self).closed_or_listed(
                    #[trigger] old(self).blanks@[i].id.0@,
                ),
            forall|i: int|
                0 <= i < old(self).plugin_windows@.len() ==> final(self).closed_or_listed(
                    #[trigger] old(self).plugin_windows@[i].id.0@,
                ),
            running_ones_kept(final(self).platform, old(self).sidecars@, final(self).sidecars@),
            sidecars_have_windows(final(self).sidecars@, final(self).plugin_windows@),
            log_extends(final(self).platform.spawn_log(), old(self).platform.spawn_log()),
            final(self).skips_refused(
                old(self).plugins@,
                ws.windows@,
                ws.windows@.len() as int,
                old(self).platform.spawn_log().len() as int,
            ),
            final(self).launcher is None || final(self).launcher == old(self).launcher,
            final(self).palette is None || final(self).palette == old(self).palette,
            old(self).slot_open_unlisted(old(self).launcher) ==> final(self).launcher == old(self).launcher && slot_open(final(self).platform, final(self).launcher),
            old(self).slot_open_unlisted(old(self).palette) ==> final(self).palette == old(self).palette && slot_open(final(self).platform, final(self).palette),
    {
        self.close_all_windows_for_restore();
        self.window_groups = ws.groups;
        proof {
            assert(ws.windows@.subrange(0, 0).filter(saved_blank()) =~= Seq::<WorkspaceWindow>::empty()) by {
                reveal(Seq::filter);
            }
            assert(self.plugin_origins(old(self).plugins@, ws.windows@, 0, Seq::<int>::empty()));
        }
        let mut i: usize = 0;
        while i < ws.windows.len()
            invariant
                i <= ws.windows@.len(),
                self.same_base(old(self)),
                self.window_groups == ws.groups,
                self.restored_prefix(old(self).plugins@, ws.windows@, i as int),
                forall|j: int|
                    0 <= j < old(self).blanks@.len() ==> self.closed_or_listed(
                        #[trigger] old(self).blanks@[j].id.0@,
                    ),
                forall|j: int|
                    0 <= j < old(self).plugin_windows@.len() ==> self.closed_or_listed(
                        #[trigger] old(self).plugin_windows@[j].id.0@,
                    ),
                running_ones_kept(self.platform, old(self).sidecars@, self.sidecars@),
                sidecars_have_windows(self.sidecars@, self.plugin_windows@),
                log_extends(self.platform.spawn_log(), old(self).platform.spawn_log()),
                self.skips_refused(old(self).plugins@, ws.windows@, i as int, old(self).platform.spawn_log().len() as int),
                self.launcher is None || self.launcher == old(self).launcher,
                self.palette is None || self.palette == old(self).palette,
                old(self).slot_open_unlisted(old(self).launcher) ==> self.launcher == old(self).launcher && slot_open(self.platform, self.launcher),
                old(self).slot_open_unlisted(old(self).palette) ==> self.palette == old(self).palette && slot_open(self.platform, self.palette),
            decreases ws.windows.len() - i,
        {
            let geometry = ws.windows[i].geometry;
            let ghost pre = *self;
            match &ws.windows[i].kind {
                WorkspaceWindowKind::Blank { blank_id } => {
                    self.restore_blank_window(
                        blank_id,
                        geometry,
                        Ghost(old(self).plugins@),
                        Ghost(ws.windows@),
                        Ghost(i as int),
                        Ghost(old(self).platform.spawn_log().len() as int),
                    );
                },
                WorkspaceWindowKind::Plugin { plugin_id, instance_id } => {
                    self.restore_plugin_window(
                        plugin_id,
                        instance_id,
                        geometry,
                        Ghost(ws.windows@),
                        Ghost(i as int),
                        Ghost(old(self).platform.spawn_log().len() as int),
                    );
                    proof {
                        assert forall|x: Seq<char>| #[trigger] self.platform.sidecar_running(x)
                            && names_sidecar(old(self).sidecars@, x) implies names_sidecar(self.sidecars@, x) by {
                            if pre.platform.sidecar_running(x) {
                                assert(names_sidecar(pre.sidecars@, x));
                            }
                        }
                    }
                },
            }
            i = i + 1;
        }
    }

    /// Closes the content windows, forgets the Window Groups and stops the Sidecars.
    fn close_all_windows_for_restore(&mut self)
        ensures
            final(self).blanks@.len() == 0,
            final(self).plugin_windows@.len() == 0,
            final(self).sidecars@.len() == 0,
            final(self).window_groups@.len() == 0,
            final(self).same_base(old(self)),
            forall|i: int|
                0 <= i < old(self).blanks@.len() ==> final(self).platform.window_destroyed(
                    #[trigger] old(self).blanks@[i].id.0@,
                ),
            forall|i: int|
                0 <= i < old(self).plugin_windows@.len() ==> final(self).platform.window_destroyed(
                    #[trigger] old(self).plugin_windows@[i].id.0@,
                ),
            forall|i: int|
                0 <= i < old(self).sidecars@.len() ==> !final(self).platform.sidecar_running(
                    #[trigger] old(self).sidecars@[i].sidecar.0@,
                ),
            final(self).platform.spawn_log() == old(self).platform.spawn_log(),
            final(self).launcher == old(self).launcher,
            final(self).palette == old(self).palette,
            forall|w: Seq<char>|
                #[trigger] final(self).platform.window_destroyed(w) != old(self).platform.window_destroyed(w)
                    ==> old(self).lists_label(w),
    {
        self.close_all_content_windows();
        self.window_groups = Vec::new();
        let ghost closed = *self;
        self.stop_all_sidecars();
        proof {
            assert forall|i: int| 0 <= i < old(self).sidecars@.len() implies !self.platform.sidecar_running(
                #[trigger] old(self).sidecars@[i].sidecar.0@,
            ) by {
                assert(closed.sidecars@[i] == old(self).sidecars@[i]);
            }
        }
    }

    /// Brings back the Workspace read from the configured path (`loaded`; `None` when the file
    /// is missing or unreadable, which leaves everything as it is).
    pub fn restore_workspace(&mut self, loaded: Option<Workspace>) -> (r: Result<(), String>)
        ensures
            old(self).workspace_path is None ==> (r matches Err(e) && e@
                == "workspace path is not configured"@) && *final(self) == *old(self),
            old(self).workspace_path is Some ==> r is Ok,
            old(self).workspace_path is Some && loaded is None ==> *final(self) == *old(self),
            old(self).workspace_path is Some && loaded is Some ==> {
                let ws = loaded->Some_0;
                &&& final(self).window_groups == ws.groups
                &&& final(self).same_base(old(self))
                &&& final(self).restored_prefix(old(self).plugins@, ws.windows@, ws.windows@.len() as int)
                &&& forall|i: int|
                    0 <= i < old(self).blanks@.len() ==> final(self).closed_or_listed(
                        #[trigger] old(self).blanks@[i].id.0@,
                    )
                &&& forall|i: int|
                    0 <= i < old(self).plugin_windows@.len() ==> final(self).closed_or_listed(
                        #[trigger] old(self).plugin_windows@[i].id.0@,
                    )
                &&& running_ones_kept(final(self).platform, old(self).sidecars@, final(self).sidecars@)
                &&& sidecars_have_windows(final(self).sidecars@, final(self).plugin_windows@)
                &&& log_extends(final(self).platform.spawn_log(), old(self).platform.spawn_log())
                &&& final(self).skips_refused(
                    old(self).plugins@,
                    ws.windows@,
                    ws.windows@.len() as int,
                    old(self).platform.spawn_log().len() as int,
                )
                &&& (final(self).launcher is None || final(self).launcher == old(self).launcher)
                &&& (final(self).palette is None || final(self).palette == old(self).palette)
                &&& (old(self).slot_open_unlisted(old(self).launcher) ==> final(self).launcher == old(self).launcher
                    && slot_open(final(self).platform, final(self).launcher))
                &&& (old(self).slot_open_unlisted(old(self).palette) ==> final(self).palette == old(self).palette
                    && slot_open(final(self).platform, final(self).palette))
            },
    {
        if self.workspace_path.is_none() {
            return Err(String::from_str("workspace path is not configured"));
        }
        match loaded {
            Some(ws) => {
                self.apply_workspace(ws);
            },
            None => {},
        }
        Ok(())
    }
}

} // verus!
