//! Host — tray, launcher, command palette, Plugins, Sidecar lifecycle, Bus router,
//! Window Groups and Workspace. Every OS effect goes through the `Platform`.
//! Plugin windows never receive the Bus itself — only a scoped `BusProxy`.

use vstd::prelude::*;

use crate::bus::{Bus, BusProxy};
use crate::ids::{is_v4_uuid_text, new_uuid};
use crate::install::{PendingInstall, PermissionItem};
use crate::manifest::Manifest;
use crate::platform::{HostCommand, Platform, SidecarId, TrayId, WindowId, WindowKind};
use crate::sidecar_bridge::SidecarBridge;
use crate::text::{is_blank_spec, str_less, text_less};
use crate::workspace::{
    clone_members, WindowGeometry, Workspace, WorkspaceGroup, WorkspaceGroupMember, WorkspaceWindow,
    WorkspaceWindowKind,
};

verus! {

/// A Plugin as the launcher lists it.
#[derive(Debug, PartialEq, Eq)]
pub struct ListedPlugin {
    pub id: String,
    pub name: String,
    pub version: String,
}

/// A Window Group as listed.
#[derive(Debug, PartialEq, Eq)]
pub struct ListedWindowGroup {
    pub id: String,
    pub name: String,
    pub member_count: usize,
}

/// A content window (blank or Plugin; not launcher or palette).
#[derive(Debug, PartialEq, Eq)]
pub struct ListedContentWindow {
    pub label: String,
    pub kind: String,
    pub plugin_id: Option<String>,
    pub instance_id: Option<String>,
}

/// An open blank window and its stable identity.
#[derive(Debug)]
pub struct BlankWindowEntry {
    pub id: WindowId,
    pub blank_id: String,
}

/// An open Plugin window and the Plugin instance it shows.
#[derive(Debug)]
pub struct PluginWindowEntry {
    pub id: WindowId,
    pub plugin_id: String,
    pub instance_id: String,
}

/// A running Sidecar, the Plugin it belongs to, and its Bus wiring.
pub struct SidecarEntry {
    pub plugin_id: String,
    pub sidecar: SidecarId,
    pub bridge: SidecarBridge,
}

/// The Host's state.
pub struct Host<P: Platform> {
    pub platform: P,
    pub bus: Bus,
    pub running: bool,
    pub tray: Option<TrayId>,
    pub launcher: Option<WindowId>,
    pub palette: Option<WindowId>,
    pub blanks: Vec<BlankWindowEntry>,
    pub plugin_windows: Vec<PluginWindowEntry>,
    pub window_groups: Vec<WorkspaceGroup>,
    pub sidecars: Vec<SidecarEntry>,
    pub plugins: Vec<Manifest>,
    pub plugins_dir: Option<String>,
    pub pending_install: Option<PendingInstall>,
    /// Plugin id → permissions confirmed at install.
    pub confirmed_grants: Vec<(String, Vec<PermissionItem>)>,
    /// Name of the directory (under the system temp directory) install staging uses.
    pub staging_root: String,
    pub workspace_path: Option<String>,
}

/// The blank windows of `s` that are still open, in order.
pub open spec fn live_blanks<P: Platform>(p: P, s: Seq<BlankWindowEntry>) -> Seq<BlankWindowEntry>
    decreases s.len(),
{
    if s.len() == 0 {
        Seq::empty()
    } else {
        (if p.window_destroyed(s[0].id.0@) {
            Seq::empty()
        } else {
            seq![s[0]]
        }) + live_blanks(p, s.drop_first())
    }
}

/// The Plugin windows of `s` that are still open, in order.
pub open spec fn live_plugin_windows<P: Platform>(p: P, s: Seq<PluginWindowEntry>) -> Seq<
    PluginWindowEntry,
>
    decreases s.len(),
{
    if s.len() == 0 {
        Seq::empty()
    } else {
        (if p.window_destroyed(s[0].id.0@) {
            Seq::empty()
        } else {
            seq![s[0]]
        }) + live_plugin_windows(p, s.drop_first())
    }
}

/// Some window of `windows` shows Plugin `plugin_id`.
pub open spec fn has_window_for(windows: Seq<PluginWindowEntry>, plugin_id: Seq<char>) -> bool {
    exists|i: int| 0 <= i < windows.len() && #[trigger] windows[i].plugin_id@ == plugin_id
}

/// The Sidecars of `s` whose Plugin still has a window, in order.
pub open spec fn sidecars_with_windows(s: Seq<SidecarEntry>, windows: Seq<PluginWindowEntry>) -> Seq<
    SidecarEntry,
>
    decreases s.len(),
{
    if s.len() == 0 {
        Seq::empty()
    } else {
        (if has_window_for(windows, s[0].plugin_id@) {
            seq![s[0]]
        } else {
            Seq::empty()
        }) + sidecars_with_windows(s.drop_first(), windows)
    }
}

/// Index of the Sidecar entry of `plugin_id` in `s`, or -1.
pub open spec fn sidecar_entry_pos(s: Seq<SidecarEntry>, plugin_id: Seq<char>) -> int
    decreases s.len(),
{
    if s.len() == 0 {
        -1
    } else if s[0].plugin_id@ == plugin_id {
        0
    } else {
        let p = sidecar_entry_pos(s.drop_first(), plugin_id);
        if p < 0 {
            -1
        } else {
            p + 1
        }
    }
}

/// `s` holds a Sidecar entry for `plugin_id`.
pub open spec fn has_sidecar(s: Seq<SidecarEntry>, plugin_id: Seq<char>) -> bool {
    sidecar_entry_pos(s, plugin_id) >= 0
}

/// No Plugin has two Sidecar entries in `s`.
pub open spec fn sidecars_distinct(s: Seq<SidecarEntry>) -> bool {
    forall|i: int, j: int|
        #![trigger s[i], s[j]]
        0 <= i < j < s.len() ==> s[i].plugin_id@ != s[j].plugin_id@
}

/// `sidecar_entry_pos` is the first index holding `plugin_id`, or -1.
pub proof fn lemma_sidecar_entry_pos(s: Seq<SidecarEntry>, plugin_id: Seq<char>)
    ensures
        -1 <= sidecar_entry_pos(s, plugin_id) < s.len(),
        sidecar_entry_pos(s, plugin_id) >= 0 ==> s[sidecar_entry_pos(s, plugin_id)].plugin_id@
            == plugin_id,
        forall|j: int|
            0 <= j < s.len() && (sidecar_entry_pos(s, plugin_id) < 0 || j < sidecar_entry_pos(
                s,
                plugin_id,
            )) ==> #[trigger] s[j].plugin_id@ != plugin_id,
    decreases s.len(),
{
    if s.len() > 0 && s[0].plugin_id@ != plugin_id {
        let t = s.drop_first();
        lemma_sidecar_entry_pos(t, plugin_id);
        assert forall|j: int|
            0 <= j < s.len() && (sidecar_entry_pos(s, plugin_id) < 0 || j < sidecar_entry_pos(
                s,
                plugin_id,
            )) implies #[trigger] s[j].plugin_id@ != plugin_id by {
            if j > 0 {
                assert(s[j] == t[j - 1]);
            }
        }
    }
}

/// The index `i` that satisfies the description of `sidecar_entry_pos` is it.
pub proof fn lemma_sidecar_entry_pos_is(s: Seq<SidecarEntry>, plugin_id: Seq<char>, i: int)
    requires
        -1 <= i < s.len(),
        i >= 0 ==> s[i].plugin_id@ == plugin_id,
        forall|j: int| 0 <= j < s.len() && (i < 0 || j < i) ==> #[trigger] s[j].plugin_id@ != plugin_id,
    ensures
        sidecar_entry_pos(s, plugin_id) == i,
{
    lemma_sidecar_entry_pos(s, plugin_id);
    let p = sidecar_entry_pos(s, plugin_id);
    if p >= 0 && i >= 0 && p != i {
        if p < i {
            assert(s[p].plugin_id@ != plugin_id);
        } else {
            assert(s[i].plugin_id@ != plugin_id);
        }
    }
    if p < 0 && i >= 0 {
        assert(s[i].plugin_id@ != plugin_id);
    }
    if p >= 0 && i < 0 {
        assert(s[p].plugin_id@ != plugin_id);
    }
}

/// Every Sidecar of `s` belongs to a Plugin with a window in `windows`.
pub open spec fn sidecars_have_windows(s: Seq<SidecarEntry>, windows: Seq<PluginWindowEntry>) -> bool {
    forall|k: int| 0 <= k < s.len() ==> has_window_for(windows, #[trigger] s[k].plugin_id@)
}

/// Keeping the Sidecars whose Plugin has a window keeps only entries of `s`, in order, and so
/// keeps them distinct.
pub proof fn lemma_sidecars_with_windows(s: Seq<SidecarEntry>, w: Seq<PluginWindowEntry>)
    ensures
        forall|k: int|
            0 <= k < sidecars_with_windows(s, w).len() ==> exists|j: int|
                0 <= j < s.len() && #[trigger] sidecars_with_windows(s, w)[k] == s[j],
        sidecars_distinct(s) ==> sidecars_distinct(sidecars_with_windows(s, w)),
        sidecars_have_windows(sidecars_with_windows(s, w), w),
    decreases s.len(),
{
    if s.len() > 0 {
        let t = s.drop_first();
        lemma_sidecars_with_windows(t, w);
        let rest = sidecars_with_windows(t, w);
        let head: Seq<SidecarEntry> = if has_window_for(w, s[0].plugin_id@) {
            seq![s[0]]
        } else {
            Seq::empty()
        };
        let all = sidecars_with_windows(s, w);
        assert(all == head + rest);
        assert forall|k: int| 0 <= k < all.len() implies has_window_for(w, #[trigger] all[k].plugin_id@) by {
            if k < head.len() {
                assert(all[k] == s[0]);
            } else {
                assert(all[k] == rest[k - head.len()]);
            }
        }
        assert forall|k: int| 0 <= k < all.len() implies exists|j: int|
            0 <= j < s.len() && #[trigger] all[k] == s[j] by {
            if k < head.len() {
                assert(all[k] == s[0]);
            } else {
                assert(all[k] == rest[k - head.len()]);
                let j = choose|j: int| 0 <= j < t.len() && #[trigger] rest[k - head.len()] == t[j];
                assert(all[k] == s[j + 1]);
            }
        }
        if sidecars_distinct(s) {
            assert(sidecars_distinct(t)) by {
                assert forall|a: int, b: int| 0 <= a < b < t.len() implies #[trigger] t[a].plugin_id@
                    != #[trigger] t[b].plugin_id@ by {
                    assert(t[a] == s[a + 1]);
                    assert(t[b] == s[b + 1]);
                }
            }
            assert forall|a: int, b: int| 0 <= a < b < all.len() implies #[trigger] all[a].plugin_id@
                != #[trigger] all[b].plugin_id@ by {
                if a < head.len() {
                    assert(all[a] == s[0]);
                    assert(all[b] == rest[b - head.len()]);
                    let j = choose|j: int| 0 <= j < t.len() && #[trigger] rest[b - head.len()] == t[j];
                    assert(t[j] == s[j + 1]);
                } else {
                    assert(all[a] == rest[a - head.len()]);
                    assert(all[b] == rest[b - head.len()]);
                }
            }
        }
    }
}

/// `p` has kept `q`'s windows: same open/closed state and geometry for every label.
pub open spec fn same_windows<P: Platform>(p: P, q: P) -> bool {
    &&& forall|w: Seq<char>| #[trigger] p.window_destroyed(w) == q.window_destroyed(w)
    &&& forall|w: Seq<char>| #[trigger] p.geometry_of(w) == q.geometry_of(w)
}

/// `p` triggers the same commands as `q`: the tray's Quit item and every shortcut.
pub open spec fn same_commands<P: Platform>(p: P, q: P) -> bool {
    &&& p.tray_command() == q.tray_command()
    &&& forall|a: Seq<char>| #[trigger] p.shortcut_command(a) == q.shortcut_command(a)
}

/// Every Sidecar running on `p` was running on `q`: none was started.
pub open spec fn no_sidecar_started<P: Platform>(p: P, q: P) -> bool {
    forall|x: Seq<char>| #[trigger] p.sidecar_running(x) ==> q.sidecar_running(x)
}

/// Some entry of `s` holds the Sidecar `x`.
pub open spec fn names_sidecar(s: Seq<SidecarEntry>, x: Seq<char>) -> bool {
    exists|j: int| 0 <= j < s.len() && #[trigger] s[j].sidecar.0@ == x
}

/// Every Sidecar of `s` still running on `p` is held by an entry of `kept`.
pub open spec fn running_ones_kept<P: Platform>(p: P, s: Seq<SidecarEntry>, kept: Seq<SidecarEntry>) -> bool {
    forall|x: Seq<char>| #[trigger] p.sidecar_running(x) && names_sidecar(s, x) ==> names_sidecar(kept, x)
}

/// A single window slot after closed windows are dropped.
pub open spec fn live_slot<P: Platform>(p: P, slot: Option<WindowId>) -> Option<WindowId> {
    match slot {
        Some(id) => if p.window_destroyed(id.0@) {
            None
        } else {
            Some(id)
        },
        None => None,
    }
}

/// The saved form of the blank windows of `s` that have a geometry, in order.
pub open spec fn blank_snapshot<P: Platform>(p: P, s: Seq<BlankWindowEntry>) -> Seq<WorkspaceWindow>
    decreases s.len(),
{
    if s.len() == 0 {
        Seq::empty()
    } else {
        blank_snapshot(p, s.drop_last()) + match p.geometry_of(s.last().id.0@) {
            Some(g) => seq![
                WorkspaceWindow {
                    kind: WorkspaceWindowKind::Blank { blank_id: s.last().blank_id },
                    geometry: g,
                },
            ],
            None => Seq::empty(),
        }
    }
}

/// A blank window with a geometry on `p`.
pub open spec fn blank_has_geometry<P: Platform>(p: P) -> spec_fn(BlankWindowEntry) -> bool {
    |e: BlankWindowEntry| p.geometry_of(e.id.0@) is Some
}

/// The saved form of blank window `e` on `p`: its identity and its geometry.
pub open spec fn saved_blank_of<P: Platform>(p: P) -> spec_fn(BlankWindowEntry) -> WorkspaceWindow {
    |e: BlankWindowEntry|
        WorkspaceWindow {
            kind: WorkspaceWindowKind::Blank { blank_id: e.blank_id },
            geometry: p.geometry_of(e.id.0@)->Some_0,
        }
}

/// Saving blank windows keeps each one's identity (its `blank_id`, not its window label) and
/// geometry: the saved form is exactly the blank windows that have a geometry, in order, each
/// as (`blank_id`, geometry).
pub proof fn law_saved_blanks_keep_their_identity<P: Platform>(p: P, b: Seq<BlankWindowEntry>)
    ensures
        blank_snapshot(p, b) == b.filter(blank_has_geometry(p)).map_values(saved_blank_of(p)),
    decreases b.len(),
{
    if b.len() == 0 {
        assert(b.filter(blank_has_geometry(p)) =~= Seq::<BlankWindowEntry>::empty()) by {
            reveal(Seq::filter);
        }
        assert(b.filter(blank_has_geometry(p)).map_values(saved_blank_of(p)) =~= Seq::<WorkspaceWindow>::empty());
    } else {
        let head = b.drop_last();
        let x = b.last();
        law_saved_blanks_keep_their_identity(p, head);
        assert(b =~= head.push(x));
        head.lemma_filter_push(x, blank_has_geometry(p));
        let fh = head.filter(blank_has_geometry(p));
        if p.geometry_of(x.id.0@) is Some {
            assert(fh.push(x).map_values(saved_blank_of(p)) =~= fh.map_values(saved_blank_of(p)).push(
                saved_blank_of(p)(x),
            ));
            assert(blank_snapshot(p, b) =~= blank_snapshot(p, head).push(saved_blank_of(p)(x)));
        } else {
            assert(blank_snapshot(p, b) =~= blank_snapshot(p, head));
        }
    }
}

/// The saved form of the Plugin windows of `s` that have a geometry, in order.
pub open spec fn plugin_snapshot<P: Platform>(p: P, s: Seq<PluginWindowEntry>) -> Seq<WorkspaceWindow>
    decreases s.len(),
{
    if s.len() == 0 {
        Seq::empty()
    } else {
        plugin_snapshot(p, s.drop_last()) + match p.geometry_of(s.last().id.0@) {
            Some(g) => seq![
                WorkspaceWindow {
                    kind: WorkspaceWindowKind::Plugin {
                        plugin_id: s.last().plugin_id,
                        instance_id: s.last().instance_id,
                    },
                    geometry: g,
                },
            ],
            None => Seq::empty(),
        }
    }
}

/// Window Groups as (id, name, members).
pub open spec fn groups_view(s: Seq<WorkspaceGroup>) -> Seq<(Seq<char>, Seq<char>, Seq<WorkspaceGroupMember>)> {
    s.map_values(|g: WorkspaceGroup| (g.id@, g.name@, g.members@))
}

/// A copy of a Window Group.
pub fn clone_group(g: &WorkspaceGroup) -> (r: WorkspaceGroup)
    ensures
        r.id == g.id,
        r.name == g.name,
        r.members@ == g.members@,
{
    WorkspaceGroup { id: g.id.clone(), name: g.name.clone(), members: clone_members(&g.members) }
}

/// A copy of a Window Group list.
pub fn clone_groups(v: &Vec<WorkspaceGroup>) -> (r: Vec<WorkspaceGroup>)
    ensures
        groups_view(r@) == groups_view(v@),
{
    let mut out: Vec<WorkspaceGroup> = Vec::new();
    let mut i: usize = 0;
    while i < v.len()
        invariant
            i <= v@.len(),
            out@.len() == i,
            forall|j: int| 0 <= j < i ==> (#[trigger] out@[j]).id == v@[j].id && out@[j].name
                == v@[j].name && out@[j].members@ == v@[j].members@,
        decreases v.len() - i,
    {
        out.push(clone_group(&v[i]));
        i = i + 1;
    }
    assert(groups_view(out@) =~= groups_view(v@));
    out
}

/// Snapshots depend only on the windows' state.
pub proof fn lemma_snapshot_same_windows<P: Platform>(
    p: P,
    q: P,
    b: Seq<BlankWindowEntry>,
    w: Seq<PluginWindowEntry>,
)
    requires
        same_windows(p, q),
    ensures
        blank_snapshot(p, b) == blank_snapshot(q, b),
        plugin_snapshot(p, w) == plugin_snapshot(q, w),
        live_blanks(p, b) == live_blanks(q, b),
        live_plugin_windows(p, w) == live_plugin_windows(q, w),
    decreases b.len() + w.len(),
{
    if b.len() > 0 {
        lemma_snapshot_same_windows(p, q, b.drop_last(), w);
        lemma_snapshot_same_windows(p, q, b.drop_first(), w);
        assert(p.geometry_of(b.last().id.0@) == q.geometry_of(b.last().id.0@));
        assert(p.window_destroyed(b[0].id.0@) == q.window_destroyed(b[0].id.0@));
    }
    if w.len() > 0 {
        lemma_snapshot_same_windows(p, q, b, w.drop_last());
        lemma_snapshot_same_windows(p, q, b, w.drop_first());
        assert(p.geometry_of(w.last().id.0@) == q.geometry_of(w.last().id.0@));
        assert(p.window_destroyed(w[0].id.0@) == q.window_destroyed(w[0].id.0@));
    }
}

/// Dropping closed windows twice is dropping them once.
pub proof fn lemma_live_idempotent<P: Platform>(p: P, b: Seq<BlankWindowEntry>, w: Seq<PluginWindowEntry>)
    ensures
        live_blanks(p, live_blanks(p, b)) == live_blanks(p, b),
        live_plugin_windows(p, live_plugin_windows(p, w)) == live_plugin_windows(p, w),
    decreases b.len() + w.len(),
{
    if b.len() > 0 {
        lemma_live_idempotent(p, b.drop_first(), w);
        let r = live_blanks(p, b.drop_first());
        if !p.window_destroyed(b[0].id.0@) {
            let l = live_blanks(p, b);
            assert(l == seq![b[0]] + r);
            assert(l.drop_first() =~= r);
            assert(l[0] == b[0]);
        } else {
            assert(live_blanks(p, b) =~= r);
        }
    }
    if w.len() > 0 {
        lemma_live_idempotent(p, b, w.drop_first());
        let r = live_plugin_windows(p, w.drop_first());
        if !p.window_destroyed(w[0].id.0@) {
            let l = live_plugin_windows(p, w);
            assert(l == seq![w[0]] + r);
            assert(l.drop_first() =~= r);
            assert(l[0] == w[0]);
        } else {
            assert(live_plugin_windows(p, w) =~= r);
        }
    }
}

/// Every window left once closed ones are dropped is open.
pub proof fn lemma_live_open<P: Platform>(p: P, b: Seq<BlankWindowEntry>, w: Seq<PluginWindowEntry>)
    ensures
        forall|i: int|
            0 <= i < live_blanks(p, b).len() ==> !p.window_destroyed(#[trigger] live_blanks(p, b)[i].id.0@),
        forall|i: int|
            0 <= i < live_plugin_windows(p, w).len() ==> !p.window_destroyed(
                #[trigger] live_plugin_windows(p, w)[i].id.0@,
            ),
    decreases b.len() + w.len(),
{
    if b.len() > 0 {
        lemma_live_open(p, b.drop_first(), w);
        let r = live_blanks(p, b.drop_first());
        let l = live_blanks(p, b);
        if !p.window_destroyed(b[0].id.0@) {
            assert(l == seq![b[0]] + r);
            assert forall|i: int| 0 <= i < l.len() implies !p.window_destroyed(#[trigger] l[i].id.0@) by {
                if i > 0 {
                    assert(l[i] == r[i - 1]);
                }
            }
        } else {
            assert(l =~= r);
        }
    }
    if w.len() > 0 {
        lemma_live_open(p, b, w.drop_first());
        let r = live_plugin_windows(p, w.drop_first());
        let l = live_plugin_windows(p, w);
        if !p.window_destroyed(w[0].id.0@) {
            assert(l == seq![w[0]] + r);
            assert forall|i: int| 0 <= i < l.len() implies !p.window_destroyed(#[trigger] l[i].id.0@) by {
                if i > 0 {
                    assert(l[i] == r[i - 1]);
                }
            }
        } else {
            assert(l =~= r);
        }
    }
}

/// Dropping closed windows keeps exactly the open ones.
pub proof fn lemma_live_members<P: Platform>(p: P, b: Seq<BlankWindowEntry>, w: Seq<PluginWindowEntry>)
    ensures
        forall|e: BlankWindowEntry|
            #[trigger] live_blanks(p, b).contains(e) <==> b.contains(e) && !p.window_destroyed(e.id.0@),
        forall|e: PluginWindowEntry|
            #[trigger] live_plugin_windows(p, w).contains(e) <==> w.contains(e) && !p.window_destroyed(e.id.0@),
    decreases b.len() + w.len(),
{
    if b.len() > 0 {
        lemma_live_members(p, b.drop_first(), w);
        let r = live_blanks(p, b.drop_first());
        let l = live_blanks(p, b);
        let head: Seq<BlankWindowEntry> = if p.window_destroyed(b[0].id.0@) { Seq::empty() } else { seq![b[0]] };
        assert(l == head + r);
        assert forall|e: BlankWindowEntry| #[trigger] l.contains(e) <==> b.contains(e) && !p.window_destroyed(e.id.0@) by {
            if l.contains(e) {
                let i = choose|i: int| 0 <= i < l.len() && l[i] == e;
                if i < head.len() {
                    assert(b[0] == e);
                } else {
                    assert(r[i - head.len()] == e);
                    assert(r.contains(e));
                    let j = choose|j: int| 0 <= j < b.drop_first().len() && b.drop_first()[j] == e;
                    assert(b[j + 1] == e);
                }
            }
            if b.contains(e) && !p.window_destroyed(e.id.0@) {
                let j = choose|j: int| 0 <= j < b.len() && b[j] == e;
                if j == 0 {
                    assert(l[0] == e);
                } else {
                    assert(b.drop_first()[j - 1] == e);
                    assert(b.drop_first().contains(e));
                    assert(r.contains(e));
                    let i = choose|i: int| 0 <= i < r.len() && r[i] == e;
                    assert(l[head.len() + i] == e);
                }
            }
        }
    }
    if w.len() > 0 {
        lemma_live_members(p, b, w.drop_first());
        let r = live_plugin_windows(p, w.drop_first());
        let l = live_plugin_windows(p, w);
        let head: Seq<PluginWindowEntry> = if p.window_destroyed(w[0].id.0@) { Seq::empty() } else { seq![w[0]] };
        assert(l == head + r);
        assert forall|e: PluginWindowEntry| #[trigger] l.contains(e) <==> w.contains(e) && !p.window_destroyed(e.id.0@) by {
            if l.contains(e) {
                let i = choose|i: int| 0 <= i < l.len() && l[i] == e;
                if i < head.len() {
                    assert(w[0] == e);
                } else {
                    assert(r[i - head.len()] == e);
                    assert(r.contains(e));
                    let j = choose|j: int| 0 <= j < w.drop_first().len() && w.drop_first()[j] == e;
                    assert(w[j + 1] == e);
                }
            }
            if w.contains(e) && !p.window_destroyed(e.id.0@) {
                let j = choose|j: int| 0 <= j < w.len() && w[j] == e;
                if j == 0 {
                    assert(l[0] == e);
                } else {
                    assert(w.drop_first()[j - 1] == e);
                    assert(w.drop_first().contains(e));
                    assert(r.contains(e));
                    let i = choose|i: int| 0 <= i < r.len() && r[i] == e;
                    assert(l[head.len() + i] == e);
                }
            }
        }
    }
}

/// When every window of `b` and `w` is open, dropping closed windows keeps them all.
pub proof fn lemma_live_all<P: Platform>(p: P, b: Seq<BlankWindowEntry>, w: Seq<PluginWindowEntry>)
    ensures
        (forall|i: int| 0 <= i < b.len() ==> !p.window_destroyed(#[trigger] b[i].id.0@)) ==> live_blanks(
            p,
            b,
        ) == b,
        (forall|i: int| 0 <= i < w.len() ==> !p.window_destroyed(#[trigger] w[i].id.0@))
            ==> live_plugin_windows(p, w) == w,
    decreases b.len() + w.len(),
{
    if b.len() > 0 {
        lemma_live_all(p, b.drop_first(), w);
        if forall|i: int| 0 <= i < b.len() ==> !p.window_destroyed(#[trigger] b[i].id.0@) {
            assert forall|i: int| 0 <= i < b.drop_first().len() implies !p.window_destroyed(
                #[trigger] b.drop_first()[i].id.0@,
            ) by {
                assert(b.drop_first()[i] == b[i + 1]);
            }
            assert(!p.window_destroyed(b[0].id.0@));
            assert(live_blanks(p, b) =~= b);
        }
    }
    if w.len() > 0 {
        lemma_live_all(p, b, w.drop_first());
        if forall|i: int| 0 <= i < w.len() ==> !p.window_destroyed(#[trigger] w[i].id.0@) {
            assert forall|i: int| 0 <= i < w.drop_first().len() implies !p.window_destroyed(
                #[trigger] w.drop_first()[i].id.0@,
            ) by {
                assert(w.drop_first()[i] == w[i + 1]);
            }
            assert(!p.window_destroyed(w[0].id.0@));
            assert(live_plugin_windows(p, w) =~= w);
        }
    }
}

/// Index of the first Plugin with id `id`, or -1.
pub open spec fn plugin_pos(s: Seq<Manifest>, id: Seq<char>) -> int
    decreases s.len(),
{
    if s.len() == 0 {
        -1
    } else if s[0].id@ == id {
        0
    } else {
        let p = plugin_pos(s.drop_first(), id);
        if p < 0 {
            -1
        } else {
            p + 1
        }
    }
}

/// `plugin_pos` is the first index holding `id`, or -1.
pub proof fn lemma_plugin_pos(s: Seq<Manifest>, id: Seq<char>)
    ensures
        -1 <= plugin_pos(s, id) < s.len(),
        plugin_pos(s, id) >= 0 ==> s[plugin_pos(s, id)].id@ == id,
        forall|j: int|
            0 <= j < s.len() && (plugin_pos(s, id) < 0 || j < plugin_pos(s, id)) ==> #[trigger] s[j].id@
                != id,
    decreases s.len(),
{
    if s.len() > 0 && s[0].id@ != id {
        let t = s.drop_first();
        lemma_plugin_pos(t, id);
        assert forall|j: int|
            0 <= j < s.len() && (plugin_pos(s, id) < 0 || j < plugin_pos(s, id)) implies #[trigger] s[j].id@
            != id by {
            if j > 0 {
                assert(s[j] == t[j - 1]);
            }
        }
    }
}

proof fn lemma_plugin_pos_is(s: Seq<Manifest>, id: Seq<char>, i: int)
    requires
        -1 <= i < s.len(),
        i >= 0 ==> s[i].id@ == id,
        forall|j: int| 0 <= j < s.len() && (i < 0 || j < i) ==> #[trigger] s[j].id@ != id,
    ensures
        plugin_pos(s, id) == i,
{
    lemma_plugin_pos(s, id);
    let p = plugin_pos(s, id);
    if p >= 0 && i >= 0 && p != i {
        if p < i {
            assert(s[p].id@ != id);
        } else {
            assert(s[i].id@ != id);
        }
    }
    if p < 0 && i >= 0 {
        assert(s[i].id@ != id);
    }
    if p >= 0 && i < 0 {
        assert(s[p].id@ != id);
    }
}

/// The Plugin registry: id → Manifest (the first entry with that id).
pub open spec fn registry(s: Seq<Manifest>) -> Map<Seq<char>, Manifest> {
    Map::new(|k: Seq<char>| plugin_pos(s, k) >= 0, |k: Seq<char>| s[plugin_pos(s, k)])
}

/// The registry a directory scan builds: each Manifest found is entered by id, a later one
/// replacing an earlier one with the same id.
pub open spec fn scan_registry(s: Seq<Manifest>) -> Map<Seq<char>, Manifest>
    decreases s.len(),
{
    if s.len() == 0 {
        Map::empty()
    } else {
        scan_registry(s.drop_last()).insert(s.last().id@, s.last())
    }
}

/// No two entries of the registry have the same id.
pub open spec fn plugin_ids_distinct(s: Seq<Manifest>) -> bool {
    forall|a: int, b: int| 0 <= a < b < s.len() ==> #[trigger] s[a].id@ != #[trigger] s[b].id@
}

/// Enters `m` in the registry under its id (replacing the entry with that id).
pub fn insert_plugin(plugins: &mut Vec<Manifest>, m: Manifest)
    ensures
        registry(final(plugins)@) == registry(old(plugins)@).insert(m.id@, m),
        plugin_ids_distinct(old(plugins)@) ==> plugin_ids_distinct(final(plugins)@),
{
    let ghost before = plugins@;
    let ghost mid = m.id@;
    let ghost gm = m;
    let found = find_plugin_in(plugins, &m.id);
    match found {
        Some(i) => {
            plugins.set(i, m);
            proof {
                let after = plugins@;
                assert(after[i as int] == gm);
                lemma_plugin_pos(before, mid);
                assert forall|k: Seq<char>| plugin_pos(after, k) == plugin_pos(before, k) by {
                    lemma_plugin_pos(before, k);
                    let q = plugin_pos(before, k);
                    assert forall|j: int| 0 <= j < after.len() && (q < 0 || j < q) implies #[trigger] after[j].id@
                        != k by {
                        if j != i {
                            assert(after[j] == before[j]);
                        }
                    }
                    if q >= 0 && q != i {
                        assert(after[q] == before[q]);
                    }
                    lemma_plugin_pos_is(after, k, q);
                }
                lemma_plugin_pos(before, mid);
                assert forall|k: Seq<char>| #[trigger] registry(after).contains_key(k) implies registry(after)[k]
                    == registry(before).insert(mid, gm)[k] by {
                    lemma_plugin_pos(before, k);
                    let q = plugin_pos(before, k);
                    if k != mid {
                        assert(q != i);
                        assert(after[q] == before[q]);
                    }
                }
                assert(registry(after) =~= registry(before).insert(mid, gm));
                if plugin_ids_distinct(before) {
                    assert forall|a: int, b: int| 0 <= a < b < after.len() implies #[trigger] after[a].id@
                        != #[trigger] after[b].id@ by {
                        assert(after[a].id@ == before[a].id@);
                        assert(after[b].id@ == before[b].id@);
                    }
                }
            }
        },
        None => {
            plugins.push(m);
            proof {
                let after = plugins@;
                assert forall|k: Seq<char>|
                    plugin_pos(after, k) == if plugin_pos(before, k) >= 0 {
                        plugin_pos(before, k)
                    } else if k == mid {
                        before.len() as int
                    } else {
                        -1
                    } by {
                    lemma_plugin_pos(before, k);
                    let q = plugin_pos(before, k);
                    let target = if q >= 0 {
                        q
                    } else if k == mid {
                        before.len() as int
                    } else {
                        -1
                    };
                    assert forall|j: int| 0 <= j < after.len() && (target < 0 || j < target) implies #[trigger] after[j].id@
                        != k by {
                        if j < before.len() {
                            assert(after[j] == before[j]);
                        }
                    }
                    if q >= 0 {
                        assert(after[q] == before[q]);
                    }
                    lemma_plugin_pos_is(after, k, target);
                }
                assert forall|k: Seq<char>| plugin_pos(before, k) >= 0 implies after[plugin_pos(after, k)]
                    == before[plugin_pos(before, k)] by {
                    lemma_plugin_pos(before, k);
                }
                assert(after.last() == gm);
                assert(registry(after) =~= registry(before).insert(mid, gm));
                if plugin_ids_distinct(before) {
                    lemma_plugin_pos(before, mid);
                    assert forall|a: int, b: int| 0 <= a < b < after.len() implies #[trigger] after[a].id@
                        != #[trigger] after[b].id@ by {
                        assert(after[a] == before[a]);
                        if b < before.len() {
                            assert(after[b] == before[b]);
                        }
                    }
                }
            }
        },
    }
}

/// Index of the first Plugin in `plugins` with id `id`.
fn find_plugin_in(plugins: &Vec<Manifest>, id: &String) -> (r: Option<usize>)
    ensures
        match r {
            Some(i) => i < plugins@.len() && i as int == plugin_pos(plugins@, id@),
            None => plugin_pos(plugins@, id@) == -1,
        },
{
    let mut i: usize = 0;
    while i < plugins.len()
        invariant
            i <= plugins@.len(),
            forall|j: int| 0 <= j < i ==> #[trigger] plugins@[j].id@ != id@,
        decreases plugins.len() - i,
    {
        if plugins[i].id == *id {
            proof {
                lemma_plugin_pos_is(plugins@, id@, i as int);
            }
            return Some(i);
        }
        i = i + 1;
    }
    proof {
        lemma_plugin_pos_is(plugins@, id@, -1);
    }
    None
}

/// The registry built from the Manifests a directory scan found, in scan order.
pub fn plugins_from_scan(discovered: Vec<Manifest>) -> (r: Vec<Manifest>)
    ensures
        registry(r@) == scan_registry(discovered@),
        plugin_ids_distinct(r@),
{
    let ghost all = discovered@;
    let mut rest = discovered;
    let mut out: Vec<Manifest> = Vec::new();
    let ghost mut i: int = 0;
    assert(registry(out@) =~= Map::<Seq<char>, Manifest>::empty());
    while rest.len() > 0
        invariant
            0 <= i <= all.len(),
            rest@ == all.subrange(i, all.len() as int),
            registry(out@) == scan_registry(all.subrange(0, i)),
            plugin_ids_distinct(out@),
        decreases rest.len(),
    {
        let m = rest.remove(0);
        proof {
            assert(m == all[i]);
            let next = all.subrange(0, i + 1);
            assert(next.drop_last() =~= all.subrange(0, i));
        }
        insert_plugin(&mut out, m);
        proof {
            i = i + 1;
        }
        assert(rest@ =~= all.subrange(i, all.len() as int));
    }
    assert(all.subrange(0, i) =~= all);
    out
}

/// A Plugin as listed: (id, name, version).
pub open spec fn listed_of(m: Manifest) -> (Seq<char>, Seq<char>, Seq<char>) {
    (m.id@, m.name@, m.version@)
}

/// The listed form of each entry.
pub open spec fn listed_view(s: Seq<ListedPlugin>) -> Seq<(Seq<char>, Seq<char>, Seq<char>)> {
    s.map_values(|l: ListedPlugin| (l.id@, l.name@, l.version@))
}

/// Ids never decrease along `s`.
pub open spec fn sorted_by_id(s: Seq<ListedPlugin>) -> bool {
    forall|a: int, b: int| 0 <= a < b < s.len() ==> !text_less(#[trigger] s[b].id@, #[trigger] s[a].id@)
}

/// A launcher or palette slot as listed.
pub open spec fn slot_listing(slot: Option<WindowId>, kind: WindowKind) -> Seq<(String, WindowKind)> {
    match slot {
        Some(id) => seq![(id.0, kind)],
        None => Seq::empty(),
    }
}

/// Blank windows as listed.
pub open spec fn blank_listing(s: Seq<BlankWindowEntry>) -> Seq<(String, WindowKind)> {
    s.map_values(|e: BlankWindowEntry| (e.id.0, WindowKind::Blank))
}

/// Plugin windows as listed.
pub open spec fn plugin_listing(s: Seq<PluginWindowEntry>) -> Seq<(String, WindowKind)> {
    s.map_values(|e: PluginWindowEntry| (e.id.0, WindowKind::PureUi { plugin_id: e.plugin_id }))
}

/// A content window as listed: (label, kind, Plugin, instance or blank identity).
pub open spec fn content_view(c: ListedContentWindow) -> (Seq<char>, Seq<char>, Option<String>, Option<String>) {
    (c.label@, c.kind@, c.plugin_id, c.instance_id)
}

/// The content windows: blanks first, then Plugin windows, in opening order.
pub open spec fn content_listing(b: Seq<BlankWindowEntry>, w: Seq<PluginWindowEntry>) -> Seq<
    (Seq<char>, Seq<char>, Option<String>, Option<String>),
> {
    b.map_values(
        |e: BlankWindowEntry| (e.id.0@, "blank"@, None::<String>, Some(e.blank_id)),
    ) + w.map_values(
        |e: PluginWindowEntry| (e.id.0@, "plugin"@, Some(e.plugin_id), Some(e.instance_id)),
    )
}

/// A window slot the Host just opened reads as open: after `open_launcher` (or
/// `open_command_palette`) the slot holds a window that is not destroyed, so the matching
/// `is_*_open` answers `true`; after `close_*` the slot is empty, so it answers `false`.
pub proof fn law_opened_slot_reads_open<P: Platform>(p: P, slot: Option<WindowId>)
    ensures
        (slot matches Some(id) && !p.window_destroyed(id.0@)) ==> live_slot(p, slot) is Some,
        slot is None ==> live_slot(p, slot) is None,
{
}

/// What `stop` saves: the open windows' layout and the Window Groups, for `path`.
pub struct WorkspaceSave {
    pub path: String,
    pub workspace: Workspace,
}

impl<P: Platform> Host<P> {
    /// Everything but the window registry and Sidecars is the same in `self` and `other`.
    pub open spec fn same_settings(&self, other: &Self) -> bool {
        &&& self.bus == other.bus
        &&& self.same_config(other)
    }

    /// Everything but the window registry, Sidecars and the Bus is the same in `self` and
    /// `other`.
    pub open spec fn same_config(&self, other: &Self) -> bool {
        &&& self.window_groups == other.window_groups
        &&& self.same_base(other)
    }

    /// Some content window the Host lists (blank or Plugin) is labelled `w`.
    pub open spec fn lists_label(&self, w: Seq<char>) -> bool {
        ||| exists|j: int| 0 <= j < self.blanks@.len() && #[trigger] self.blanks@[j].id.0@ == w
        ||| exists|j: int| 0 <= j < self.plugin_windows@.len() && #[trigger] self.plugin_windows@[j].id.0@ == w
    }

    /// Lifecycle, Plugin registry, install state and paths are the same in `self` and `other`.
    pub open spec fn same_base(&self, other: &Self) -> bool {
        &&& self.running == other.running
        &&& self.tray == other.tray
        &&& self.plugins == other.plugins
        &&& self.plugins_dir == other.plugins_dir
        &&& self.pending_install == other.pending_install
        &&& self.confirmed_grants == other.confirmed_grants
        &&& self.staging_root == other.staging_root
        &&& self.workspace_path == other.workspace_path
    }

    /// A Host that has not started, with nothing loaded.
    pub fn new(platform: P) -> (h: Self)
        ensures
            h.platform == platform,
            !h.running,
            h.tray is None,
            h.launcher is None,
            h.palette is None,
            h.blanks@.len() == 0,
            h.plugin_windows@.len() == 0,
            h.window_groups@.len() == 0,
            h.sidecars@.len() == 0,
            h.plugins@.len() == 0,
            h.plugins_dir is None,
            h.pending_install is None,
            h.confirmed_grants@.len() == 0,
            h.workspace_path is None,
            h.staging_root@.len() == 63,
            h.staging_root@.subrange(0, 27) == "spacecraft-install-staging-"@,
            is_v4_uuid_text(h.staging_root@.subrange(27, 63)),
    {
        let id = new_uuid();
        let staging_root = String::from_str("spacecraft-install-staging-").concat(id.as_str());
        proof {
            reveal_strlit("spacecraft-install-staging-");
            assert(staging_root@.subrange(0, 27) =~= "spacecraft-install-staging-"@);
            assert(staging_root@.subrange(27, 63) =~= id@);
        }
        Host {
            platform,
            bus: Bus::new(),
            running: false,
            tray: None,
            launcher: None,
            palette: None,
            blanks: Vec::new(),
            plugin_windows: Vec::new(),
            window_groups: Vec::new(),
            sidecars: Vec::new(),
            plugins: Vec::new(),
            plugins_dir: None,
            pending_install: None,
            confirmed_grants: Vec::new(),
            staging_root,
            workspace_path: None,
        }
    }

    /// The platform the Host works through.
    pub fn platform(&self) -> (p: &P)
        ensures
            *p == self.platform,
    {
        &self.platform
    }

    /// The Bus the Host routes (for proxies to act on).
    pub fn bus(&self) -> (b: &Bus)
        ensures
            *b == self.bus,
    {
        &self.bus
    }

    /// Path where the Workspace layout is persisted on stop and restored from.
    pub fn set_workspace_path(&mut self, path: String)
        ensures
            final(self).workspace_path == Some(path),
            final(self).running == old(self).running,
            final(self).plugins == old(self).plugins,
            final(self).blanks == old(self).blanks,
            final(self).plugin_windows == old(self).plugin_windows,
            final(self).platform == old(self).platform,
    {
        self.workspace_path = Some(path);
    }

    /// Whether the tray icon is shown.
    pub fn is_tray_visible(&self) -> (b: bool)
        ensures
            b == self.tray is Some,
    {
        self.tray.is_some()
    }

    /// Whether the Host is started.
    pub fn is_running(&self) -> (b: bool)
        ensures
            b == self.running,
    {
        self.running
    }

    fn drop_closed_blanks(&mut self)
        ensures
            final(self).blanks@ == live_blanks(old(self).platform, old(self).blanks@),
            final(self).platform == old(self).platform,
            final(self).plugin_windows == old(self).plugin_windows,
            final(self).sidecars == old(self).sidecars,
            final(self).launcher == old(self).launcher,
            final(self).palette == old(self).palette,
            final(self).same_settings(old(self)),
    {
        let mut entries: Vec<BlankWindowEntry> = Vec::new();
        core::mem::swap(&mut entries, &mut self.blanks);
        let ghost all = entries@;
        let mut kept: Vec<BlankWindowEntry> = Vec::new();
        while entries.len() > 0
            invariant
                live_blanks(self.platform, all) == kept@ + live_blanks(self.platform, entries@),
                self.platform == old(self).platform,
                all == old(self).blanks@,
                self.plugin_windows == old(self).plugin_windows,
                self.sidecars == old(self).sidecars,
                self.launcher == old(self).launcher,
                self.palette == old(self).palette,
                self.same_settings(old(self)),
            decreases entries.len(),
        {
            let ghost before = entries@;
            let e = entries.remove(0);
            assert(before.drop_first() =~= entries@);
            let gone = self.platform.is_window_destroyed(&e.id);
            if !gone {
                kept.push(e);
            }
            proof {
                assert(live_blanks(self.platform, before) == (if gone {
                    Seq::<BlankWindowEntry>::empty()
                } else {
                    seq![before[0]]
                }) + live_blanks(self.platform, entries@));
            }
            assert(live_blanks(self.platform, all) =~= kept@ + live_blanks(self.platform, entries@));
        }
        assert(live_blanks(self.platform, entries@) =~= Seq::<BlankWindowEntry>::empty());
        assert(kept@ =~= live_blanks(self.platform, all));
        self.blanks = kept;
    }

    fn drop_closed_plugin_windows(&mut self)
        ensures
            final(self).plugin_windows@ == live_plugin_windows(
                old(self).platform,
                old(self).plugin_windows@,
            ),
            final(self).platform == old(self).platform,
            final(self).blanks == old(self).blanks,
            final(self).sidecars == old(self).sidecars,
            final(self).launcher == old(self).launcher,
            final(self).palette == old(self).palette,
            final(self).same_settings(old(self)),
    {
        let mut entries: Vec<PluginWindowEntry> = Vec::new();
        core::mem::swap(&mut entries, &mut self.plugin_windows);
        let ghost all = entries@;
        let mut kept: Vec<PluginWindowEntry> = Vec::new();
        while entries.len() > 0
            invariant
                live_plugin_windows(self.platform, all) == kept@ + live_plugin_windows(
                    self.platform,
                    entries@,
                ),
                self.platform == old(self).platform,
                all == old(self).plugin_windows@,
                self.blanks == old(self).blanks,
                self.sidecars == old(self).sidecars,
                self.launcher == old(self).launcher,
                self.palette == old(self).palette,
                self.same_settings(old(self)),
            decreases entries.len(),
        {
            let ghost before = entries@;
            let e = entries.remove(0);
            assert(before.drop_first() =~= entries@);
            let gone = self.platform.is_window_destroyed(&e.id);
            if !gone {
                kept.push(e);
            }
            proof {
                assert(live_plugin_windows(self.platform, before) == (if gone {
                    Seq::<PluginWindowEntry>::empty()
                } else {
                    seq![before[0]]
                }) + live_plugin_windows(self.platform, entries@));
            }
            assert(live_plugin_windows(self.platform, all) =~= kept@ + live_plugin_windows(
                self.platform,
                entries@,
            ));
        }
        assert(live_plugin_windows(self.platform, entries@) =~= Seq::<PluginWindowEntry>::empty());
        assert(kept@ =~= live_plugin_windows(self.platform, all));
        self.plugin_windows = kept;
    }

    /// Whether some Plugin window shows `plugin_id`.
    fn window_open_for(&self, plugin_id: &String) -> (b: bool)
        ensures
            b == has_window_for(self.plugin_windows@, plugin_id@),
    {
        let mut i: usize = 0;
        while i < self.plugin_windows.len()
            invariant
                i <= self.plugin_windows@.len(),
                forall|j: int| 0 <= j < i ==> #[trigger] self.plugin_windows@[j].plugin_id@ != plugin_id@,
            decreases self.plugin_windows.len() - i,
        {
            if self.plugin_windows[i].plugin_id == *plugin_id {
                return true;
            }
            i = i + 1;
        }
        false
    }

    fn stop_orphaned_sidecars(&mut self)
        ensures
            final(self).sidecars@ == sidecars_with_windows(
                old(self).sidecars@,
                old(self).plugin_windows@,
            ),
            same_commands(final(self).platform, old(self).platform),
            no_sidecar_started(final(self).platform, old(self).platform),
            same_windows(final(self).platform, old(self).platform),
            final(self).platform.quit_requested() == old(self).platform.quit_requested(),
            final(self).blanks == old(self).blanks,
            final(self).plugin_windows == old(self).plugin_windows,
            final(self).launcher == old(self).launcher,
            final(self).palette == old(self).palette,
            final(self).same_settings(old(self)),
            running_ones_kept(final(self).platform, old(self).sidecars@, final(self).sidecars@),
            forall|w: Seq<char>| #[trigger] final(self).platform.window_instance(w) == old(self).platform.window_instance(w),
            final(self).platform.spawn_log() == old(self).platform.spawn_log(),
    {
        let mut entries: Vec<SidecarEntry> = Vec::new();
        core::mem::swap(&mut entries, &mut self.sidecars);
        let ghost all = entries@;
        let mut kept: Vec<SidecarEntry> = Vec::new();
        proof {
            assert forall|x: Seq<char>| #[trigger] self.platform.sidecar_running(x) && names_sidecar(all, x)
                implies names_sidecar(kept@ + entries@, x) by {
                assert(kept@ + entries@ =~= all);
            }
        }
        while entries.len() > 0
            invariant
                sidecars_with_windows(all, self.plugin_windows@) == kept@ + sidecars_with_windows(
                    entries@,
                    self.plugin_windows@,
                ),
                running_ones_kept(self.platform, all, kept@ + entries@),
                forall|w: Seq<char>| #[trigger] self.platform.window_instance(w) == old(self).platform.window_instance(w),
                self.platform.spawn_log() == old(self).platform.spawn_log(),
                all == old(self).sidecars@,
                same_commands(self.platform, old(self).platform),
                no_sidecar_started(self.platform, old(self).platform),
                same_windows(self.platform, old(self).platform),
                self.platform.quit_requested() == old(self).platform.quit_requested(),
                self.blanks == old(self).blanks,
                self.plugin_windows == old(self).plugin_windows,
                self.launcher == old(self).launcher,
                self.palette == old(self).palette,
                self.same_settings(old(self)),
            decreases entries.len(),
        {
            let ghost before = entries@;
            let ghost kept0 = kept@;
            let ghost p0 = self.platform;
            let e = entries.remove(0);
            assert(before.drop_first() =~= entries@);
            let keep = self.window_open_for(&e.plugin_id);
            if keep {
                kept.push(e);
                proof {
                    assert(kept@ + entries@ =~= kept0 + before);
                }
            } else {
                self.platform.stop_sidecar(&e.sidecar);
                proof {
                    let old_all = kept0 + before;
                    let new_all = kept@ + entries@;
                    assert forall|x: Seq<char>| #[trigger] self.platform.sidecar_running(x) && names_sidecar(all, x)
                        implies names_sidecar(new_all, x) by {
                        assert(p0.sidecar_running(x));
                        let j = choose|j: int| 0 <= j < old_all.len() && #[trigger] old_all[j].sidecar.0@ == x;
                        if j < kept0.len() {
                            assert(new_all[j] == old_all[j]);
                        } else {
                            assert(j != kept0.len());
                            assert(new_all[j - 1] == old_all[j]);
                        }
                    }
                }
            }
            assert(sidecars_with_windows(all, self.plugin_windows@) =~= kept@ + sidecars_with_windows(
                entries@,
                self.plugin_windows@,
            ));
        }
        assert(sidecars_with_windows(entries@, self.plugin_windows@) =~= Seq::<SidecarEntry>::empty());
        assert(kept@ =~= sidecars_with_windows(all, self.plugin_windows@));
        assert(kept@ + entries@ =~= kept@);
        self.sidecars = kept;
    }

    /// Forgets windows the platform reports closed and stops Sidecars whose Plugin has no
    /// window left.
    pub fn prune(&mut self)
        ensures
            final(self).launcher == live_slot(old(self).platform, old(self).launcher),
            final(self).palette == live_slot(old(self).platform, old(self).palette),
            final(self).blanks@ == live_blanks(old(self).platform, old(self).blanks@),
            final(self).plugin_windows@ == live_plugin_windows(
                old(self).platform,
                old(self).plugin_windows@,
            ),
            final(self).sidecars@ == sidecars_with_windows(
                old(self).sidecars@,
                final(self).plugin_windows@,
            ),
            sidecars_distinct(old(self).sidecars@) ==> sidecars_distinct(final(self).sidecars@),
            same_commands(final(self).platform, old(self).platform),
            no_sidecar_started(final(self).platform, old(self).platform),
            same_windows(final(self).platform, old(self).platform),
            final(self).platform.quit_requested() == old(self).platform.quit_requested(),
            final(self).same_settings(old(self)),
            running_ones_kept(final(self).platform, old(self).sidecars@, final(self).sidecars@),
            forall|w: Seq<char>| #[trigger] final(self).platform.window_instance(w) == old(self).platform.window_instance(w),
            final(self).platform.spawn_log() == old(self).platform.spawn_log(),
    {
        proof {
            lemma_sidecars_with_windows(
                self.sidecars@,
                live_plugin_windows(self.platform, self.plugin_windows@),
            );
        }
        match &self.launcher {
            Some(id) => {
                if self.platform.is_window_destroyed(id) {
                    self.launcher = None;
                }
            },
            None => {},
        }
        match &self.palette {
            Some(id) => {
                if self.platform.is_window_destroyed(id) {
                    self.palette = None;
                }
            },
            None => {},
        }
        self.drop_closed_blanks();
        self.drop_closed_plugin_windows();
        self.stop_orphaned_sidecars();
    }

    /// Opens the launcher unless it is open already (closed windows are forgotten first).
    pub fn open_launcher(&mut self)
        ensures
            final(self).launcher matches Some(id) && !final(self).platform.window_destroyed(id.0@),
            live_slot(old(self).platform, old(self).launcher) is Some ==> final(self).launcher
                == old(self).launcher && same_windows(final(self).platform, old(self).platform),
            final(self).blanks@ == live_blanks(old(self).platform, old(self).blanks@),
            final(self).plugin_windows@ == live_plugin_windows(
                old(self).platform,
                old(self).plugin_windows@,
            ),
            final(self).palette == live_slot(old(self).platform, old(self).palette),
            final(self).same_settings(old(self)),
    {
        self.prune();
        if self.launcher.is_some() {
            return;
        }
        let id = self.platform.create_window(WindowKind::Launcher);
        self.launcher = Some(id);
    }

    /// Closes the launcher when it is open.
    pub fn close_launcher(&mut self)
        ensures
            final(self).launcher is None,
            old(self).launcher matches Some(id) ==> final(self).platform.window_destroyed(id.0@),
            final(self).blanks@ == live_blanks(old(self).platform, old(self).blanks@),
            final(self).plugin_windows@ == live_plugin_windows(
                old(self).platform,
                old(self).plugin_windows@,
            ),
            final(self).same_settings(old(self)),
    {
        self.prune();
        let mut slot: Option<WindowId> = None;
        core::mem::swap(&mut slot, &mut self.launcher);
        match slot {
            Some(id) => {
                self.platform.close_window(&id);
            },
            None => {},
        }
    }

    /// Whether the launcher is open.
    pub fn is_launcher_open(&mut self) -> (b: bool)
        ensures
            b == live_slot(old(self).platform, old(self).launcher) is Some,
            b == final(self).launcher is Some,
            final(self).same_settings(old(self)),
    {
        self.prune();
        self.launcher.is_some()
    }

    /// Opens the command palette unless it is open already.
    pub fn open_command_palette(&mut self)
        ensures
            final(self).palette matches Some(id) && !final(self).platform.window_destroyed(id.0@),
            live_slot(old(self).platform, old(self).palette) is Some ==> final(self).palette
                == old(self).palette && same_windows(final(self).platform, old(self).platform),
            final(self).blanks@ == live_blanks(old(self).platform, old(self).blanks@),
            final(self).plugin_windows@ == live_plugin_windows(
                old(self).platform,
                old(self).plugin_windows@,
            ),
            final(self).launcher == live_slot(old(self).platform, old(self).launcher),
            final(self).same_settings(old(self)),
    {
        self.prune();
        if self.palette.is_some() {
            return;
        }
        let id = self.platform.create_window(WindowKind::Palette);
        self.palette = Some(id);
    }

    /// Closes the command palette when it is open.
    pub fn close_command_palette(&mut self)
        ensures
            final(self).palette is None,
            old(self).palette matches Some(id) ==> final(self).platform.window_destroyed(id.0@),
            final(self).blanks@ == live_blanks(old(self).platform, old(self).blanks@),
            final(self).plugin_windows@ == live_plugin_windows(
                old(self).platform,
                old(self).plugin_windows@,
            ),
            final(self).same_settings(old(self)),
    {
        self.prune();
        let mut slot: Option<WindowId> = None;
        core::mem::swap(&mut slot, &mut self.palette);
        match slot {
            Some(id) => {
                self.platform.close_window(&id);
            },
            None => {},
        }
    }

    /// Whether the command palette is open.
    pub fn is_command_palette_open(&mut self) -> (b: bool)
        ensures
            b == live_slot(old(self).platform, old(self).palette) is Some,
            b == final(self).palette is Some,
            final(self).same_settings(old(self)),
    {
        self.prune();
        self.palette.is_some()
    }

    /// Opens a blank window with a fresh stable identity.
    pub fn open_blank_window(&mut self)
        ensures
            final(self).blanks@.len() == old(self).blanks@.len() + 1,
            final(self).blanks@.drop_last() == old(self).blanks@,
            !final(self).platform.window_destroyed(final(self).blanks@.last().id.0@),
            !is_blank_spec(final(self).blanks@.last().blank_id@),
            final(self).plugin_windows == old(self).plugin_windows,
            final(self).launcher == old(self).launcher,
            final(self).palette == old(self).palette,
            final(self).same_settings(old(self)),
            final(self).sidecars == old(self).sidecars,
            old(self).platform.window_destroyed(final(self).blanks@.last().id.0@),
            final(self).platform.geometry_of(final(self).blanks@.last().id.0@) is Some,
            forall|w: Seq<char>|
                w != final(self).blanks@.last().id.0@ ==> #[trigger] final(self).platform.window_destroyed(w)
                    == old(self).platform.window_destroyed(w),
            forall|w: Seq<char>|
                w != final(self).blanks@.last().id.0@ ==> #[trigger] final(self).platform.geometry_of(w)
                    == old(self).platform.geometry_of(w),
            same_commands(final(self).platform, old(self).platform),
            forall|x: Seq<char>| #[trigger] final(self).platform.sidecar_running(x) == old(self).platform.sidecar_running(x),
            final(self).platform.quit_requested() == old(self).platform.quit_requested(),
            final(self).platform.spawn_log() == old(self).platform.spawn_log(),
    {
        let blank_id = new_uuid();
        assert(!crate::text::is_white_space(blank_id@[8]));
        let id = self.platform.create_window(WindowKind::Blank);
        self.blanks.push(BlankWindowEntry { id, blank_id });
        assert(self.blanks@.drop_last() =~= old(self).blanks@);
    }

    /// The saved form of the current windows and Window Groups (no pruning).
    fn snapshot(&self) -> (ws: Workspace)
        ensures
            ws.windows@ == blank_snapshot(self.platform, self.blanks@) + plugin_snapshot(
                self.platform,
                self.plugin_windows@,
            ),
            groups_view(ws.groups@) == groups_view(self.window_groups@),
    {
        let mut windows: Vec<WorkspaceWindow> = Vec::new();
        let mut i: usize = 0;
        while i < self.blanks.len()
            invariant
                i <= self.blanks@.len(),
                windows@ == blank_snapshot(self.platform, self.blanks@.subrange(0, i as int)),
            decreases self.blanks.len() - i,
        {
            proof {
                let next = self.blanks@.subrange(0, i + 1);
                assert(next.drop_last() =~= self.blanks@.subrange(0, i as int));
            }
            match self.platform.window_geometry(&self.blanks[i].id) {
                Some(g) => {
                    windows.push(
                        WorkspaceWindow {
                            kind: WorkspaceWindowKind::Blank { blank_id: self.blanks[i].blank_id.clone() },
                            geometry: g,
                        },
                    );
                },
                None => {},
            }
            assert(windows@ =~= blank_snapshot(self.platform, self.blanks@.subrange(0, i + 1)));
            i = i + 1;
        }
        assert(self.blanks@.subrange(0, self.blanks@.len() as int) =~= self.blanks@);
        let ghost blank_part = windows@;
        let mut k: usize = 0;
        while k < self.plugin_windows.len()
            invariant
                k <= self.plugin_windows@.len(),
                blank_part == blank_snapshot(self.platform, self.blanks@),
                windows@ == blank_part + plugin_snapshot(
                    self.platform,
                    self.plugin_windows@.subrange(0, k as int),
                ),
            decreases self.plugin_windows.len() - k,
        {
            proof {
                let next = self.plugin_windows@.subrange(0, k + 1);
                assert(next.drop_last() =~= self.plugin_windows@.subrange(0, k as int));
            }
            match self.platform.window_geometry(&self.plugin_windows[k].id) {
                Some(g) => {
                    windows.push(
                        WorkspaceWindow {
                            kind: WorkspaceWindowKind::Plugin {
                                plugin_id: self.plugin_windows[k].plugin_id.clone(),
                                instance_id: self.plugin_windows[k].instance_id.clone(),
                            },
                            geometry: g,
                        },
                    );
                },
                None => {},
            }
            assert(windows@ =~= blank_part + plugin_snapshot(
                self.platform,
                self.plugin_windows@.subrange(0, k + 1),
            ));
            k = k + 1;
        }
        assert(self.plugin_windows@.subrange(0, self.plugin_windows@.len() as int)
            =~= self.plugin_windows@);
        Workspace { windows, groups: clone_groups(&self.window_groups) }
    }

    /// Current Workspace snapshot (layout + Plugin instance ids + Window Groups) after closed
    /// windows are forgotten.
    pub fn capture_workspace(&mut self) -> (ws: Workspace)
        ensures
            final(self).blanks@ == live_blanks(old(self).platform, old(self).blanks@),
            final(self).plugin_windows@ == live_plugin_windows(
                old(self).platform,
                old(self).plugin_windows@,
            ),
            ws.windows@ == blank_snapshot(final(self).platform, final(self).blanks@)
                + plugin_snapshot(final(self).platform, final(self).plugin_windows@),
            groups_view(ws.groups@) == groups_view(old(self).window_groups@),
            same_windows(final(self).platform, old(self).platform),
            final(self).same_settings(old(self)),
    {
        self.prune();
        self.snapshot()
    }

    /// The snapshot to write to the configured Workspace path.
    pub fn save_workspace(&mut self) -> (r: Result<WorkspaceSave, String>)
        ensures
            match r {
                Ok(save) => {
                    &&& old(self).workspace_path == Some(save.path)
                    &&& save.workspace.windows@ == blank_snapshot(
                        final(self).platform,
                        final(self).blanks@,
                    ) + plugin_snapshot(final(self).platform, final(self).plugin_windows@)
                    &&& groups_view(save.workspace.groups@) == groups_view(old(self).window_groups@)
                },
                Err(m) => old(self).workspace_path is None && m@ == "workspace path is not configured"@,
            },
            final(self).blanks@ == live_blanks(old(self).platform, old(self).blanks@),
            final(self).plugin_windows@ == live_plugin_windows(
                old(self).platform,
                old(self).plugin_windows@,
            ),
            same_windows(final(self).platform, old(self).platform),
            final(self).same_settings(old(self)),
    {
        self.prune();
        let path = match &self.workspace_path {
            Some(p) => p.clone(),
            None => {
                return Err(String::from_str("workspace path is not configured"));
            },
        };
        Ok(WorkspaceSave { path, workspace: self.snapshot() })
    }

    /// Shows the tray and registers the command palette shortcut; nothing when started already.
    pub fn start(&mut self)
        ensures
            final(self).running,
            !old(self).running ==> {
                &&& final(self).tray is Some
                &&& final(self).platform.tray_command() == Some(HostCommand::StopAndQuit)
                &&& final(self).platform.shortcut_command("CommandOrControl+K"@) == Some(
                    HostCommand::OpenCommandPalette,
                )
            },
            old(self).running ==> *final(self) == *old(self),
            final(self).blanks == old(self).blanks,
            final(self).plugin_windows == old(self).plugin_windows,
            final(self).launcher == old(self).launcher,
            final(self).palette == old(self).palette,
            final(self).plugins == old(self).plugins,
            final(self).window_groups == old(self).window_groups,
            final(self).workspace_path == old(self).workspace_path,
            same_windows(final(self).platform, old(self).platform),
    {
        if self.running {
            return;
        }
        let tray = self.platform.create_tray(HostCommand::StopAndQuit);
        self.platform.register_shortcut("CommandOrControl+K", HostCommand::OpenCommandPalette);
        self.tray = Some(tray);
        self.running = true;
    }

    pub(crate) fn close_all_content_windows(&mut self)
        ensures
            final(self).blanks@.len() == 0,
            final(self).plugin_windows@.len() == 0,
            forall|i: int|
                0 <= i < old(self).blanks@.len() ==> final(self).platform.window_destroyed(
                    #[trigger] old(self).blanks@[i].id.0@,
                ),
            forall|i: int|
                0 <= i < old(self).plugin_windows@.len() ==> final(self).platform.window_destroyed(
                    #[trigger] old(self).plugin_windows@[i].id.0@,
                ),
            forall|w: Seq<char>| #[trigger] final(self).platform.geometry_of(w) == old(self).platform.geometry_of(w),
            same_commands(final(self).platform, old(self).platform),
            final(self).platform.quit_requested() == old(self).platform.quit_requested(),
            final(self).launcher == old(self).launcher,
            final(self).palette == old(self).palette,
            final(self).sidecars == old(self).sidecars,
            final(self).same_settings(old(self)),
            forall|x: Seq<char>| #[trigger] final(self).platform.sidecar_running(x) == old(self).platform.sidecar_running(x),
            forall|w: Seq<char>|
                old(self).platform.window_destroyed(w) ==> #[trigger] final(self).platform.window_destroyed(w),
            final(self).platform.spawn_log() == old(self).platform.spawn_log(),
            forall|w: Seq<char>|
                #[trigger] final(self).platform.window_destroyed(w) != old(self).platform.window_destroyed(w)
                    ==> old(self).lists_label(w),
    {
        let mut blanks: Vec<BlankWindowEntry> = Vec::new();
        core::mem::swap(&mut blanks, &mut self.blanks);
        let mut i: usize = 0;
        while i < blanks.len()
            invariant
                i <= blanks@.len(),
                blanks@ == old(self).blanks@,
                self.blanks@.len() == 0,
                self.plugin_windows == old(self).plugin_windows,
                forall|j: int| 0 <= j < i ==> self.platform.window_destroyed(#[trigger] blanks@[j].id.0@),
                forall|w: Seq<char>|
                    #[trigger] self.platform.window_destroyed(w) != old(self).platform.window_destroyed(w)
                    ==> exists|j: int| 0 <= j < i && #[trigger] blanks@[j].id.0@ == w,
                forall|x: Seq<char>| #[trigger] self.platform.sidecar_running(x) == old(self).platform.sidecar_running(x),
                forall|w: Seq<char>|
                    old(self).platform.window_destroyed(w) ==> #[trigger] self.platform.window_destroyed(w),
                self.platform.spawn_log() == old(self).platform.spawn_log(),
                forall|w: Seq<char>| #[trigger] self.platform.geometry_of(w) == old(self).platform.geometry_of(w),
                same_commands(self.platform, old(self).platform),
                self.platform.quit_requested() == old(self).platform.quit_requested(),
                self.launcher == old(self).launcher,
                self.palette == old(self).palette,
                self.sidecars == old(self).sidecars,
                self.same_settings(old(self)),
            decreases blanks.len() - i,
        {
            self.platform.close_window(&blanks[i].id);
            i = i + 1;
        }
        let mut windows: Vec<PluginWindowEntry> = Vec::new();
        core::mem::swap(&mut windows, &mut self.plugin_windows);
        let mut k: usize = 0;
        while k < windows.len()
            invariant
                k <= windows@.len(),
                windows@ == old(self).plugin_windows@,
                self.blanks@.len() == 0,
                self.plugin_windows@.len() == 0,
                forall|j: int| 0 <= j < old(self).blanks@.len() ==> self.platform.window_destroyed(#[trigger] old(self).blanks@[j].id.0@),
                forall|j: int| 0 <= j < k ==> self.platform.window_destroyed(#[trigger] windows@[j].id.0@),
                forall|w: Seq<char>|
                    #[trigger] self.platform.window_destroyed(w) != old(self).platform.window_destroyed(w)
                    ==> (exists|j: int| 0 <= j < old(self).blanks@.len() && #[trigger] old(self).blanks@[j].id.0@ == w)
                    || exists|j: int| 0 <= j < k && #[trigger] windows@[j].id.0@ == w,
                forall|x: Seq<char>| #[trigger] self.platform.sidecar_running(x) == old(self).platform.sidecar_running(x),
                forall|w: Seq<char>|
                    old(self).platform.window_destroyed(w) ==> #[trigger] self.platform.window_destroyed(w),
                self.platform.spawn_log() == old(self).platform.spawn_log(),
                forall|w: Seq<char>| #[trigger] self.platform.geometry_of(w) == old(self).platform.geometry_of(w),
                same_commands(self.platform, old(self).platform),
                self.platform.quit_requested() == old(self).platform.quit_requested(),
                self.launcher == old(self).launcher,
                self.palette == old(self).palette,
                self.sidecars == old(self).sidecars,
                self.same_settings(old(self)),
            decreases windows.len() - k,
        {
            self.platform.close_window(&windows[k].id);
            k = k + 1;
        }
    }

    pub(crate) fn stop_all_sidecars(&mut self)
        ensures
            final(self).sidecars@.len() == 0,
            same_commands(final(self).platform, old(self).platform),
            same_windows(final(self).platform, old(self).platform),
            final(self).platform.quit_requested() == old(self).platform.quit_requested(),
            final(self).blanks == old(self).blanks,
            final(self).plugin_windows == old(self).plugin_windows,
            final(self).launcher == old(self).launcher,
            final(self).palette == old(self).palette,
            final(self).same_settings(old(self)),
            forall|i: int|
                0 <= i < old(self).sidecars@.len() ==> !final(self).platform.sidecar_running(
                    #[trigger] old(self).sidecars@[i].sidecar.0@,
                ),
            no_sidecar_started(final(self).platform, old(self).platform),
            final(self).platform.spawn_log() == old(self).platform.spawn_log(),
    {
        let mut entries: Vec<SidecarEntry> = Vec::new();
        core::mem::swap(&mut entries, &mut self.sidecars);
        let mut i: usize = 0;
        while i < entries.len()
            invariant
                i <= entries@.len(),
                entries@ == old(self).sidecars@,
                forall|j: int| 0 <= j < i ==> !self.platform.sidecar_running(#[trigger] entries@[j].sidecar.0@),
                no_sidecar_started(self.platform, old(self).platform),
                self.platform.spawn_log() == old(self).platform.spawn_log(),
                self.sidecars@.len() == 0,
                same_commands(self.platform, old(self).platform),
                same_windows(self.platform, old(self).platform),
                self.platform.quit_requested() == old(self).platform.quit_requested(),
                self.blanks == old(self).blanks,
                self.plugin_windows == old(self).plugin_windows,
                self.launcher == old(self).launcher,
                self.palette == old(self).palette,
                self.same_settings(old(self)),
            decreases entries.len() - i,
        {
            self.platform.stop_sidecar(&entries[i].sidecar);
            i = i + 1;
        }
    }

    /// Stops the Host: returns the Workspace to save (when a path is set), closes every window,
    /// stops every Sidecar, unregisters the shortcuts and hides the tray. Nothing happens when
    /// the Host is not running.
    pub fn stop(&mut self) -> (r: Option<WorkspaceSave>)
        ensures
            !old(self).running ==> r is None && *final(self) == *old(self),
            old(self).running ==> {
                &&& !final(self).running
                &&& final(self).tray is None
                &&& final(self).launcher is None
                &&& final(self).palette is None
                &&& final(self).blanks@.len() == 0
                &&& final(self).plugin_windows@.len() == 0
                &&& final(self).window_groups@.len() == 0
                &&& final(self).sidecars@.len() == 0
                &&& (r is Some <==> old(self).workspace_path is Some)
                &&& (r matches Some(save) ==> {
                    &&& old(self).workspace_path == Some(save.path)
                    &&& save.workspace.windows@ == blank_snapshot(
                        old(self).platform,
                        live_blanks(old(self).platform, old(self).blanks@),
                    ) + plugin_snapshot(
                        old(self).platform,
                        live_plugin_windows(old(self).platform, old(self).plugin_windows@),
                    )
                    &&& groups_view(save.workspace.groups@) == groups_view(old(self).window_groups@)
                })
                &&& forall|i: int|
                    0 <= i < live_blanks(old(self).platform, old(self).blanks@).len()
                        ==> final(self).platform.window_destroyed(
                        #[trigger] live_blanks(old(self).platform, old(self).blanks@)[i].id.0@,
                    )
                &&& forall|i: int|
                    0 <= i < live_plugin_windows(old(self).platform, old(self).plugin_windows@).len()
                        ==> final(self).platform.window_destroyed(
                        #[trigger] live_plugin_windows(
                            old(self).platform,
                            old(self).plugin_windows@,
                        )[i].id.0@,
                    )
                &&& final(self).plugins == old(self).plugins
                &&& final(self).workspace_path == old(self).workspace_path
                &&& final(self).platform.quit_requested() == old(self).platform.quit_requested()
                &&& forall|a: Seq<char>| #[trigger] final(self).platform.shortcut_command(a) is None
                &&& old(self).tray is Some ==> final(self).platform.tray_command() is None
                &&& (old(self).launcher matches Some(id) ==> final(self).platform.window_destroyed(id.0@))
                &&& (old(self).palette matches Some(id) ==> final(self).platform.window_destroyed(id.0@))
                &&& forall|i: int|
                    0 <= i < old(self).sidecars@.len() ==> !final(self).platform.sidecar_running(
                        #[trigger] old(self).sidecars@[i].sidecar.0@,
                    )
            },
    {
        if !self.running {
            return None;
        }
        self.prune();
        let ghost pruned = *self;
        proof {
            lemma_snapshot_same_windows(self.platform, old(self).platform, self.blanks@, self.plugin_windows@);
        }
        let save = match &self.workspace_path {
            Some(p) => Some(WorkspaceSave { path: p.clone(), workspace: self.snapshot() }),
            None => None,
        };
        self.platform.unregister_all_shortcuts();
        let ghost u = *self;
        self.prune();
        proof {
            lemma_snapshot_same_windows(u.platform, pruned.platform, pruned.blanks@, pruned.plugin_windows@);
            lemma_snapshot_same_windows(self.platform, pruned.platform, pruned.blanks@, pruned.plugin_windows@);
            lemma_snapshot_same_windows(pruned.platform, old(self).platform, old(self).blanks@, old(self).plugin_windows@);
            lemma_snapshot_same_windows(pruned.platform, old(self).platform, pruned.blanks@, pruned.plugin_windows@);
            lemma_live_idempotent(old(self).platform, old(self).blanks@, old(self).plugin_windows@);
            assert(self.blanks@ == live_blanks(old(self).platform, old(self).blanks@));
            assert(self.plugin_windows@ == live_plugin_windows(old(self).platform, old(self).plugin_windows@));
        }
        let ghost before_close = *self;
        proof {
            assert forall|w: Seq<char>| #[trigger] before_close.platform.window_destroyed(w)
                == old(self).platform.window_destroyed(w) by {
                assert(u.platform.window_destroyed(w) == pruned.platform.window_destroyed(w));
            }
        }
        let mut slot: Option<WindowId> = None;
        core::mem::swap(&mut slot, &mut self.launcher);
        match slot {
            Some(id) => {
                self.platform.close_window(&id);
            },
            None => {},
        }
        proof {
            if let Some(id) = old(self).launcher {
                assert(self.platform.window_destroyed(id.0@));
            }
        }
        let ghost after_launcher = self.platform;
        let mut slot2: Option<WindowId> = None;
        core::mem::swap(&mut slot2, &mut self.palette);
        match slot2 {
            Some(id) => {
                self.platform.close_window(&id);
            },
            None => {},
        }
        proof {
            if let Some(id) = old(self).launcher {
                assert(after_launcher.window_destroyed(id.0@));
                assert(self.platform.window_destroyed(id.0@));
            }
            if let Some(id) = old(self).palette {
                assert(self.platform.window_destroyed(id.0@));
            }
        }
        let ghost mid = *self;
        assert(mid.blanks@ == live_blanks(old(self).platform, old(self).blanks@));
        assert(mid.plugin_windows@ == live_plugin_windows(old(self).platform, old(self).plugin_windows@));
        self.close_all_content_windows();
        let ghost closed = self.platform;
        self.window_groups = Vec::new();
        let ghost before_stop = *self;
        self.stop_all_sidecars();
        let mut tray: Option<TrayId> = None;
        core::mem::swap(&mut tray, &mut self.tray);
        match tray {
            Some(t) => {
                self.platform.destroy_tray(&t);
            },
            None => {},
        }
        self.running = false;
        proof {
            assert forall|i: int| 0 <= i < mid.blanks@.len() implies self.platform.window_destroyed(
                #[trigger] mid.blanks@[i].id.0@,
            ) by {
                assert(closed.window_destroyed(mid.blanks@[i].id.0@));
            }
            assert forall|i: int| 0 <= i < mid.plugin_windows@.len() implies self.platform.window_destroyed(
                #[trigger] mid.plugin_windows@[i].id.0@,
            ) by {
                assert(closed.window_destroyed(mid.plugin_windows@[i].id.0@));
            }
            if let Some(id) = old(self).launcher {
                assert(mid.platform.window_destroyed(id.0@));
                assert(closed.window_destroyed(id.0@));
            }
            if let Some(id) = old(self).palette {
                assert(mid.platform.window_destroyed(id.0@));
                assert(closed.window_destroyed(id.0@));
            }
            assert forall|i: int| 0 <= i < old(self).sidecars@.len() implies !self.platform.sidecar_running(
                #[trigger] old(self).sidecars@[i].sidecar.0@,
            ) by {
                let x = old(self).sidecars@[i].sidecar.0@;
                if self.platform.sidecar_running(x) {
                    assert(before_stop.platform.sidecar_running(x));
                    assert(mid.platform.sidecar_running(x));
                    assert(before_close.platform.sidecar_running(x));
                    assert(u.platform.sidecar_running(x));
                    assert(pruned.platform.sidecar_running(x));
                    assert(names_sidecar(old(self).sidecars@, x));
                    assert(names_sidecar(pruned.sidecars@, x));
                    assert(names_sidecar(before_close.sidecars@, x));
                    let j = choose|j: int| 0 <= j < before_stop.sidecars@.len()
                        && #[trigger] before_stop.sidecars@[j].sidecar.0@ == x;
                    assert(!self.platform.sidecar_running(before_stop.sidecars@[j].sidecar.0@));
                }
            }
        }
        save
    }

    /// Loads the Plugins a scan of `dir` found (`discovered`, in scan order; packages without a
    /// valid Manifest are not among them) and the install grants recorded there. Later
    /// directory scans for `dir` are handed to `refresh_plugins`.
    pub fn load_plugins_from(
        &mut self,
        dir: &str,
        discovered: Vec<Manifest>,
        grants: Vec<(String, Vec<PermissionItem>)>,
    )
        ensures
            final(self).plugins_dir matches Some(d) && d@ == dir@,
            registry(final(self).plugins@) == scan_registry(discovered@),
            plugin_ids_distinct(final(self).plugins@),
            final(self).confirmed_grants == grants,
            final(self).platform == old(self).platform,
            final(self).running == old(self).running,
            final(self).blanks == old(self).blanks,
            final(self).plugin_windows == old(self).plugin_windows,
            final(self).window_groups == old(self).window_groups,
            final(self).workspace_path == old(self).workspace_path,
    {
        self.plugins_dir = Some(String::from_str(dir));
        self.plugins = plugins_from_scan(discovered);
        self.confirmed_grants = grants;
    }

    /// Replaces the registry with a new scan of the plugins directory (drop-in discovery);
    /// nothing changes when no directory is configured.
    pub fn refresh_plugins(&mut self, discovered: Vec<Manifest>)
        ensures
            old(self).plugins_dir is Some ==> registry(final(self).plugins@) == scan_registry(
                discovered@,
            ),
            old(self).plugins_dir is None ==> final(self).plugins == old(self).plugins,
            old(self).plugins_dir is Some ==> plugin_ids_distinct(final(self).plugins@),
            final(self).plugins_dir == old(self).plugins_dir,
            final(self).platform == old(self).platform,
            final(self).running == old(self).running,
            final(self).blanks == old(self).blanks,
            final(self).plugin_windows == old(self).plugin_windows,
            final(self).window_groups == old(self).window_groups,
            final(self).pending_install == old(self).pending_install,
            final(self).confirmed_grants == old(self).confirmed_grants,
            final(self).workspace_path == old(self).workspace_path,
    {
        if self.plugins_dir.is_some() {
            self.plugins = plugins_from_scan(discovered);
        }
    }

    /// The configured plugins directory.
    pub fn plugins_dir(&self) -> (r: Option<String>)
        ensures
            r == self.plugins_dir,
    {
        clone_opt(&self.plugins_dir)
    }

    /// Index of the registered Plugin `id`.
    pub fn find_plugin(&self, id: &String) -> (r: Option<usize>)
        ensures
            match r {
                Some(i) => i < self.plugins@.len() && i as int == plugin_pos(self.plugins@, id@),
                None => plugin_pos(self.plugins@, id@) == -1,
            },
    {
        find_plugin_in(&self.plugins, id)
    }

    /// The registered Plugins, sorted by id.
    pub fn listed_plugins(&self) -> (r: Vec<ListedPlugin>)
        ensures
            listed_view(r@).to_multiset() == self.plugins@.map_values(|m: Manifest| listed_of(m)).to_multiset(),
            sorted_by_id(r@),
            plugin_ids_distinct(self.plugins@) ==> forall|a: int, b: int|
                0 <= a < b < r@.len() ==> text_less(#[trigger] r@[a].id@, #[trigger] r@[b].id@),
    {
        let ghost src = self.plugins@.map_values(|m: Manifest| listed_of(m));
        let mut out: Vec<ListedPlugin> = Vec::new();
        let mut i: usize = 0;
        assert(listed_view(out@) =~= Seq::<(Seq<char>, Seq<char>, Seq<char>)>::empty());
        assert(src.subrange(0, 0) =~= Seq::<(Seq<char>, Seq<char>, Seq<char>)>::empty());
        while i < self.plugins.len()
            invariant
                i <= self.plugins@.len(),
                src == self.plugins@.map_values(|m: Manifest| listed_of(m)),
                listed_view(out@).to_multiset() == src.subrange(0, i as int).to_multiset(),
                sorted_by_id(out@),
                out@.len() == i,
                forall|j: int| 0 <= j < out@.len() ==> exists|t: int| 0 <= t < i && (#[trigger] out@[j]).id@ == self.plugins@[t].id@,
                plugin_ids_distinct(self.plugins@) ==> forall|a: int, b: int|
                    0 <= a < b < out@.len() ==> #[trigger] out@[a].id@ != #[trigger] out@[b].id@,
            decreases self.plugins.len() - i,
        {
            let item = ListedPlugin {
                id: self.plugins[i].id.clone(),
                name: self.plugins[i].name.clone(),
                version: self.plugins[i].version.clone(),
            };
            let mut k: usize = 0;
            while k < out.len() && !str_less(item.id.as_str(), out[k].id.as_str())
                invariant
                    k <= out@.len(),
                    forall|j: int| 0 <= j < k ==> !text_less(item.id@, #[trigger] out@[j].id@),
                decreases out.len() - k,
            {
                k = k + 1;
            }
            let ghost before = out@;
            let ghost x = item;
            out.insert(k, item);
            proof {
                assert(out@ == before.insert(k as int, x));
                before.insert_ensures(k as int, x);
                // multiset
                assert(listed_view(out@) =~= listed_view(before).insert(k as int, (x.id@, x.name@, x.version@)));
                vstd::seq_lib::to_multiset_insert(listed_view(before), k as int, (x.id@, x.name@, x.version@));
                let next = src.subrange(0, i + 1);
                assert(next =~= src.subrange(0, i as int).push(src[i as int]));
                vstd::seq_lib::to_multiset_build(src.subrange(0, i as int), src[i as int]);
                // order
                assert forall|a: int, b: int| 0 <= a < b < out@.len() implies !text_less(
                    #[trigger] out@[b].id@,
                    #[trigger] out@[a].id@,
                ) by {
                    if a < k && b == k {
                    } else if a < k && b > k {
                        assert(out@[b] == before[b - 1]);
                        assert(!text_less(before[b - 1].id@, before[a].id@));
                    } else if a == k && b > k {
                        let y = before[b - 1];
                        assert(out@[b] == y);
                        assert(k < before.len());
                        assert(text_less(x.id@, before[k as int].id@));
                        if k < b - 1 {
                            assert(!text_less(y.id@, before[k as int].id@));
                        }
                        if text_less(y.id@, x.id@) {
                            crate::text::lemma_text_less_transitive(y.id@, x.id@, before[k as int].id@);
                            crate::text::lemma_text_less_asymmetric(y.id@, before[k as int].id@);
                        }
                    } else if a > k {
                        assert(out@[a] == before[a - 1]);
                        assert(out@[b] == before[b - 1]);
                    } else {
                        assert(out@[a] == before[a]);
                        assert(out@[b] == before[b]);
                    }
                }
                assert forall|j: int| 0 <= j < out@.len() implies exists|t: int| 0 <= t < i + 1 && (#[trigger] out@[j]).id@
                    == self.plugins@[t].id@ by {
                    if j < k {
                        assert(out@[j] == before[j]);
                        let t = choose|t: int| 0 <= t < i && (#[trigger] before[j]).id@ == self.plugins@[t].id@;
                    } else if j == k {
                        assert(out@[j].id@ == self.plugins@[i as int].id@);
                    } else {
                        assert(out@[j] == before[j - 1]);
                        let t = choose|t: int| 0 <= t < i && (#[trigger] before[j - 1]).id@ == self.plugins@[t].id@;
                    }
                }
                if plugin_ids_distinct(self.plugins@) {
                    assert forall|j: int| 0 <= j < before.len() implies (#[trigger] before[j]).id@ != x.id@ by {
                        let t = choose|t: int| 0 <= t < i && (#[trigger] before[j]).id@ == self.plugins@[t].id@;
                        assert(self.plugins@[t].id@ != self.plugins@[i as int].id@);
                    }
                    assert forall|a: int, b: int| 0 <= a < b < out@.len() implies #[trigger] out@[a].id@
                        != #[trigger] out@[b].id@ by {
                        if a < k && b == k {
                            assert(out@[a] == before[a]);
                        } else if a < k && b > k {
                            assert(out@[a] == before[a]);
                            assert(out@[b] == before[b - 1]);
                        } else if a == k {
                            assert(out@[b] == before[b - 1]);
                        } else if a > k {
                            assert(out@[a] == before[a - 1]);
                            assert(out@[b] == before[b - 1]);
                        } else {
                            assert(out@[a] == before[a]);
                            assert(out@[b] == before[b]);
                        }
                    }
                }
            }
            i = i + 1;
        }
        assert(src.subrange(0, self.plugins@.len() as int) =~= src);
        proof {
            if plugin_ids_distinct(self.plugins@) {
                assert forall|a: int, b: int| 0 <= a < b < out@.len() implies text_less(
                    #[trigger] out@[a].id@,
                    #[trigger] out@[b].id@,
                ) by {
                    crate::text::lemma_text_less_total(out@[a].id@, out@[b].id@);
                }
            }
        }
        out
    }
}

impl<P: Platform> Host<P> {
    /// Every open window and its kind: launcher, palette, blanks, then Plugin windows (closed
    /// windows are forgotten first).
    pub fn open_windows(&mut self) -> (r: Vec<(String, WindowKind)>)
        ensures
            r@ == slot_listing(final(self).launcher, WindowKind::Launcher) + slot_listing(
                final(self).palette,
                WindowKind::Palette,
            ) + blank_listing(final(self).blanks@) + plugin_listing(final(self).plugin_windows@),
            final(self).launcher == live_slot(old(self).platform, old(self).launcher),
            final(self).palette == live_slot(old(self).platform, old(self).palette),
            final(self).blanks@ == live_blanks(old(self).platform, old(self).blanks@),
            final(self).plugin_windows@ == live_plugin_windows(
                old(self).platform,
                old(self).plugin_windows@,
            ),
            same_windows(final(self).platform, old(self).platform),
            final(self).same_settings(old(self)),
    {
        self.prune();
        let mut r: Vec<(String, WindowKind)> = Vec::new();
        match &self.launcher {
            Some(id) => {
                r.push((id.0.clone(), WindowKind::Launcher));
            },
            None => {},
        }
        match &self.palette {
            Some(id) => {
                r.push((id.0.clone(), WindowKind::Palette));
            },
            None => {},
        }
        let ghost head = r@;
        assert(head =~= slot_listing(self.launcher, WindowKind::Launcher) + slot_listing(
            self.palette,
            WindowKind::Palette,
        ));
        let mut i: usize = 0;
        while i < self.blanks.len()
            invariant
                i <= self.blanks@.len(),
                r@ == head + blank_listing(self.blanks@.subrange(0, i as int)),
            decreases self.blanks.len() - i,
        {
            r.push((self.blanks[i].id.0.clone(), WindowKind::Blank));
            assert(r@ =~= head + blank_listing(self.blanks@.subrange(0, i + 1)));
            i = i + 1;
        }
        assert(self.blanks@.subrange(0, self.blanks@.len() as int) =~= self.blanks@);
        let ghost mid = r@;
        let mut k: usize = 0;
        while k < self.plugin_windows.len()
            invariant
                k <= self.plugin_windows@.len(),
                mid == head + blank_listing(self.blanks@),
                r@ == mid + plugin_listing(self.plugin_windows@.subrange(0, k as int)),
            decreases self.plugin_windows.len() - k,
        {
            r.push(
                (
                    self.plugin_windows[k].id.0.clone(),
                    WindowKind::PureUi { plugin_id: self.plugin_windows[k].plugin_id.clone() },
                ),
            );
            assert(r@ =~= mid + plugin_listing(self.plugin_windows@.subrange(0, k + 1)));
            k = k + 1;
        }
        assert(self.plugin_windows@.subrange(0, self.plugin_windows@.len() as int)
            =~= self.plugin_windows@);
        r
    }

    /// The content windows (blanks and Plugin windows, not launcher or palette) a Window Group
    /// can be made of, after closed windows are forgotten.
    pub fn list_content_windows(&mut self) -> (r: Vec<ListedContentWindow>)
        ensures
            r@.map_values(|c: ListedContentWindow| content_view(c)) == content_listing(
                final(self).blanks@,
                final(self).plugin_windows@,
            ),
            final(self).blanks@ == live_blanks(old(self).platform, old(self).blanks@),
            final(self).plugin_windows@ == live_plugin_windows(
                old(self).platform,
                old(self).plugin_windows@,
            ),
            same_windows(final(self).platform, old(self).platform),
            final(self).same_settings(old(self)),
    {
        self.prune();
        let mut r: Vec<ListedContentWindow> = Vec::new();
        let ghost target = content_listing(self.blanks@, self.plugin_windows@);
        let mut i: usize = 0;
        while i < self.blanks.len()
            invariant
                i <= self.blanks@.len(),
                target == content_listing(self.blanks@, self.plugin_windows@),
                r@.len() == i,
                forall|j: int| 0 <= j < i ==> content_view(#[trigger] r@[j]) == target[j],
            decreases self.blanks.len() - i,
        {
            r.push(
                ListedContentWindow {
                    label: self.blanks[i].id.0.clone(),
                    kind: String::from_str("blank"),
                    plugin_id: None,
                    instance_id: Some(self.blanks[i].blank_id.clone()),
                },
            );
            i = i + 1;
        }
        let nb = self.blanks.len();
        let mut k: usize = 0;
        while k < self.plugin_windows.len()
            invariant
                k <= self.plugin_windows@.len(),
                nb == self.blanks@.len(),
                target == content_listing(self.blanks@, self.plugin_windows@),
                r@.len() == nb + k,
                forall|j: int| 0 <= j < nb + k ==> content_view(#[trigger] r@[j]) == target[j],
            decreases self.plugin_windows.len() - k,
        {
            r.push(
                ListedContentWindow {
                    label: self.plugin_windows[k].id.0.clone(),
                    kind: String::from_str("plugin"),
                    plugin_id: Some(self.plugin_windows[k].plugin_id.clone()),
                    instance_id: Some(self.plugin_windows[k].instance_id.clone()),
                },
            );
            k = k + 1;
        }
        assert(r@.map_values(|c: ListedContentWindow| content_view(c)) =~= target);
        r
    }

    /// The Plugin instances open: (Plugin id, instance id), in opening order.
    pub fn plugin_instance_ids(&mut self) -> (r: Vec<(String, String)>)
        ensures
            r@ == final(self).plugin_windows@.map_values(
                |e: PluginWindowEntry| (e.plugin_id, e.instance_id),
            ),
            final(self).plugin_windows@ == live_plugin_windows(
                old(self).platform,
                old(self).plugin_windows@,
            ),
            final(self).blanks@ == live_blanks(old(self).platform, old(self).blanks@),
            same_windows(final(self).platform, old(self).platform),
            final(self).same_settings(old(self)),
    {
        self.prune();
        let mut r: Vec<(String, String)> = Vec::new();
        let mut k: usize = 0;
        while k < self.plugin_windows.len()
            invariant
                k <= self.plugin_windows@.len(),
                r@ == self.plugin_windows@.subrange(0, k as int).map_values(
                    |e: PluginWindowEntry| (e.plugin_id, e.instance_id),
                ),
            decreases self.plugin_windows.len() - k,
        {
            r.push((self.plugin_windows[k].plugin_id.clone(), self.plugin_windows[k].instance_id.clone()));
            assert(r@ =~= self.plugin_windows@.subrange(0, k + 1).map_values(
                |e: PluginWindowEntry| (e.plugin_id, e.instance_id),
            ));
            k = k + 1;
        }
        assert(self.plugin_windows@.subrange(0, self.plugin_windows@.len() as int)
            =~= self.plugin_windows@);
        r
    }

    /// Moves or resizes the window labelled `label`.
    pub fn set_window_geometry_for_label(&mut self, label: &str, geometry: WindowGeometry)
        ensures
            !old(self).platform.window_destroyed(label@) ==> final(self).platform.geometry_of(label@)
                == Some(geometry),
            forall|w: Seq<char>| w != label@ ==> #[trigger] final(self).platform.geometry_of(w) == old(self).platform.geometry_of(w),
            forall|w: Seq<char>| #[trigger] final(self).platform.window_destroyed(w) == old(self).platform.window_destroyed(w),
            final(self).blanks == old(self).blanks,
            final(self).plugin_windows == old(self).plugin_windows,
            final(self).sidecars == old(self).sidecars,
            final(self).launcher == old(self).launcher,
            final(self).palette == old(self).palette,
            final(self).same_settings(old(self)),
    {
        let id = WindowId(String::from_str(label));
        self.platform.set_window_geometry(&id, &geometry);
    }

    /// Runs what the tray's Quit item or a shortcut asks for. `StopAndQuit` stops the Host
    /// (returning what `stop` returns) and then quits the application.
    pub fn dispatch(&mut self, command: HostCommand) -> (r: Option<WorkspaceSave>)
        ensures
            command == HostCommand::StopAndQuit ==> {
                &&& final(self).platform.quit_requested()
                &&& !final(self).running
                &&& old(self).running ==> {
                    &&& final(self).tray is None
                    &&& final(self).launcher is None
                    &&& final(self).palette is None
                    &&& final(self).blanks@.len() == 0
                    &&& final(self).plugin_windows@.len() == 0
                    &&& final(self).sidecars@.len() == 0
                    &&& (r is Some <==> old(self).workspace_path is Some)
                    &&& forall|a: Seq<char>| #[trigger] final(self).platform.shortcut_command(a) is None
                    &&& old(self).tray is Some ==> final(self).platform.tray_command() is None
                }
                &&& !old(self).running ==> r is None && final(self).blanks == old(self).blanks
                    && final(self).plugin_windows == old(self).plugin_windows
            },
            command == HostCommand::OpenCommandPalette ==> r is None && (final(self).palette matches Some(
                id,
            ) && !final(self).platform.window_destroyed(id.0@)),
            command == HostCommand::OpenLauncher ==> r is None && (final(self).launcher matches Some(id)
                && !final(self).platform.window_destroyed(id.0@)),
    {
        match command {
            HostCommand::StopAndQuit => {
                let saved = self.stop();
                self.platform.quit();
                saved
            },
            HostCommand::OpenCommandPalette => {
                self.open_command_palette();
                None
            },
            HostCommand::OpenLauncher => {
                self.open_launcher();
                None
            },
        }
    }
}

/// A copy of an optional string.
pub fn clone_opt(s: &Option<String>) -> (r: Option<String>)
    ensures
        r == *s,
{
    match s {
        Some(t) => Some(t.clone()),
        None => None,
    }
}

} // verus!
