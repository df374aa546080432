//! Window Groups: named sets of content windows, bound by stable identities (a blank window's
//! `blank_id`, a Plugin window's instance id) so they survive windows closing and restarts.

use vstd::prelude::*;

use crate::host::{
    lemma_live_all, lemma_plugin_pos, lemma_live_members, lemma_live_open, lemma_snapshot_same_windows, plugin_pos, sidecars_distinct, live_blanks, live_plugin_windows, live_slot, same_windows,
    sidecars_with_windows, BlankWindowEntry, Host, ListedWindowGroup, PluginWindowEntry,
};
use crate::ids::{is_v4_uuid_text, new_uuid};
use crate::plugin_windows::{label_pos, last_start_refused, lemma_label_pos_is};
use crate::platform::{Platform, WindowKind};
use crate::text::{trim, trim_spec};
use crate::workspace::{clone_members, WorkspaceGroup, WorkspaceGroupMember};
use vstd::seq_lib::group_filter_ensures;

verus! {

/// Index of the first blank window labelled `label`, or -1.
pub open spec fn blank_label_pos(s: Seq<BlankWindowEntry>, label: Seq<char>) -> int
    decreases s.len(),
{
    if s.len() == 0 {
        -1
    } else if s[0].id.0@ == label {
        0
    } else {
        let p = blank_label_pos(s.drop_first(), label);
        if p < 0 {
            -1
        } else {
            p + 1
        }
    }
}

proof fn lemma_blank_label_pos_is(s: Seq<BlankWindowEntry>, label: Seq<char>, i: int)
    requires
        -1 <= i < s.len(),
        i >= 0 ==> s[i].id.0@ == label,
        forall|j: int| 0 <= j < s.len() && (i < 0 || j < i) ==> #[trigger] s[j].id.0@ != label,
    ensures
        blank_label_pos(s, label) == i,
    decreases s.len(),
{
    if s.len() > 0 && i != 0 {
        let t = s.drop_first();
        assert(s[0].id.0@ != label);
        assert forall|j: int| 0 <= j < t.len() && (i - 1 < 0 || j < i - 1) implies #[trigger] t[j].id.0@
            != label by {
            assert(t[j] == s[j + 1]);
        }
        if i > 0 {
            assert(t[i - 1] == s[i]);
            lemma_blank_label_pos_is(t, label, i - 1);
        } else {
            lemma_blank_label_pos_is(t, label, -1);
        }
    }
}

/// The member a content window labelled `label` stands for: the first blank window with that
/// label, else the first Plugin window with it.
pub open spec fn member_of_label(
    b: Seq<BlankWindowEntry>,
    w: Seq<PluginWindowEntry>,
    label: Seq<char>,
) -> Option<WorkspaceGroupMember> {
    let i = blank_label_pos(b, label);
    if i >= 0 {
        Some(WorkspaceGroupMember::Blank { blank_id: b[i].blank_id })
    } else {
        let j = label_pos(w, label);
        if j >= 0 {
            Some(WorkspaceGroupMember::Plugin { plugin_id: w[j].plugin_id, instance_id: w[j].instance_id })
        } else {
            None
        }
    }
}

/// The members the content windows labelled `labels` stand for, in order, or the refusal for
/// the first label that names no content window.
pub open spec fn members_for(
    b: Seq<BlankWindowEntry>,
    w: Seq<PluginWindowEntry>,
    labels: Seq<String>,
) -> Result<Seq<WorkspaceGroupMember>, Seq<char>>
    decreases labels.len(),
{
    if labels.len() == 0 {
        Ok(Seq::empty())
    } else {
        match members_for(b, w, labels.drop_last()) {
            Err(t) => Err(t),
            Ok(ms) => match member_of_label(b, w, labels.last()@) {
                Some(m) => Ok(ms.push(m)),
                None => Err("unknown content window: "@ + labels.last()@),
            },
        }
    }
}

/// A Window Group as listed: (id, name, number of members).
pub open spec fn group_listing(s: Seq<WorkspaceGroup>) -> Seq<(Seq<char>, Seq<char>, nat)> {
    s.map_values(|g: WorkspaceGroup| (g.id@, g.name@, g.members@.len()))
}

/// A listed Window Group's content.
pub open spec fn listed_group_view(l: ListedWindowGroup) -> (Seq<char>, Seq<char>, nat) {
    (l.id@, l.name@, l.member_count as nat)
}

/// Index of the first Window Group with id `id`, or -1.
pub open spec fn group_pos(s: Seq<WorkspaceGroup>, id: Seq<char>) -> int
    decreases s.len(),
{
    if s.len() == 0 {
        -1
    } else if s[0].id@ == id {
        0
    } else {
        let p = group_pos(s.drop_first(), id);
        if p < 0 {
            -1
        } else {
            p + 1
        }
    }
}

proof fn lemma_group_pos_is(s: Seq<WorkspaceGroup>, id: Seq<char>, i: int)
    requires
        -1 <= i < s.len(),
        i >= 0 ==> s[i].id@ == id,
        forall|j: int| 0 <= j < s.len() && (i < 0 || j < i) ==> #[trigger] s[j].id@ != id,
    ensures
        group_pos(s, id) == i,
    decreases s.len(),
{
    if s.len() > 0 && i != 0 {
        let t = s.drop_first();
        assert(s[0].id@ != id);
        assert forall|j: int| 0 <= j < t.len() && (i - 1 < 0 || j < i - 1) implies #[trigger] t[j].id@
            != id by {
            assert(t[j] == s[j + 1]);
        }
        if i > 0 {
            assert(t[i - 1] == s[i]);
            lemma_group_pos_is(t, id, i - 1);
        } else {
            lemma_group_pos_is(t, id, -1);
        }
    }
}

/// The blank identity a member names, if it names a blank window.
pub open spec fn member_blank(m: WorkspaceGroupMember) -> Option<Seq<char>> {
    match m {
        WorkspaceGroupMember::Blank { blank_id } => Some(blank_id@),
        WorkspaceGroupMember::Plugin { .. } => None,
    }
}

/// The Plugin instance a member names, if it names a Plugin window.
pub open spec fn member_instance(m: WorkspaceGroupMember) -> Option<Seq<char>> {
    match m {
        WorkspaceGroupMember::Blank { .. } => None,
        WorkspaceGroupMember::Plugin { instance_id, .. } => Some(instance_id@),
    }
}

/// Some member of `ms` names the blank identity `b`.
pub open spec fn names_blank(ms: Seq<WorkspaceGroupMember>, b: Seq<char>) -> bool {
    exists|k: int| 0 <= k < ms.len() && #[trigger] member_blank(ms[k]) == Some(b)
}

/// Some member of `ms` names the Plugin instance `i`.
pub open spec fn names_instance(ms: Seq<WorkspaceGroupMember>, i: Seq<char>) -> bool {
    exists|k: int| 0 <= k < ms.len() && #[trigger] member_instance(ms[k]) == Some(i)
}

/// Keeps the blank windows whose identity is not `b`.
pub open spec fn keeps_blank(b: Seq<char>) -> spec_fn(BlankWindowEntry) -> bool {
    |e: BlankWindowEntry| e.blank_id@ != b
}

/// Keeps the Plugin windows that do not show instance `i`.
pub open spec fn keeps_instance(i: Seq<char>) -> spec_fn(PluginWindowEntry) -> bool {
    |e: PluginWindowEntry| e.instance_id@ != i
}

/// The blank windows of `s` left once the members `ms` are closed, member by member.
pub open spec fn blanks_outside(s: Seq<BlankWindowEntry>, ms: Seq<WorkspaceGroupMember>) -> Seq<
    BlankWindowEntry,
>
    decreases ms.len(),
{
    if ms.len() == 0 {
        s
    } else {
        let rest = blanks_outside(s, ms.drop_last());
        match member_blank(ms.last()) {
            Some(b) => rest.filter(keeps_blank(b)),
            None => rest,
        }
    }
}

/// The Plugin windows of `s` left once the members `ms` are closed, member by member.
pub open spec fn windows_outside(s: Seq<PluginWindowEntry>, ms: Seq<WorkspaceGroupMember>) -> Seq<
    PluginWindowEntry,
>
    decreases ms.len(),
{
    if ms.len() == 0 {
        s
    } else {
        let rest = windows_outside(s, ms.drop_last());
        match member_instance(ms.last()) {
            Some(i) => rest.filter(keeps_instance(i)),
            None => rest,
        }
    }
}

/// `m` is a Plugin member whose Plugin is registered and privileged (opening it may have to
/// start a Sidecar).
pub open spec fn member_privileged(plugins: Seq<crate::manifest::Manifest>, m: WorkspaceGroupMember) -> bool {
    match m {
        WorkspaceGroupMember::Blank { .. } => false,
        WorkspaceGroupMember::Plugin { plugin_id, .. } => {
            let p = plugin_pos(plugins, plugin_id@);
            p >= 0 && plugins[p].sidecar is Some
        },
    }
}

/// Plugin `plugin_id` is registered and has no Sidecar to start.
pub open spec fn opens_without_sidecar(plugins: Seq<crate::manifest::Manifest>, plugin_id: Seq<char>) -> bool {
    let p = plugin_pos(plugins, plugin_id);
    p >= 0 && plugins[p].sidecar is None
}

/// `w` labels one of the windows of `b` and `pw` that the members `ms` name.
pub open spec fn closed_label(
    b: Seq<BlankWindowEntry>,
    pw: Seq<PluginWindowEntry>,
    ms: Seq<WorkspaceGroupMember>,
    w: Seq<char>,
) -> bool {
    ||| exists|e: BlankWindowEntry| #[trigger] b.contains(e) && e.id.0@ == w && names_blank(ms, e.blank_id@)
    ||| exists|e: PluginWindowEntry|
        #[trigger] pw.contains(e) && e.id.0@ == w && names_instance(ms, e.instance_id@)
}

proof fn lemma_names_last(ms: Seq<WorkspaceGroupMember>, x: Seq<char>)
    requires
        ms.len() > 0,
    ensures
        names_blank(ms, x) <==> names_blank(ms.drop_last(), x) || member_blank(ms.last()) == Some(x),
        names_instance(ms, x) <==> names_instance(ms.drop_last(), x) || member_instance(ms.last())
            == Some(x),
{
    let t = ms.drop_last();
    if names_blank(ms, x) {
        let k = choose|k: int| 0 <= k < ms.len() && #[trigger] member_blank(ms[k]) == Some(x);
        if k < ms.len() - 1 {
            assert(t[k] == ms[k]);
        }
    }
    if names_blank(t, x) {
        let k = choose|k: int| 0 <= k < t.len() && #[trigger] member_blank(t[k]) == Some(x);
        assert(t[k] == ms[k]);
    }
    if member_blank(ms.last()) == Some(x) {
        assert(member_blank(ms[ms.len() - 1]) == Some(x));
    }
    if names_instance(ms, x) {
        let k = choose|k: int| 0 <= k < ms.len() && #[trigger] member_instance(ms[k]) == Some(x);
        if k < ms.len() - 1 {
            assert(t[k] == ms[k]);
        }
    }
    if names_instance(t, x) {
        let k = choose|k: int| 0 <= k < t.len() && #[trigger] member_instance(t[k]) == Some(x);
        assert(t[k] == ms[k]);
    }
    if member_instance(ms.last()) == Some(x) {
        assert(member_instance(ms[ms.len() - 1]) == Some(x));
    }
}

proof fn lemma_filter_member<A>(s: Seq<A>, p: spec_fn(A) -> bool, e: A)
    ensures
        s.filter(p).contains(e) <==> s.contains(e) && p(e),
{
    broadcast use group_filter_ensures;

    if s.filter(p).contains(e) {
        s.lemma_filter_contains_rev(p, e);
        let j = choose|j: int| 0 <= j < s.filter(p).len() && s.filter(p)[j] == e;
        s.lemma_filter_pred(p, j);
    }
    if s.contains(e) && p(e) {
        let j = choose|j: int| 0 <= j < s.len() && s[j] == e;
        s.lemma_filter_contains(p, j);
    }
}

/// A blank window is left by closing the members `ms` exactly when no member names it.
pub proof fn lemma_blanks_outside(s: Seq<BlankWindowEntry>, ms: Seq<WorkspaceGroupMember>, e: BlankWindowEntry)
    ensures
        blanks_outside(s, ms).contains(e) <==> s.contains(e) && !names_blank(ms, e.blank_id@),
    decreases ms.len(),
{
    if ms.len() > 0 {
        lemma_blanks_outside(s, ms.drop_last(), e);
        lemma_names_last(ms, e.blank_id@);
        let rest = blanks_outside(s, ms.drop_last());
        match member_blank(ms.last()) {
            Some(b) => {
                lemma_filter_member(rest, keeps_blank(b), e);
            },
            None => {},
        }
    }
}

/// A Plugin window is left by closing the members `ms` exactly when no member names its
/// instance.
pub proof fn lemma_windows_outside(s: Seq<PluginWindowEntry>, ms: Seq<WorkspaceGroupMember>, e: PluginWindowEntry)
    ensures
        windows_outside(s, ms).contains(e) <==> s.contains(e) && !names_instance(ms, e.instance_id@),
    decreases ms.len(),
{
    if ms.len() > 0 {
        lemma_windows_outside(s, ms.drop_last(), e);
        lemma_names_last(ms, e.instance_id@);
        let rest = windows_outside(s, ms.drop_last());
        match member_instance(ms.last()) {
            Some(i) => {
                lemma_filter_member(rest, keeps_instance(i), e);
            },
            None => {},
        }
    }
}

impl<P: Platform> Host<P> {
    fn blank_window_index(&self, label: &String) -> (r: Option<usize>)
        ensures
            match r {
                Some(i) => i < self.blanks@.len() && i as int == blank_label_pos(self.blanks@, label@),
                None => blank_label_pos(self.blanks@, label@) == -1,
            },
    {
        let mut i: usize = 0;
        while i < self.blanks.len()
            invariant
                i <= self.blanks@.len(),
                forall|j: int| 0 <= j < i ==> #[trigger] self.blanks@[j].id.0@ != label@,
            decreases self.blanks.len() - i,
        {
            if self.blanks[i].id.0 == *label {
                proof {
                    lemma_blank_label_pos_is(self.blanks@, label@, i as int);
                }
                return Some(i);
            }
            i = i + 1;
        }
        proof {
            lemma_blank_label_pos_is(self.blanks@, label@, -1);
        }
        None
    }

    /// The member the content window labelled `label` stands for.
    fn member_for_label(&self, label: &String) -> (r: Option<WorkspaceGroupMember>)
        ensures
            r == member_of_label(self.blanks@, self.plugin_windows@, label@),
    {
        match self.blank_window_index(label) {
            Some(i) => Some(WorkspaceGroupMember::Blank { blank_id: self.blanks[i].blank_id.clone() }),
            None => match self.plugin_window_index(label.as_str()) {
                Some(j) => Some(
                    WorkspaceGroupMember::Plugin {
                        plugin_id: self.plugin_windows[j].plugin_id.clone(),
                        instance_id: self.plugin_windows[j].instance_id.clone(),
                    },
                ),
                None => None,
            },
        }
    }

    /// Binds the content windows labelled `window_labels` into a new Window Group named `name`
    /// (trimmed), after closed windows are forgotten.
    #[verifier::loop_isolation(false)]
    pub fn create_window_group(&mut self, name: &str, window_labels: &Vec<String>) -> (r: Result<
        ListedWindowGroup,
        String,
    >)
        ensures
            trim_spec(name@).len() == 0 ==> (r matches Err(e) && e@ == "Window Group name is required"@)
                && *final(self) == *old(self),
            trim_spec(name@).len() > 0 && window_labels@.len() == 0 ==> (r matches Err(e) && e@
                == "Window Group needs at least one window"@) && *final(self) == *old(self),
            trim_spec(name@).len() > 0 && window_labels@.len() > 0 ==> {
                &&& final(self).blanks@ == live_blanks(old(self).platform, old(self).blanks@)
                &&& final(self).plugin_windows@ == old(self).open_plugin_windows()
                &&& final(self).sidecars@ == old(self).kept_sidecars()
                &&& final(self).launcher == live_slot(old(self).platform, old(self).launcher)
                &&& final(self).palette == live_slot(old(self).platform, old(self).palette)
                &&& same_windows(final(self).platform, old(self).platform)
                &&& final(self).platform.quit_requested() == old(self).platform.quit_requested()
                &&& match members_for(final(self).blanks@, final(self).plugin_windows@, window_labels@) {
                    Err(t) => (r matches Err(e) && e@ == t) && final(self).window_groups
                        == old(self).window_groups,
                    Ok(ms) => r matches Ok(l) && {
                        &&& l.name@ == trim_spec(name@)
                        &&& l.member_count == ms.len()
                        &&& is_v4_uuid_text(l.id@)
                        &&& final(self).window_groups@.len() == old(self).window_groups@.len() + 1
                        &&& final(self).window_groups@.drop_last() == old(self).window_groups@
                        &&& final(self).window_groups@.last().id == l.id
                        &&& final(self).window_groups@.last().name == l.name
                        &&& final(self).window_groups@.last().members@ == ms
                    },
                }
            },
            final(self).bus == old(self).bus,
            final(self).same_base(old(self)),
    {
        let n = trim(name);
        if n.as_str().unicode_len() == 0 {
            return Err(String::from_str("Window Group name is required"));
        }
        if window_labels.len() == 0 {
            return Err(String::from_str("Window Group needs at least one window"));
        }
        self.prune();
        let mut members: Vec<WorkspaceGroupMember> = Vec::new();
        let mut i: usize = 0;
        while i < window_labels.len()
            invariant
                i <= window_labels@.len(),
                members_for(self.blanks@, self.plugin_windows@, window_labels@.subrange(0, i as int))
                    == Ok::<Seq<WorkspaceGroupMember>, Seq<char>>(members@),
            decreases window_labels.len() - i,
        {
            proof {
                let next = window_labels@.subrange(0, i + 1);
                assert(next.drop_last() =~= window_labels@.subrange(0, i as int));
            }
            match self.member_for_label(&window_labels[i]) {
                Some(m) => {
                    members.push(m);
                },
                None => {
                    proof {
                        let next = window_labels@.subrange(0, i + 1);
                        let full = window_labels@;
                        lemma_members_for_err_extends(
                            self.blanks@,
                            self.plugin_windows@,
                            full,
                            i + 1,
                        );
                    }
                    return Err(String::from_str("unknown content window: ").concat(window_labels[i].as_str()));
                },
            }
            i = i + 1;
        }
        assert(window_labels@.subrange(0, window_labels@.len() as int) =~= window_labels@);
        let id = new_uuid();
        let count = members.len();
        let listed = ListedWindowGroup { id: id.clone(), name: n.clone(), member_count: count };
        let ghost before = self.window_groups@;
        self.window_groups.push(WorkspaceGroup { id, name: n, members });
        assert(self.window_groups@.drop_last() =~= before);
        Ok(listed)
    }

    /// Opens a fresh instance of each Plugin of `plugin_ids`, in order, and binds the new
    /// windows into a Window Group named `name` (trimmed). Stops at the first Plugin that is not
    /// registered or whose Sidecar fails to start (the windows opened before stay open).
    #[verifier::loop_isolation(false)]
    pub fn open_window_group_declared(&mut self, name: &str, plugin_ids: &Vec<String>) -> (r: Result<
        ListedWindowGroup,
        String,
    >)
        ensures
            trim_spec(name@).len() == 0 ==> (r matches Err(e) && e@ == "Window Group name is required"@)
                && *final(self) == *old(self),
            trim_spec(name@).len() > 0 && plugin_ids@.len() == 0 ==> (r matches Err(e) && e@
                == "Window Group needs at least one Plugin"@) && *final(self) == *old(self),
            trim_spec(name@).len() > 0 && plugin_ids@.len() > 0 && (forall|k: int|
                0 <= k < plugin_ids@.len() ==> #[trigger] opens_without_sidecar(
                    old(self).plugins@,
                    plugin_ids@[k]@,
                )) ==> r is Ok,
            r is Err && trim_spec(name@).len() > 0 && plugin_ids@.len() > 0 ==> exists|k: int|
                0 <= k < plugin_ids@.len() && !#[trigger] opens_without_sidecar(
                    old(self).plugins@,
                    plugin_ids@[k]@,
                ),
            r is Err && trim_spec(name@).len() > 0 && plugin_ids@.len() > 0 && (forall|k: int|
                0 <= k < plugin_ids@.len() ==> plugin_pos(old(self).plugins@, #[trigger] plugin_ids@[k]@) >= 0)
                ==> old(self).platform.spawn_log().len() < final(self).platform.spawn_log().len()
                && last_start_refused(final(self).platform.spawn_log(), old(self).plugins@),
            r matches Ok(l) ==> {
                let base = old(self).open_plugin_windows().len();
                &&& l.name@ == trim_spec(name@)
                &&& l.member_count == plugin_ids@.len()
                &&& is_v4_uuid_text(l.id@)
                &&& final(self).window_groups@.len() == old(self).window_groups@.len() + 1
                &&& final(self).window_groups@.drop_last() == old(self).window_groups@
                &&& final(self).window_groups@.last().id == l.id
                &&& final(self).window_groups@.last().name == l.name
                &&& final(self).window_groups@.last().members@.len() == plugin_ids@.len()
                &&& final(self).plugin_windows@.len() == base + plugin_ids@.len()
                &&& final(self).plugin_windows@.subrange(0, base as int) == old(self).open_plugin_windows()
                &&& forall|j: int|
                    0 <= j < plugin_ids@.len() ==> #[trigger] final(self).window_groups@.last().members@[j]
                        == (WorkspaceGroupMember::Plugin {
                        plugin_id: plugin_ids@[j],
                        instance_id: final(self).plugin_windows@[base + j].instance_id,
                    })
                &&& forall|j: int|
                    0 <= j < plugin_ids@.len() ==> (#[trigger] final(self).plugin_windows@[base + j]).plugin_id
                        == plugin_ids@[j] && !final(self).platform.window_destroyed(
                        final(self).plugin_windows@[base + j].id.0@,
                    )
            },
            final(self).same_base(old(self)),
    {
        let n = trim(name);
        if n.as_str().unicode_len() == 0 {
            return Err(String::from_str("Window Group name is required"));
        }
        if plugin_ids.len() == 0 {
            return Err(String::from_str("Window Group needs at least one Plugin"));
        }
        let ghost base = old(self).open_plugin_windows().len();
        let mut labels: Vec<String> = Vec::new();
        let mut k: usize = 0;
        while k < plugin_ids.len()
            invariant
                k <= plugin_ids@.len(),
                labels@.len() == k,
                trim_spec(name@).len() > 0,
                plugin_ids@.len() > 0,
                self.same_config(old(self)),
                k == 0 ==> *self == *old(self),
                self.platform.spawn_log().len() >= old(self).platform.spawn_log().len(),
                k > 0 ==> self.windows_live(),
                k > 0 ==> self.blanks@ == live_blanks(old(self).platform, old(self).blanks@),
                k > 0 ==> self.plugin_windows@.len() == base + k,
                k > 0 ==> self.plugin_windows@.subrange(0, base as int) == old(self).open_plugin_windows(),
                forall|j: int|
                    0 <= j < k ==> (#[trigger] self.plugin_windows@[base + j]).id.0@ == labels@[j]@
                        && self.plugin_windows@[base + j].plugin_id == plugin_ids@[j],
                forall|j: int, t: int|
                    0 <= j < k && 0 <= t < base + j ==> (#[trigger] self.plugin_windows@[t]).id.0@
                        != (#[trigger] labels@[j])@,
                forall|j: int, t: int|
                    0 <= j < k && 0 <= t < self.blanks@.len() ==> (#[trigger] self.blanks@[t]).id.0@
                        != (#[trigger] labels@[j])@,
            decreases plugin_ids.len() - k,
        {
            let pid = &plugin_ids[k];
            if self.find_plugin(pid).is_none() {
                assert(!opens_without_sidecar(old(self).plugins@, plugin_ids@[k as int]@));
                return Err(String::from_str("unknown Plugin: ").concat(pid.as_str()));
            }
            let instance_id = new_uuid();
            let ghost pre = *self;
            let ghost pre_labels = labels@;
            proof {
                lemma_live_open(pre.platform, pre.blanks@, pre.plugin_windows@);
                if k > 0 {
                    lemma_live_all(pre.platform, pre.blanks@, pre.plugin_windows@);
                }
            }
            let window = match self.open_plugin_instance(pid, &instance_id, None) {
                Ok(Some(w)) => w,
                Ok(None) => {
                    return Err(String::from_str("unknown Plugin: ").concat(pid.as_str()));
                },
                Err(e) => {
                    assert(!opens_without_sidecar(old(self).plugins@, plugin_ids@[k as int]@));
                    proof {
                        lemma_plugin_pos(pre.plugins@, pid@);
                    }
                    return Err(e);
                },
            };
            labels.push(window.0.clone());
            proof {
                let w = self.plugin_windows@;
                let open0 = pre.open_plugin_windows();
                assert(w.len() == base + k + 1);
                assert forall|t: int| 0 <= t < base + k implies #[trigger] w[t] == open0[t] by {}
                assert(w.subrange(0, base as int) =~= old(self).open_plugin_windows()) by {
                    if k > 0 {
                        assert forall|t: int| 0 <= t < base implies w[t] == old(self).open_plugin_windows()[t] by {
                            assert(pre.plugin_windows@.subrange(0, base as int)[t] == pre.plugin_windows@[t]);
                        }
                    }
                }
                assert forall|t: int| 0 <= t < base + k implies !pre.platform.window_destroyed(
                    #[trigger] w[t].id.0@,
                ) by {
                    assert(w[t] == open0[t]);
                }
                assert forall|t: int| 0 <= t < self.blanks@.len() implies !pre.platform.window_destroyed(
                    #[trigger] self.blanks@[t].id.0@,
                ) by {}
                assert forall|j: int| 0 <= j < k + 1 implies (#[trigger] w[base + j]).id.0@ == labels@[j]@
                    && w[base + j].plugin_id == plugin_ids@[j] by {
                    if j < k {
                        assert(labels@[j] == pre_labels[j]);
                        assert(w[base + j] == pre.plugin_windows@[base + j]);
                    }
                }
                assert forall|j: int, t: int| 0 <= j < k + 1 && 0 <= t < base + j implies (#[trigger] w[t]).id.0@
                    != (#[trigger] labels@[j])@ by {
                    if j < k {
                        assert(labels@[j] == pre_labels[j]);
                        assert(w[t] == pre.plugin_windows@[t]);
                    } else {
                        assert(!pre.platform.window_destroyed(w[t].id.0@));
                    }
                }
                assert forall|j: int, t: int| 0 <= j < k + 1 && 0 <= t < self.blanks@.len() implies (
                #[trigger] self.blanks@[t]).id.0@ != (#[trigger] labels@[j])@ by {
                    if j < k {
                        assert(labels@[j] == pre_labels[j]);
                        assert(self.blanks@[t] == pre.blanks@[t]);
                    } else {
                        assert(!pre.platform.window_destroyed(self.blanks@[t].id.0@));
                    }
                }
                assert forall|t: int| 0 <= t < self.blanks@.len() implies !self.platform.window_destroyed(
                    #[trigger] self.blanks@[t].id.0@,
                ) by {
                    assert(!pre.platform.window_destroyed(self.blanks@[t].id.0@));
                }
                assert forall|t: int| 0 <= t < w.len() implies !self.platform.window_destroyed(
                    #[trigger] w[t].id.0@,
                ) by {
                    if t < base + k {
                        assert(!pre.platform.window_destroyed(w[t].id.0@));
                    }
                }
                if k > 0 {
                    assert(self.blanks@ == pre.blanks@);
                }
            }
            k = k + 1;
        }
        let ghost looped = *self;
        proof {
            lemma_live_all(self.platform, self.blanks@, self.plugin_windows@);
            let b = self.blanks@;
            let w = self.plugin_windows@;
            let ms = Seq::new(
                plugin_ids@.len(),
                |j: int| WorkspaceGroupMember::Plugin { plugin_id: plugin_ids@[j], instance_id: w[base + j].instance_id },
            );
            assert forall|j: int| 0 <= j < labels@.len() implies #[trigger] member_of_label(b, w, labels@[j]@)
                == Some(ms[j]) by {
                lemma_blank_label_pos_is(b, labels@[j]@, -1);
                assert forall|t: int| 0 <= t < w.len() && t < base + j implies #[trigger] w[t].id.0@ != labels@[j]@ by {}
                lemma_label_pos_is(w, labels@[j]@, base + j);
            }
            lemma_members_for_each(b, w, labels@, ms);
        }
        let r = self.create_window_group(name, &labels);
        proof {
            if r is Ok {
                assert forall|j: int| 0 <= j < plugin_ids@.len() implies (#[trigger] self.plugin_windows@[base + j]).plugin_id
                    == plugin_ids@[j] && !self.platform.window_destroyed(self.plugin_windows@[base + j].id.0@) by {
                    assert(looped.plugin_windows@[base + j] == self.plugin_windows@[base + j]);
                    assert(!looped.platform.window_destroyed(looped.plugin_windows@[base + j].id.0@));
                }
            }
        }
        r
    }

    /// The Window Groups, in creation order.
    pub fn list_window_groups(&self) -> (r: Vec<ListedWindowGroup>)
        ensures
            r@.map_values(|l: ListedWindowGroup| listed_group_view(l)) == group_listing(
                self.window_groups@,
            ),
    {
        let mut r: Vec<ListedWindowGroup> = Vec::new();
        let mut i: usize = 0;
        while i < self.window_groups.len()
            invariant
                i <= self.window_groups@.len(),
                r@.len() == i,
                forall|j: int|
                    0 <= j < i ==> listed_group_view(#[trigger] r@[j]) == group_listing(
                        self.window_groups@,
                    )[j],
            decreases self.window_groups.len() - i,
        {
            let g = &self.window_groups[i];
            r.push(
                ListedWindowGroup { id: g.id.clone(), name: g.name.clone(), member_count: g.members.len() },
            );
            i = i + 1;
        }
        assert(r@.map_values(|l: ListedWindowGroup| listed_group_view(l)) =~= group_listing(
            self.window_groups@,
        ));
        r
    }

    /// Closes the blank windows with identity `b` and forgets them.
    fn close_blanks_named(&mut self, b: &String)
        ensures
            final(self).blanks@ == old(self).blanks@.filter(keeps_blank(b@)),
            forall|e: BlankWindowEntry|
                old(self).blanks@.contains(e) && e.blank_id@ == b@ ==> #[trigger] final(self).platform.window_destroyed(
                    e.id.0@,
                ),
            forall|w: Seq<char>|
                !(exists|e: BlankWindowEntry|
                    #[trigger] old(self).blanks@.contains(e) && e.blank_id@ == b@ && e.id.0@ == w)
                    ==> #[trigger] final(self).platform.window_destroyed(w)
                    == old(self).platform.window_destroyed(w),
            forall|w: Seq<char>| #[trigger] final(self).platform.geometry_of(w) == old(self).platform.geometry_of(w),
            forall|x: Seq<char>| #[trigger] final(self).platform.sidecar_running(x) == old(self).platform.sidecar_running(x),
            final(self).platform.quit_requested() == old(self).platform.quit_requested(),
            final(self).plugin_windows == old(self).plugin_windows,
            final(self).sidecars == old(self).sidecars,
            final(self).launcher == old(self).launcher,
            final(self).palette == old(self).palette,
            final(self).same_settings(old(self)),
    {
        broadcast use group_filter_ensures;

        let mut entries: Vec<BlankWindowEntry> = Vec::new();
        core::mem::swap(&mut entries, &mut self.blanks);
        let ghost all = entries@;
        let ghost p = keeps_blank(b@);
        let mut kept: Vec<BlankWindowEntry> = Vec::new();
        let ghost mut done: int = 0;
        while entries.len() > 0
            invariant
                0 <= done <= all.len(),
                all == old(self).blanks@,
                p == keeps_blank(b@),
                entries@ == all.subrange(done, all.len() as int),
                kept@ == all.subrange(0, done).filter(p),
                forall|j: int|
                    0 <= j < done && all[j].blank_id@ == b@ ==> self.platform.window_destroyed(
                        #[trigger] all[j].id.0@,
                    ),
                forall|w: Seq<char>|
                    (forall|j: int| 0 <= j < done && all[j].blank_id@ == b@ ==> #[trigger] all[j].id.0@ != w)
                        ==> #[trigger] self.platform.window_destroyed(w)
                        == old(self).platform.window_destroyed(w),
                forall|w: Seq<char>| #[trigger] self.platform.geometry_of(w) == old(self).platform.geometry_of(w),
                forall|x: Seq<char>| #[trigger] self.platform.sidecar_running(x) == old(self).platform.sidecar_running(x),
                self.platform.quit_requested() == old(self).platform.quit_requested(),
                self.blanks@.len() == 0,
                self.plugin_windows == old(self).plugin_windows,
                self.sidecars == old(self).sidecars,
                self.launcher == old(self).launcher,
                self.palette == old(self).palette,
                self.same_settings(old(self)),
            decreases entries.len(),
        {
            let e = entries.remove(0);
            assert(e == all[done]);
            let ghost ge = e;
            let named = e.blank_id == *b;
            if named {
                self.platform.close_window(&e.id);
            } else {
                kept.push(e);
            }
            proof {
                let next = all.subrange(0, done + 1);
                assert(next =~= all.subrange(0, done).push(ge));
                all.subrange(0, done).lemma_filter_push(ge, p);
                done = done + 1;
            }
            assert(entries@ =~= all.subrange(done, all.len() as int));
        }
        assert(all.subrange(0, all.len() as int) =~= all);
        self.blanks = kept;
        proof {
            assert forall|e: BlankWindowEntry|
                old(self).blanks@.contains(e) && e.blank_id@ == b@ implies #[trigger] self.platform.window_destroyed(
                e.id.0@,
            ) by {
                let j = choose|j: int| 0 <= j < all.len() && all[j] == e;
                assert(all[j].blank_id@ == b@);
            }
            assert forall|w: Seq<char>|
                !(exists|e: BlankWindowEntry|
                    #[trigger] old(self).blanks@.contains(e) && e.blank_id@ == b@ && e.id.0@ == w)
                    implies #[trigger] self.platform.window_destroyed(w)
                    == old(self).platform.window_destroyed(w) by {
                assert forall|j: int| 0 <= j < all.len() && all[j].blank_id@ == b@ implies #[trigger] all[j].id.0@
                    != w by {
                    assert(all.contains(all[j]));
                }
            }
        }
    }

    /// Closes the Plugin windows showing instance `instance` and forgets them.
    fn close_instances_named(&mut self, instance: &String)
        ensures
            final(self).plugin_windows@ == old(self).plugin_windows@.filter(keeps_instance(instance@)),
            forall|e: PluginWindowEntry|
                old(self).plugin_windows@.contains(e) && e.instance_id@ == instance@ ==> #[trigger] final(self).platform.window_destroyed(
                    e.id.0@,
                ),
            forall|w: Seq<char>|
                !(exists|e: PluginWindowEntry|
                    #[trigger] old(self).plugin_windows@.contains(e) && e.instance_id@ == instance@
                        && e.id.0@ == w) ==> #[trigger] final(self).platform.window_destroyed(w)
                    == old(self).platform.window_destroyed(w),
            forall|w: Seq<char>| #[trigger] final(self).platform.geometry_of(w) == old(self).platform.geometry_of(w),
            forall|x: Seq<char>| #[trigger] final(self).platform.sidecar_running(x) == old(self).platform.sidecar_running(x),
            final(self).platform.quit_requested() == old(self).platform.quit_requested(),
            final(self).blanks == old(self).blanks,
            final(self).sidecars == old(self).sidecars,
            final(self).launcher == old(self).launcher,
            final(self).palette == old(self).palette,
            final(self).same_settings(old(self)),
    {
        broadcast use group_filter_ensures;

        let mut entries: Vec<PluginWindowEntry> = Vec::new();
        core::mem::swap(&mut entries, &mut self.plugin_windows);
        let ghost all = entries@;
        let ghost p = keeps_instance(instance@);
        let mut kept: Vec<PluginWindowEntry> = Vec::new();
        let ghost mut done: int = 0;
        while entries.len() > 0
            invariant
                0 <= done <= all.len(),
                all == old(self).plugin_windows@,
                p == keeps_instance(instance@),
                entries@ == all.subrange(done, all.len() as int),
                kept@ == all.subrange(0, done).filter(p),
                forall|j: int|
                    0 <= j < done && all[j].instance_id@ == instance@ ==> self.platform.window_destroyed(
                        #[trigger] all[j].id.0@,
                    ),
                forall|w: Seq<char>|
                    (forall|j: int|
                        0 <= j < done && all[j].instance_id@ == instance@ ==> #[trigger] all[j].id.0@ != w)
                        ==> #[trigger] self.platform.window_destroyed(w)
                        == old(self).platform.window_destroyed(w),
                forall|w: Seq<char>| #[trigger] self.platform.geometry_of(w) == old(self).platform.geometry_of(w),
                forall|x: Seq<char>| #[trigger] self.platform.sidecar_running(x) == old(self).platform.sidecar_running(x),
                self.platform.quit_requested() == old(self).platform.quit_requested(),
                self.plugin_windows@.len() == 0,
                self.blanks == old(self).blanks,
                self.sidecars == old(self).sidecars,
                self.launcher == old(self).launcher,
                self.palette == old(self).palette,
                self.same_settings(old(self)),
            decreases entries.len(),
        {
            let e = entries.remove(0);
            assert(e == all[done]);
            let ghost ge = e;
            let named = e.instance_id == *instance;
            if named {
                self.platform.close_window(&e.id);
            } else {
                kept.push(e);
            }
            proof {
                let next = all.subrange(0, done + 1);
                assert(next =~= all.subrange(0, done).push(ge));
                all.subrange(0, done).lemma_filter_push(ge, p);
                done = done + 1;
            }
            assert(entries@ =~= all.subrange(done, all.len() as int));
        }
        assert(all.subrange(0, all.len() as int) =~= all);
        self.plugin_windows = kept;
        proof {
            assert forall|e: PluginWindowEntry|
                old(self).plugin_windows@.contains(e) && e.instance_id@ == instance@ implies #[trigger] self.platform.window_destroyed(
                e.id.0@,
            ) by {
                let j = choose|j: int| 0 <= j < all.len() && all[j] == e;
                assert(all[j].instance_id@ == instance@);
            }
            assert forall|w: Seq<char>|
                !(exists|e: PluginWindowEntry|
                    #[trigger] old(self).plugin_windows@.contains(e) && e.instance_id@ == instance@
                        && e.id.0@ == w) implies #[trigger] self.platform.window_destroyed(w)
                    == old(self).platform.window_destroyed(w) by {
                assert forall|j: int| 0 <= j < all.len() && all[j].instance_id@ == instance@ implies #[trigger] all[j].id.0@
                    != w by {
                    assert(all.contains(all[j]));
                }
            }
        }
    }

    /// Closes the open member windows of Window Group `group_id` (the group itself stays),
    /// then forgets closed windows.
    pub fn close_window_group(&mut self, group_id: &str) -> (r: Result<(), String>)
        ensures
            group_pos(old(self).window_groups@, group_id@) < 0 ==> (r matches Err(e) && e@
                == "unknown Window Group: "@ + group_id@) && *final(self) == *old(self),
            group_pos(old(self).window_groups@, group_id@) >= 0 ==> r is Ok && {
                let ms = old(self).window_groups@[group_pos(old(self).window_groups@, group_id@)].members@;
                &&& final(self).blanks@ == live_blanks(
                    final(self).platform,
                    blanks_outside(old(self).blanks@, ms),
                )
                &&& final(self).plugin_windows@ == live_plugin_windows(
                    final(self).platform,
                    windows_outside(old(self).plugin_windows@, ms),
                )
                &&& forall|e: BlankWindowEntry|
                    old(self).blanks@.contains(e) && names_blank(ms, e.blank_id@)
                        ==> #[trigger] final(self).platform.window_destroyed(e.id.0@)
                &&& forall|e: PluginWindowEntry|
                    old(self).plugin_windows@.contains(e) && names_instance(ms, e.instance_id@)
                        ==> #[trigger] final(self).platform.window_destroyed(e.id.0@)
                &&& forall|w: Seq<char>|
                    !closed_label(old(self).blanks@, old(self).plugin_windows@, ms, w)
                        ==> #[trigger] final(self).platform.window_destroyed(w)
                        == old(self).platform.window_destroyed(w)
                &&& forall|w: Seq<char>| #[trigger] final(self).platform.geometry_of(w)
                    == old(self).platform.geometry_of(w)
                &&& final(self).sidecars@ == sidecars_with_windows(
                    old(self).sidecars@,
                    final(self).plugin_windows@,
                )
            },
            final(self).window_groups == old(self).window_groups,
            final(self).bus == old(self).bus,
            final(self).same_base(old(self)),
    {
        let gi = match self.group_index(group_id) {
            Some(i) => i,
            None => {
                return Err(String::from_str("unknown Window Group: ").concat(group_id));
            },
        };
        let members = clone_members(&self.window_groups[gi].members);
        let ghost ms = members@;
        let ghost ob = self.blanks@;
        let ghost opw = self.plugin_windows@;
        let mut k: usize = 0;
        while k < members.len()
            invariant
                k <= members@.len(),
                ms == members@,
                ob == old(self).blanks@,
                opw == old(self).plugin_windows@,
                self.blanks@ == blanks_outside(ob, ms.subrange(0, k as int)),
                self.plugin_windows@ == windows_outside(opw, ms.subrange(0, k as int)),
                forall|e: BlankWindowEntry|
                    ob.contains(e) && names_blank(ms.subrange(0, k as int), e.blank_id@)
                        ==> #[trigger] self.platform.window_destroyed(e.id.0@),
                forall|e: PluginWindowEntry|
                    opw.contains(e) && names_instance(ms.subrange(0, k as int), e.instance_id@)
                        ==> #[trigger] self.platform.window_destroyed(e.id.0@),
                forall|w: Seq<char>|
                    !closed_label(ob, opw, ms.subrange(0, k as int), w)
                        ==> #[trigger] self.platform.window_destroyed(w)
                        == old(self).platform.window_destroyed(w),
                forall|w: Seq<char>| #[trigger] self.platform.geometry_of(w) == old(self).platform.geometry_of(w),
                self.platform.quit_requested() == old(self).platform.quit_requested(),
                self.sidecars == old(self).sidecars,
                self.launcher == old(self).launcher,
                self.palette == old(self).palette,
                self.same_settings(old(self)),
            decreases members.len() - k,
        {
            let ghost pre = self.platform;
            let ghost cur_b = self.blanks@;
            let ghost cur_w = self.plugin_windows@;
            let ghost before = ms.subrange(0, k as int);
            let ghost after = ms.subrange(0, k + 1);
            proof {
                assert(after.drop_last() =~= before);
                assert(after.last() == ms[k as int]);
                assert forall|x: Seq<char>| #![auto] names_blank(before, x) ==> names_blank(after, x) by {
                    lemma_names_last(after, x);
                }
                assert forall|x: Seq<char>| #![auto] names_instance(before, x) ==> names_instance(after, x) by {
                    lemma_names_last(after, x);
                }
            }
            match &members[k] {
                WorkspaceGroupMember::Blank { blank_id } => {
                    self.close_blanks_named(blank_id);
                    proof {
                        let b = blank_id@;
                        assert(member_blank(ms[k as int]) == Some(b));
                        assert forall|e: BlankWindowEntry|
                            ob.contains(e) && names_blank(after, e.blank_id@) implies #[trigger] self.platform.window_destroyed(
                            e.id.0@,
                        ) by {
                            lemma_names_last(after, e.blank_id@);
                            if !names_blank(before, e.blank_id@) {
                                lemma_blanks_outside(ob, before, e);
                            }
                        }
                        assert forall|e: PluginWindowEntry|
                            opw.contains(e) && names_instance(after, e.instance_id@) implies #[trigger] self.platform.window_destroyed(
                            e.id.0@,
                        ) by {
                            lemma_names_last(after, e.instance_id@);
                            assert(pre.window_destroyed(e.id.0@));
                            if !self.platform.window_destroyed(e.id.0@) {
                                let c = choose|c: BlankWindowEntry|
                                    #[trigger] cur_b.contains(c) && c.blank_id@ == b && c.id.0@ == e.id.0@;
                                assert(self.platform.window_destroyed(c.id.0@));
                            }
                        }
                        assert forall|w: Seq<char>|
                            !closed_label(ob, opw, after, w) implies #[trigger] self.platform.window_destroyed(w)
                            == old(self).platform.window_destroyed(w) by {
                            if exists|c: BlankWindowEntry|
                                #[trigger] cur_b.contains(c) && c.blank_id@ == b && c.id.0@ == w {
                                let c = choose|c: BlankWindowEntry|
                                    #[trigger] cur_b.contains(c) && c.blank_id@ == b && c.id.0@ == w;
                                lemma_blanks_outside(ob, before, c);
                                lemma_names_last(after, c.blank_id@);
                                assert(ob.contains(c) && c.id.0@ == w && names_blank(after, c.blank_id@));
                            }
                            if closed_label(ob, opw, before, w) {
                                if exists|e: BlankWindowEntry|
                                    #[trigger] ob.contains(e) && e.id.0@ == w && names_blank(before, e.blank_id@) {
                                    let e = choose|e: BlankWindowEntry|
                                        #[trigger] ob.contains(e) && e.id.0@ == w && names_blank(before, e.blank_id@);
                                    lemma_names_last(after, e.blank_id@);
                                } else {
                                    let e = choose|e: PluginWindowEntry|
                                        #[trigger] opw.contains(e) && e.id.0@ == w && names_instance(before, e.instance_id@);
                                    lemma_names_last(after, e.instance_id@);
                                }
                            }
                        }
                    }
                },
                WorkspaceGroupMember::Plugin { instance_id, .. } => {
                    self.close_instances_named(instance_id);
                    proof {
                        let i = instance_id@;
                        assert(member_instance(ms[k as int]) == Some(i));
                        assert forall|e: PluginWindowEntry|
                            opw.contains(e) && names_instance(after, e.instance_id@) implies #[trigger] self.platform.window_destroyed(
                            e.id.0@,
                        ) by {
                            lemma_names_last(after, e.instance_id@);
                            if !names_instance(before, e.instance_id@) {
                                lemma_windows_outside(opw, before, e);
                            }
                        }
                        assert forall|e: BlankWindowEntry|
                            ob.contains(e) && names_blank(after, e.blank_id@) implies #[trigger] self.platform.window_destroyed(
                            e.id.0@,
                        ) by {
                            lemma_names_last(after, e.blank_id@);
                            assert(pre.window_destroyed(e.id.0@));
                            if !self.platform.window_destroyed(e.id.0@) {
                                let c = choose|c: PluginWindowEntry|
                                    #[trigger] cur_w.contains(c) && c.instance_id@ == i && c.id.0@ == e.id.0@;
                                assert(self.platform.window_destroyed(c.id.0@));
                            }
                        }
                        assert forall|w: Seq<char>|
                            !closed_label(ob, opw, after, w) implies #[trigger] self.platform.window_destroyed(w)
                            == old(self).platform.window_destroyed(w) by {
                            if exists|c: PluginWindowEntry|
                                #[trigger] cur_w.contains(c) && c.instance_id@ == i && c.id.0@ == w {
                                let c = choose|c: PluginWindowEntry|
                                    #[trigger] cur_w.contains(c) && c.instance_id@ == i && c.id.0@ == w;
                                lemma_windows_outside(opw, before, c);
                                lemma_names_last(after, c.instance_id@);
                                assert(opw.contains(c) && c.id.0@ == w && names_instance(after, c.instance_id@));
                            }
                            if closed_label(ob, opw, before, w) {
                                if exists|e: BlankWindowEntry|
                                    #[trigger] ob.contains(e) && e.id.0@ == w && names_blank(before, e.blank_id@) {
                                    let e = choose|e: BlankWindowEntry|
                                        #[trigger] ob.contains(e) && e.id.0@ == w && names_blank(before, e.blank_id@);
                                    lemma_names_last(after, e.blank_id@);
                                } else {
                                    let e = choose|e: PluginWindowEntry|
                                        #[trigger] opw.contains(e) && e.id.0@ == w && names_instance(before, e.instance_id@);
                                    lemma_names_last(after, e.instance_id@);
                                }
                            }
                        }
                    }
                },
            }
            k = k + 1;
        }
        assert(ms.subrange(0, ms.len() as int) =~= ms);
        let ghost closed = *self;
        self.prune();
        proof {
            lemma_snapshot_same_windows(self.platform, closed.platform, closed.blanks@, closed.plugin_windows@);
        }
        Ok(())
    }

    /// Every window the Host lists is open.
    pub open spec fn windows_live(&self) -> bool {
        &&& forall|i: int|
            0 <= i < self.blanks@.len() ==> !self.platform.window_destroyed(
                #[trigger] self.blanks@[i].id.0@,
            )
        &&& forall|i: int|
            0 <= i < self.plugin_windows@.len() ==> !self.platform.window_destroyed(
                #[trigger] self.plugin_windows@[i].id.0@,
            )
    }

    /// The window a member names is open (a Plugin member whose Plugin is not registered has
    /// nothing to open).
    pub open spec fn member_open(&self, m: WorkspaceGroupMember) -> bool {
        match m {
            WorkspaceGroupMember::Blank { blank_id } => exists|i: int|
                0 <= i < self.blanks@.len() && #[trigger] self.blanks@[i].blank_id@ == blank_id@
                    && !self.platform.window_destroyed(self.blanks@[i].id.0@),
            WorkspaceGroupMember::Plugin { plugin_id, instance_id } => plugin_pos(
                self.plugins@,
                plugin_id@,
            ) < 0 || exists|i: int|
                0 <= i < self.plugin_windows@.len() && #[trigger] self.plugin_windows@[i].instance_id@
                    == instance_id@ && !self.platform.window_destroyed(
                    self.plugin_windows@[i].id.0@,
                ),
        }
    }

    fn blank_id_known(&self, blank_id: &String) -> (b: bool)
        ensures
            b == exists|i: int| 0 <= i < self.blanks@.len() && #[trigger] self.blanks@[i].blank_id@ == blank_id@,
    {
        let mut i: usize = 0;
        while i < self.blanks.len()
            invariant
                i <= self.blanks@.len(),
                forall|j: int| 0 <= j < i ==> #[trigger] self.blanks@[j].blank_id@ != blank_id@,
            decreases self.blanks.len() - i,
        {
            if self.blanks[i].blank_id == *blank_id {
                return true;
            }
            i = i + 1;
        }
        false
    }

    fn instance_known(&self, instance_id: &String) -> (b: bool)
        ensures
            b == exists|i: int|
                0 <= i < self.plugin_windows@.len() && #[trigger] self.plugin_windows@[i].instance_id@
                    == instance_id@,
    {
        let mut i: usize = 0;
        while i < self.plugin_windows.len()
            invariant
                i <= self.plugin_windows@.len(),
                forall|j: int| 0 <= j < i ==> #[trigger] self.plugin_windows@[j].instance_id@ != instance_id@,
            decreases self.plugin_windows.len() - i,
        {
            if self.plugin_windows[i].instance_id == *instance_id {
                return true;
            }
            i = i + 1;
        }
        false
    }

    /// Opens the member windows of Window Group `group_id` that are not open yet (a blank
    /// member by its `blank_id`, a Plugin member by its instance id). Windows closed meanwhile
    /// are forgotten first, so a member whose window was closed is opened again. Stops at the
    /// first Plugin member whose Sidecar fails to start or is refused by the Bus.
    pub fn open_window_group(&mut self, group_id: &str) -> (r: Result<(), String>)
        ensures
            group_pos(old(self).window_groups@, group_id@) < 0 ==> (r matches Err(e) && e@
                == "unknown Window Group: "@ + group_id@) && *final(self) == *old(self),
            group_pos(old(self).window_groups@, group_id@) >= 0 ==> {
                let ms = old(self).window_groups@[group_pos(old(self).window_groups@, group_id@)].members@;
                &&& (forall|k: int| 0 <= k < ms.len() ==> !#[trigger] member_privileged(old(self).plugins@, ms[k]))
                    ==> r is Ok
                &&& r is Err ==> exists|k: int| 0 <= k < ms.len() && #[trigger] member_privileged(old(self).plugins@, ms[k])
                &&& r is Err ==> old(self).platform.spawn_log().len() < final(self).platform.spawn_log().len()
                    && last_start_refused(final(self).platform.spawn_log(), old(self).plugins@)
                &&& r is Ok ==> final(self).windows_live() && forall|k: int|
                    0 <= k < ms.len() ==> #[trigger] final(self).member_open(ms[k])
                &&& (forall|k: int| 0 <= k < ms.len() ==> #[trigger] old(self).member_open(ms[k])) ==> {
                    &&& r is Ok
                    &&& final(self).blanks@ == live_blanks(old(self).platform, old(self).blanks@)
                    &&& final(self).plugin_windows@ == old(self).open_plugin_windows()
                    &&& same_windows(final(self).platform, old(self).platform)
                }
            },
            final(self).window_groups == old(self).window_groups,
            final(self).same_base(old(self)),
            sidecars_distinct(old(self).sidecars@) ==> sidecars_distinct(final(self).sidecars@),
    {
        let gi = match self.group_index(group_id) {
            Some(i) => i,
            None => {
                return Err(String::from_str("unknown Window Group: ").concat(group_id));
            },
        };
        let members = clone_members(&self.window_groups[gi].members);
        let ghost ms = members@;
        self.prune();
        let ghost pruned = *self;
        proof {
            lemma_live_open(old(self).platform, old(self).blanks@, old(self).plugin_windows@);
            lemma_live_members(old(self).platform, old(self).blanks@, old(self).plugin_windows@);
            assert forall|j: int| 0 <= j < ms.len() && old(self).member_open(#[trigger] ms[j]) implies pruned.member_open(ms[j]) by {
                match ms[j] {
                    WorkspaceGroupMember::Blank { blank_id } => {
                        let i = choose|i: int| 0 <= i < old(self).blanks@.len()
                            && #[trigger] old(self).blanks@[i].blank_id@ == blank_id@
                            && !old(self).platform.window_destroyed(old(self).blanks@[i].id.0@);
                        let e = old(self).blanks@[i];
                        assert(old(self).blanks@.contains(e));
                        assert(pruned.blanks@.contains(e));
                        let i2 = choose|i2: int| 0 <= i2 < pruned.blanks@.len() && pruned.blanks@[i2] == e;
                        assert(pruned.blanks@[i2].blank_id@ == blank_id@);
                    },
                    WorkspaceGroupMember::Plugin { plugin_id, instance_id } => {
                        if plugin_pos(old(self).plugins@, plugin_id@) >= 0 {
                            let i = choose|i: int| 0 <= i < old(self).plugin_windows@.len()
                                && #[trigger] old(self).plugin_windows@[i].instance_id@ == instance_id@
                                && !old(self).platform.window_destroyed(old(self).plugin_windows@[i].id.0@);
                            let e = old(self).plugin_windows@[i];
                            assert(old(self).plugin_windows@.contains(e));
                            assert(pruned.plugin_windows@.contains(e));
                            let i2 = choose|i2: int| 0 <= i2 < pruned.plugin_windows@.len() && pruned.plugin_windows@[i2] == e;
                            assert(pruned.plugin_windows@[i2].instance_id@ == instance_id@);
                        }
                    },
                }
            }
        }
        let ghost all_open = forall|j: int| 0 <= j < ms.len() ==> #[trigger] pruned.member_open(ms[j]);
        let mut k: usize = 0;
        while k < members.len()
            invariant
                k <= members@.len(),
                ms == members@,
                ms == old(self).window_groups@[group_pos(old(self).window_groups@, group_id@)].members@,
                group_pos(old(self).window_groups@, group_id@) >= 0,
                self.window_groups == old(self).window_groups,
                self.same_base(old(self)),
                sidecars_distinct(old(self).sidecars@) ==> sidecars_distinct(self.sidecars@),
                self.windows_live(),
                forall|j: int| 0 <= j < k ==> #[trigger] self.member_open(ms[j]),
                all_open == forall|j: int| 0 <= j < ms.len() ==> #[trigger] pruned.member_open(ms[j]),
                pruned.plugins == old(self).plugins,
                self.platform.spawn_log().len() >= old(self).platform.spawn_log().len(),
                (forall|j: int| 0 <= j < ms.len() ==> #[trigger] old(self).member_open(ms[j])) ==> all_open,
                all_open ==> self.blanks@ == pruned.blanks@ && self.plugin_windows@ == pruned.plugin_windows@
                    && same_windows(self.platform, pruned.platform),
                self.blanks@.len() >= pruned.blanks@.len(),
                forall|j: int| 0 <= j < pruned.blanks@.len() ==> #[trigger] self.blanks@[j] == pruned.blanks@[j],
            decreases members.len() - k,
        {
            let ghost pre = *self;
            match &members[k] {
                WorkspaceGroupMember::Blank { blank_id } => {
                    if !self.blank_id_known(blank_id) {
                        proof {
                            if all_open {
                                assert(pruned.member_open(ms[k as int]));
                                let i = choose|i: int| 0 <= i < pruned.blanks@.len()
                                    && #[trigger] pruned.blanks@[i].blank_id@ == blank_id@
                                    && !pruned.platform.window_destroyed(pruned.blanks@[i].id.0@);
                                assert(self.blanks@[i].blank_id@ == blank_id@);
                            }
                        }
                        let id = self.platform.create_window(WindowKind::Blank);
                        self.blanks.push(BlankWindowEntry { id, blank_id: blank_id.clone() });
                        proof {
                            let n = self.blanks@.len() - 1;
                            assert(self.blanks@[n].blank_id@ == blank_id@);
                            assert forall|i: int| 0 <= i < self.blanks@.len() implies !self.platform.window_destroyed(
                                #[trigger] self.blanks@[i].id.0@,
                            ) by {
                                if i < n {
                                    assert(self.blanks@[i] == pre.blanks@[i]);
                                    assert(!pre.platform.window_destroyed(pre.blanks@[i].id.0@));
                                }
                            }
                            assert forall|j: int| 0 <= j <= k implies #[trigger] self.member_open(ms[j]) by {
                                if j < k {
                                    assert(pre.member_open(ms[j]));
                                    match ms[j] {
                                        WorkspaceGroupMember::Blank { blank_id: b2 } => {
                                            let i = choose|i: int|
                                                0 <= i < pre.blanks@.len() && #[trigger] pre.blanks@[i].blank_id@ == b2@
                                                    && !pre.platform.window_destroyed(pre.blanks@[i].id.0@);
                                            assert(self.blanks@[i] == pre.blanks@[i]);
                                        },
                                        WorkspaceGroupMember::Plugin { plugin_id: p2, instance_id: i2 } => {
                                            if plugin_pos(self.plugins@, p2@) >= 0 {
                                                let i = choose|i: int|
                                                    0 <= i < pre.plugin_windows@.len()
                                                        && #[trigger] pre.plugin_windows@[i].instance_id@ == i2@
                                                        && !pre.platform.window_destroyed(pre.plugin_windows@[i].id.0@);
                                                assert(self.plugin_windows@[i] == pre.plugin_windows@[i]);
                                            }
                                        },
                                    }
                                } else {
                                    assert(self.member_open(ms[j]));
                                }
                            }
                        }
                    } else {
                        proof {
                            assert(self.member_open(ms[k as int]));
                        }
                    }
                },
                WorkspaceGroupMember::Plugin { plugin_id, instance_id } => {
                    if !self.instance_known(instance_id) {
                        proof {
                            lemma_live_all(self.platform, self.blanks@, self.plugin_windows@);
                            if all_open && plugin_pos(self.plugins@, plugin_id@) >= 0 {
                                assert(pruned.member_open(ms[k as int]));
                                let i = choose|i: int| 0 <= i < pruned.plugin_windows@.len()
                                    && #[trigger] pruned.plugin_windows@[i].instance_id@ == instance_id@
                                    && !pruned.platform.window_destroyed(pruned.plugin_windows@[i].id.0@);
                                assert(self.plugin_windows@[i].instance_id@ == instance_id@);
                            }
                        }
                        let ghost pre_open = *self;
                        match self.open_plugin_instance(plugin_id, instance_id, None) {
                            Ok(_) => {},
                            Err(e) => {
                                proof {
                                    assert(member_privileged(old(self).plugins@, ms[k as int]));
                                    lemma_plugin_pos(old(self).plugins@, plugin_id@);
                                }
                                return Err(e);
                            },
                        }
                        proof {
                            if all_open {
                                assert(self.blanks@ =~= pre_open.blanks@);
                                assert(self.plugin_windows@ =~= pre_open.plugin_windows@);
                            }
                            let n = self.plugin_windows@.len();
                            assert forall|i: int| 0 <= i < self.blanks@.len() implies !self.platform.window_destroyed(
                                #[trigger] self.blanks@[i].id.0@,
                            ) by {
                                assert(!pre.platform.window_destroyed(pre.blanks@[i].id.0@));
                            }
                            assert forall|i: int| 0 <= i < self.plugin_windows@.len() implies !self.platform.window_destroyed(
                                #[trigger] self.plugin_windows@[i].id.0@,
                            ) by {
                                if i < pre.plugin_windows@.len() {
                                    assert(self.plugin_windows@[i] == pre.plugin_windows@[i]);
                                    assert(!pre.platform.window_destroyed(pre.plugin_windows@[i].id.0@));
                                }
                            }
                            assert forall|j: int| 0 <= j <= k implies #[trigger] self.member_open(ms[j]) by {
                                if j < k {
                                    assert(pre.member_open(ms[j]));
                                    match ms[j] {
                                        WorkspaceGroupMember::Blank { blank_id: b2 } => {
                                            let i = choose|i: int|
                                                0 <= i < pre.blanks@.len() && #[trigger] pre.blanks@[i].blank_id@ == b2@
                                                    && !pre.platform.window_destroyed(pre.blanks@[i].id.0@);
                                            assert(self.blanks@[i] == pre.blanks@[i]);
                                        },
                                        WorkspaceGroupMember::Plugin { plugin_id: p2, instance_id: i2 } => {
                                            if plugin_pos(self.plugins@, p2@) >= 0 {
                                                let i = choose|i: int|
                                                    0 <= i < pre.plugin_windows@.len()
                                                        && #[trigger] pre.plugin_windows@[i].instance_id@ == i2@
                                                        && !pre.platform.window_destroyed(pre.plugin_windows@[i].id.0@);
                                                assert(self.plugin_windows@[i] == pre.plugin_windows@[i]);
                                            }
                                        },
                                    }
                                } else {
                                    if plugin_pos(self.plugins@, plugin_id@) >= 0 {
                                        assert(self.plugin_windows@[n - 1].instance_id@ == instance_id@);
                                    }
                                }
                            }
                        }
                    } else {
                        proof {
                            let i = choose|i: int|
                                0 <= i < self.plugin_windows@.len() && #[trigger] self.plugin_windows@[i].instance_id@
                                    == instance_id@;
                            assert(!self.platform.window_destroyed(self.plugin_windows@[i].id.0@));
                            assert(self.member_open(ms[k as int]));
                        }
                    }
                },
            }
            k = k + 1;
        }
        Ok(())
    }

    /// Index of the Window Group `id`.
    pub fn group_index(&self, id: &str) -> (r: Option<usize>)
        ensures
            match r {
                Some(i) => i < self.window_groups@.len() && i as int == group_pos(
                    self.window_groups@,
                    id@,
                ),
                None => group_pos(self.window_groups@, id@) == -1,
            },
    {
        let key = String::from_str(id);
        let mut i: usize = 0;
        while i < self.window_groups.len()
            invariant
                i <= self.window_groups@.len(),
                key@ == id@,
                forall|j: int| 0 <= j < i ==> #[trigger] self.window_groups@[j].id@ != id@,
            decreases self.window_groups.len() - i,
        {
            if self.window_groups[i].id == key {
                proof {
                    lemma_group_pos_is(self.window_groups@, id@, i as int);
                }
                return Some(i);
            }
            i = i + 1;
        }
        proof {
            lemma_group_pos_is(self.window_groups@, id@, -1);
        }
        None
    }
}

/// When each label stands for the member of `ms` at its place, the members are `ms`.
proof fn lemma_members_for_each(
    b: Seq<BlankWindowEntry>,
    w: Seq<PluginWindowEntry>,
    labels: Seq<String>,
    ms: Seq<WorkspaceGroupMember>,
)
    requires
        ms.len() == labels.len(),
        forall|k: int| 0 <= k < labels.len() ==> #[trigger] member_of_label(b, w, labels[k]@) == Some(ms[k]),
    ensures
        members_for(b, w, labels) == Ok::<Seq<WorkspaceGroupMember>, Seq<char>>(ms),
    decreases labels.len(),
{
    if labels.len() > 0 {
        let t = labels.drop_last();
        assert forall|k: int| 0 <= k < t.len() implies #[trigger] member_of_label(b, w, t[k]@) == Some(ms.drop_last()[k]) by {
            assert(t[k] == labels[k]);
        }
        lemma_members_for_each(b, w, t, ms.drop_last());
        assert(member_of_label(b, w, labels[labels.len() - 1]@) == Some(ms[ms.len() - 1]));
        assert(ms.drop_last().push(ms.last()) =~= ms);
    } else {
        assert(ms =~= Seq::<WorkspaceGroupMember>::empty());
    }
}

/// Once a prefix of `labels` has an unknown label, so does every longer prefix, with the
/// same refusal.
proof fn lemma_members_for_err_extends(
    b: Seq<BlankWindowEntry>,
    w: Seq<PluginWindowEntry>,
    labels: Seq<String>,
    k: int,
)
    requires
        0 < k <= labels.len(),
        members_for(b, w, labels.subrange(0, k)) is Err,
    ensures
        members_for(b, w, labels) == members_for(b, w, labels.subrange(0, k)),
    decreases labels.len() - k,
{
    if k == labels.len() {
        assert(labels.subrange(0, k) =~= labels);
    } else {
        let next = labels.subrange(0, k + 1);
        assert(next.drop_last() =~= labels.subrange(0, k));
        lemma_members_for_err_extends(b, w, labels, k + 1);
    }
}

} // verus!
