//! In-memory Platform for Host-seam tests: windows, tray, Sidecars and shortcuts are records.

use vstd::prelude::*;

use crate::platform::{HostCommand, Platform, SidecarId, TrayId, WindowId, WindowKind};
use crate::manifest::clone_opt_string;
use crate::text::{decimal, u64_to_decimal};
use crate::workspace::WindowGeometry;

verus! {

/// A window the fake platform opened.
pub struct MemoryWindow {
    pub id: String,
    pub destroyed: bool,
    pub privileged: bool,
    pub ui_entry: Option<String>,
    pub instance_id: Option<String>,
    pub geometry: Option<WindowGeometry>,
}

/// A Sidecar the fake platform started.
pub struct MemorySidecar {
    pub id: String,
    pub plugin_id: String,
    pub running: bool,
}

/// Platform double that records every request.
pub struct MemoryPlatform {
    pub next_id: u64,
    pub trays: Vec<String>,
    pub windows: Vec<MemoryWindow>,
    pub sidecars: Vec<MemorySidecar>,
    pub shortcuts: Vec<(String, HostCommand)>,
    pub quit_called: bool,
    pub tray_quit: Option<HostCommand>,
    /// Every Sidecar start asked for: Plugin, entry, and the id started.
    pub spawns: Ghost<Seq<(Seq<char>, Seq<char>, Option<Seq<char>>)>>,
}

/// The record of Sidecar `id` as (Plugin, running), when one was started.
pub open spec fn sidecar_record(sidecars: Seq<MemorySidecar>, id: Seq<char>) -> Option<(Seq<char>, bool)> {
    let p = sidecar_pos(sidecars, id);
    if p >= 0 {
        Some((sidecars[p].plugin_id@, sidecars[p].running))
    } else {
        None
    }
}

/// Index of the latest window labelled `id`, or -1.
pub open spec fn window_pos(windows: Seq<MemoryWindow>, id: Seq<char>) -> int
    decreases windows.len(),
{
    if windows.len() == 0 {
        -1
    } else if windows.last().id@ == id {
        windows.len() - 1
    } else {
        window_pos(windows.drop_last(), id)
    }
}

proof fn lemma_window_pos(windows: Seq<MemoryWindow>, id: Seq<char>)
    ensures
        -1 <= window_pos(windows, id) < windows.len(),
        window_pos(windows, id) >= 0 ==> windows[window_pos(windows, id)].id@ == id,
        forall|j: int|
            window_pos(windows, id) < j < windows.len() ==> #[trigger] windows[j].id@ != id,
    decreases windows.len(),
{
    if windows.len() > 0 && windows.last().id@ != id {
        let t = windows.drop_last();
        lemma_window_pos(t, id);
        assert forall|j: int| window_pos(windows, id) < j < windows.len() implies #[trigger] windows[j].id@
            != id by {
            if j < windows.len() - 1 {
                assert(windows[j] == t[j]);
            }
        }
    }
}

proof fn lemma_window_pos_is(windows: Seq<MemoryWindow>, id: Seq<char>, i: int)
    requires
        -1 <= i < windows.len(),
        i >= 0 ==> windows[i].id@ == id,
        forall|j: int| i < j < windows.len() ==> #[trigger] windows[j].id@ != id,
    ensures
        window_pos(windows, id) == i,
{
    lemma_window_pos(windows, id);
    let p = window_pos(windows, id);
    if p != i {
        if p < i {
            assert(windows[i].id@ != id);
        } else {
            assert(windows[p].id@ != id);
        }
    }
}

proof fn lemma_window_pos_same_ids(a: Seq<MemoryWindow>, b: Seq<MemoryWindow>, id: Seq<char>)
    requires
        a.len() == b.len(),
        forall|j: int| 0 <= j < a.len() ==> #[trigger] a[j].id@ == b[j].id@,
    ensures
        window_pos(a, id) == window_pos(b, id),
    decreases a.len(),
{
    if a.len() > 0 {
        assert(a.last().id@ == b.last().id@);
        lemma_window_pos_same_ids(a.drop_last(), b.drop_last(), id);
    }
}

proof fn lemma_window_pos_push(a: Seq<MemoryWindow>, x: MemoryWindow, id: Seq<char>)
    ensures
        window_pos(a.push(x), id) == if x.id@ == id {
            a.len() as int
        } else {
            window_pos(a, id)
        },
{
    assert(a.push(x).drop_last() =~= a);
}

/// Index of the latest Sidecar record with handle `id`, or -1.
pub open spec fn sidecar_pos(sidecars: Seq<MemorySidecar>, id: Seq<char>) -> int
    decreases sidecars.len(),
{
    if sidecars.len() == 0 {
        -1
    } else if sidecars.last().id@ == id {
        sidecars.len() - 1
    } else {
        sidecar_pos(sidecars.drop_last(), id)
    }
}

proof fn lemma_sidecar_pos(sidecars: Seq<MemorySidecar>, id: Seq<char>)
    ensures
        -1 <= sidecar_pos(sidecars, id) < sidecars.len(),
        sidecar_pos(sidecars, id) >= 0 ==> sidecars[sidecar_pos(sidecars, id)].id@ == id,
        forall|j: int|
            sidecar_pos(sidecars, id) < j < sidecars.len() ==> #[trigger] sidecars[j].id@ != id,
    decreases sidecars.len(),
{
    if sidecars.len() > 0 && sidecars.last().id@ != id {
        let t = sidecars.drop_last();
        lemma_sidecar_pos(t, id);
        assert forall|j: int| sidecar_pos(sidecars, id) < j < sidecars.len() implies #[trigger] sidecars[j].id@
            != id by {
            if j < sidecars.len() - 1 {
                assert(sidecars[j] == t[j]);
            }
        }
    }
}

proof fn lemma_sidecar_pos_is(sidecars: Seq<MemorySidecar>, id: Seq<char>, i: int)
    requires
        -1 <= i < sidecars.len(),
        i >= 0 ==> sidecars[i].id@ == id,
        forall|j: int| i < j < sidecars.len() ==> #[trigger] sidecars[j].id@ != id,
    ensures
        sidecar_pos(sidecars, id) == i,
{
    lemma_sidecar_pos(sidecars, id);
    let p = sidecar_pos(sidecars, id);
    if p != i {
        if p < i {
            assert(sidecars[i].id@ != id);
        } else {
            assert(sidecars[p].id@ != id);
        }
    }
}

/// Replacing record `i` by one with the same handle keeps every handle where it was, and
/// every other handle's record.
proof fn lemma_sidecar_set(a: Seq<MemorySidecar>, i: int, s: MemorySidecar, x: Seq<char>)
    requires
        0 <= i < a.len(),
        s.id@ == a[i].id@,
    ensures
        sidecar_pos(a.update(i, s), x) == sidecar_pos(a, x),
        sidecar_pos(a, x) >= 0 && sidecar_pos(a, x) != i ==> a.update(i, s)[sidecar_pos(a, x)]
            == a[sidecar_pos(a, x)],
    decreases a.len(),
{
    let b = a.update(i, s);
    lemma_sidecar_pos(a, x);
    lemma_sidecar_pos(b, x);
    let p = sidecar_pos(a, x);
    assert forall|j: int| p < j < b.len() implies #[trigger] b[j].id@ != x by {
        if j != i {
            assert(b[j] == a[j]);
        }
    }
    if p >= 0 {
        if p != i {
            assert(b[p] == a[p]);
        }
    }
    lemma_sidecar_pos_is(b, x, p);
}

proof fn lemma_sidecar_pos_push(a: Seq<MemorySidecar>, x: MemorySidecar, id: Seq<char>)
    ensures
        sidecar_pos(a.push(x), id) == if x.id@ == id {
            a.len() as int
        } else {
            sidecar_pos(a, id)
        },
{
    assert(a.push(x).drop_last() =~= a);
}

/// Index of the first shortcut registered for `accelerator`, or -1.
pub open spec fn shortcut_pos(s: Seq<(String, HostCommand)>, accelerator: Seq<char>) -> int
    decreases s.len(),
{
    if s.len() == 0 {
        -1
    } else if s[0].0@ == accelerator {
        0
    } else {
        let p = shortcut_pos(s.drop_first(), accelerator);
        if p < 0 {
            -1
        } else {
            p + 1
        }
    }
}

proof fn lemma_shortcut_pos(s: Seq<(String, HostCommand)>, accelerator: Seq<char>)
    ensures
        -1 <= shortcut_pos(s, accelerator) < s.len(),
        shortcut_pos(s, accelerator) >= 0 ==> s[shortcut_pos(s, accelerator)].0@ == accelerator,
        forall|j: int|
            0 <= j < s.len() && (shortcut_pos(s, accelerator) < 0 || j < shortcut_pos(s, accelerator))
                ==> #[trigger] s[j].0@ != accelerator,
    decreases s.len(),
{
    if s.len() > 0 && s[0].0@ != accelerator {
        let t = s.drop_first();
        lemma_shortcut_pos(t, accelerator);
        assert forall|j: int|
            0 <= j < s.len() && (shortcut_pos(s, accelerator) < 0 || j < shortcut_pos(s, accelerator)) implies #[trigger] s[j].0@
            != accelerator by {
            if j > 0 {
                assert(s[j] == t[j - 1]);
            }
        }
    }
}

proof fn lemma_shortcut_pos_is(s: Seq<(String, HostCommand)>, accelerator: Seq<char>, i: int)
    requires
        -1 <= i < s.len(),
        i >= 0 ==> s[i].0@ == accelerator,
        forall|j: int| 0 <= j < s.len() && (i < 0 || j < i) ==> #[trigger] s[j].0@ != accelerator,
    ensures
        shortcut_pos(s, accelerator) == i,
{
    lemma_shortcut_pos(s, accelerator);
    let p = shortcut_pos(s, accelerator);
    if p >= 0 && i >= 0 && p != i {
        if p < i {
            assert(s[p].0@ != accelerator);
        } else {
            assert(s[i].0@ != accelerator);
        }
    }
    if p < 0 && i >= 0 {
        assert(s[i].0@ != accelerator);
    }
    if p >= 0 && i < 0 {
        assert(s[p].0@ != accelerator);
    }
}

/// Number of running Sidecars of `plugin_id`.
pub open spec fn running_count(sidecars: Seq<MemorySidecar>, plugin_id: Seq<char>) -> nat
    decreases sidecars.len(),
{
    if sidecars.len() == 0 {
        0
    } else {
        running_count(sidecars.drop_last(), plugin_id) + if sidecars.last().plugin_id@ == plugin_id
            && sidecars.last().running {
            1nat
        } else {
            0nat
        }
    }
}

impl MemoryPlatform {
    /// A platform with nothing open.
    pub fn new() -> (p: Self)
        ensures
            p.windows@.len() == 0,
            p.sidecars@.len() == 0,
            p.shortcuts@.len() == 0,
            p.trays@.len() == 0,
            !p.quit_called,
            p.tray_quit is None,
            p.next_id == 0,
            p.spawn_log().len() == 0,
    {
        MemoryPlatform {
            next_id: 0,
            trays: Vec::new(),
            windows: Vec::new(),
            sidecars: Vec::new(),
            shortcuts: Vec::new(),
            quit_called: false,
            tray_quit: None,
            spawns: Ghost(Seq::empty()),
        }
    }

    /// Whether `quit` was requested.
    pub fn did_quit(&self) -> (b: bool)
        ensures
            b == self.quit_called,
    {
        self.quit_called
    }

    /// Registered shortcuts and what each triggers.
    pub fn shortcuts(&self) -> (r: Vec<(String, HostCommand)>)
        ensures
            r@ == self.shortcuts@,
    {
        let mut r: Vec<(String, HostCommand)> = Vec::new();
        let mut i: usize = 0;
        while i < self.shortcuts.len()
            invariant
                i <= self.shortcuts@.len(),
                r@ == self.shortcuts@.subrange(0, i as int),
            decreases self.shortcuts.len() - i,
        {
            r.push((self.shortcuts[i].0.clone(), self.shortcuts[i].1));
            assert(r@ =~= self.shortcuts@.subrange(0, i + 1));
            i = i + 1;
        }
        assert(r@ =~= self.shortcuts@);
        r
    }

    /// What the tray's Quit item triggers while the tray is shown.
    pub fn trigger_tray_quit(&self) -> (r: Option<HostCommand>)
        ensures
            r == self.tray_quit,
    {
        self.tray_quit
    }

    /// UI entry the window labelled `id` was opened with.
    pub fn ui_entry_for(&self, id: &WindowId) -> (r: Option<String>)
        ensures
            r == if window_pos(self.windows@, id.0@) >= 0 {
                self.windows@[window_pos(self.windows@, id.0@)].ui_entry
            } else {
                None
            },
            r matches Some(u) ==> self.window_ui_entry(id.0@) == Some(u@),
            r is None ==> self.window_ui_entry(id.0@) is None,
    {
        match self.find_window(id) {
            Some(i) => match &self.windows[i].ui_entry {
                Some(u) => Some(u.clone()),
                None => None,
            },
            None => None,
        }
    }

    /// Plugin instance the window labelled `id` was opened for.
    pub fn instance_id_for(&self, id: &WindowId) -> (r: Option<String>)
        ensures
            r == if window_pos(self.windows@, id.0@) >= 0 {
                self.windows@[window_pos(self.windows@, id.0@)].instance_id
            } else {
                None
            },
            r matches Some(u) ==> self.window_instance(id.0@) == Some(u@),
            r is None ==> self.window_instance(id.0@) is None,
    {
        match self.find_window(id) {
            Some(i) => match &self.windows[i].instance_id {
                Some(u) => Some(u.clone()),
                None => None,
            },
            None => None,
        }
    }

    /// Number of running Sidecars started for `plugin_id`.
    pub fn running_sidecar_count_for(&self, plugin_id: &str) -> (n: usize)
        ensures
            n == running_count(self.sidecars@, plugin_id@),
    {
        let mut n: usize = 0;
        let mut i: usize = 0;
        let pid = String::from_str(plugin_id);
        while i < self.sidecars.len()
            invariant
                i <= self.sidecars@.len(),
                pid@ == plugin_id@,
                n == running_count(self.sidecars@.subrange(0, i as int), plugin_id@),
                n <= i,
            decreases self.sidecars.len() - i,
        {
            proof {
                let next = self.sidecars@.subrange(0, i + 1);
                assert(next.drop_last() =~= self.sidecars@.subrange(0, i as int));
            }
            if self.sidecars[i].plugin_id == pid && self.sidecars[i].running {
                n = n + 1;
            }
            i = i + 1;
        }
        assert(self.sidecars@.subrange(0, self.sidecars@.len() as int) =~= self.sidecars@);
        n
    }

    fn find_window(&self, id: &WindowId) -> (r: Option<usize>)
        ensures
            match r {
                Some(i) => i < self.windows@.len() && i as int == window_pos(self.windows@, id.0@),
                None => window_pos(self.windows@, id.0@) == -1,
            },
    {
        let mut i: usize = self.windows.len();
        while i > 0
            invariant
                i <= self.windows@.len(),
                forall|j: int| i <= j < self.windows@.len() ==> #[trigger] self.windows@[j].id@ != id.0@,
            decreases i,
        {
            if self.windows[i - 1].id == id.0 {
                proof {
                    lemma_window_pos_is(self.windows@, id.0@, i - 1);
                }
                return Some(i - 1);
            }
            i = i - 1;
        }
        proof {
            lemma_window_pos_is(self.windows@, id.0@, -1);
        }
        None
    }

    /// A copy of window `i` with `destroyed` set, and `geometry` set when given.
    fn window_with(&self, i: usize, destroyed: bool, geometry: Option<WindowGeometry>) -> (w:
        MemoryWindow)
        requires
            i < self.windows@.len(),
        ensures
            w.id == self.windows@[i as int].id,
            w.privileged == self.windows@[i as int].privileged,
            w.ui_entry == self.windows@[i as int].ui_entry,
            w.instance_id == self.windows@[i as int].instance_id,
            w.destroyed == destroyed,
            w.geometry == match geometry {
                Some(g) => Some(g),
                None => self.windows@[i as int].geometry,
            },
    {
        let old = &self.windows[i];
        MemoryWindow {
            id: old.id.clone(),
            destroyed,
            privileged: old.privileged,
            ui_entry: clone_opt_string(&old.ui_entry),
            instance_id: clone_opt_string(&old.instance_id),
            geometry: match geometry {
                Some(g) => Some(g),
                None => old.geometry,
            },
        }
    }

    fn find_sidecar(&self, id: &SidecarId) -> (r: Option<usize>)
        ensures
            match r {
                Some(i) => i < self.sidecars@.len() && i as int == sidecar_pos(self.sidecars@, id.0@),
                None => sidecar_pos(self.sidecars@, id.0@) == -1,
            },
    {
        let mut i: usize = self.sidecars.len();
        while i > 0
            invariant
                i <= self.sidecars@.len(),
                forall|j: int| i <= j < self.sidecars@.len() ==> #[trigger] self.sidecars@[j].id@ != id.0@,
            decreases i,
        {
            if self.sidecars[i - 1].id == id.0 {
                proof {
                    lemma_sidecar_pos_is(self.sidecars@, id.0@, i - 1);
                }
                return Some(i - 1);
            }
            i = i - 1;
        }
        proof {
            lemma_sidecar_pos_is(self.sidecars@, id.0@, -1);
        }
        None
    }

    fn next_label(&mut self, prefix: String) -> (r: String)
        ensures
            final(self).spawns == old(self).spawns,
            r@ == prefix@ + decimal(final(self).next_id as nat),
            final(self).next_id == old(self).next_id.wrapping_add(1),
            final(self).windows == old(self).windows,
            final(self).sidecars == old(self).sidecars,
            final(self).trays == old(self).trays,
            final(self).shortcuts == old(self).shortcuts,
            final(self).quit_called == old(self).quit_called,
            final(self).tray_quit == old(self).tray_quit,
    {
        self.next_id = self.next_id.wrapping_add(1);
        let n = u64_to_decimal(self.next_id);
        prefix.concat(n.as_str())
    }

    /// `candidate` when no open window has that label; otherwise a label longer than every
    /// recorded one.
    fn fresh_label(&self, candidate: String) -> (r: String)
        ensures
            self.window_destroyed(r@),
            !self.window_destroyed(candidate@) ==> r@ != candidate@,
            self.window_destroyed(candidate@) ==> r == candidate,
    {
        if self.is_window_destroyed(&WindowId(candidate.clone())) {
            return candidate;
        }
        let mut longest: usize = 0;
        let mut i: usize = 0;
        while i < self.windows.len()
            invariant
                i <= self.windows@.len(),
                forall|j: int| 0 <= j < i ==> #[trigger] self.windows@[j].id@.len() <= longest,
            decreases self.windows.len() - i,
        {
            let n = self.windows[i].id.as_str().unicode_len();
            if n > longest {
                longest = n;
            }
            i = i + 1;
        }
        let mut r = String::from_str("win-");
        proof {
            reveal_strlit("win-");
            reveal_strlit("x");
        }
        let mut k: usize = 0;
        while k < longest
            invariant
                r@.len() == 4 + k,
                k <= longest,
            decreases longest - k,
        {
            proof {
                reveal_strlit("x");
            }
            r.append("x");
            k = k + 1;
        }
        proof {
            lemma_window_pos(self.windows@, r@);
            assert forall|j: int| -1 < j < self.windows@.len() implies #[trigger] self.windows@[j].id@
                != r@ by {
                assert(self.windows@[j].id@.len() <= longest);
            }
            lemma_window_pos_is(self.windows@, r@, -1);
        }
        r
    }

    fn push_window(&mut self, w: MemoryWindow)
        ensures
            final(self).spawns == old(self).spawns,
            final(self).windows@ == old(self).windows@.push(w),
            !w.destroyed ==> !final(self).window_destroyed(w.id@),
            forall|x: Seq<char>| x != w.id@ ==> #[trigger] final(self).window_destroyed(x) == old(self).window_destroyed(x),
            forall|x: Seq<char>| x != w.id@ ==> #[trigger] final(self).geometry_of(x) == old(self).geometry_of(x),
            forall|x: Seq<char>| x != w.id@ ==> #[trigger] final(self).window_privileged(x) == old(self).window_privileged(x),
            final(self).window_privileged(w.id@) == w.privileged,
            forall|x: Seq<char>| x != w.id@ ==> #[trigger] final(self).window_ui_entry(x) == old(self).window_ui_entry(x),
            forall|x: Seq<char>| x != w.id@ ==> #[trigger] final(self).window_instance(x) == old(self).window_instance(x),
            final(self).window_ui_entry(w.id@) == (match w.ui_entry { Some(u) => Some(u@), None => None::<Seq<char>> }),
            final(self).window_instance(w.id@) == (match w.instance_id { Some(u) => Some(u@), None => None::<Seq<char>> }),
            final(self).quit_called == old(self).quit_called,
            final(self).next_id == old(self).next_id,
            final(self).sidecars == old(self).sidecars,
            final(self).shortcuts == old(self).shortcuts,
            final(self).tray_quit == old(self).tray_quit,
    {
        let ghost wid = w.id@;
        let ghost before = self.windows@;
        let ghost ww = w;
        self.windows.push(w);
        proof {
            lemma_window_pos_is(self.windows@, wid, self.windows@.len() - 1);
            assert forall|x: Seq<char>| x != wid implies #[trigger] self.window_destroyed(x)
                == old(self).window_destroyed(x) by {
                lemma_window_pos_push(before, ww, x);
                lemma_window_pos(before, x);
                let q = window_pos(before, x);
                if q >= 0 {
                    assert(self.windows@[q] == before[q]);
                }
            }
            assert forall|x: Seq<char>| x != wid implies #[trigger] self.geometry_of(x)
                == old(self).geometry_of(x) by {
                lemma_window_pos_push(before, ww, x);
                lemma_window_pos(before, x);
                let q = window_pos(before, x);
                if q >= 0 {
                    assert(self.windows@[q] == before[q]);
                }
            }
            assert forall|x: Seq<char>| x != wid implies #[trigger] self.window_privileged(x)
                == old(self).window_privileged(x) by {
                lemma_window_pos_push(before, ww, x);
                lemma_window_pos(before, x);
                let q = window_pos(before, x);
                if q >= 0 {
                    assert(self.windows@[q] == before[q]);
                }
            }
            assert forall|x: Seq<char>| x != wid implies #[trigger] self.window_ui_entry(x)
                == old(self).window_ui_entry(x) by {
                lemma_window_pos_push(before, ww, x);
                lemma_window_pos(before, x);
                let q = window_pos(before, x);
                if q >= 0 {
                    assert(self.windows@[q] == before[q]);
                }
            }
            assert forall|x: Seq<char>| x != wid implies #[trigger] self.window_instance(x)
                == old(self).window_instance(x) by {
                lemma_window_pos_push(before, ww, x);
                lemma_window_pos(before, x);
                let q = window_pos(before, x);
                if q >= 0 {
                    assert(self.windows@[q] == before[q]);
                }
            }
        }
    }
}

impl Platform for MemoryPlatform {
    open spec fn spawn_log(&self) -> Seq<(Seq<char>, Seq<char>, Option<Seq<char>>)> {
        self.spawns@
    }

    open spec fn window_destroyed(&self, id: Seq<char>) -> bool {
        let p = window_pos(self.windows@, id);
        p < 0 || self.windows@[p].destroyed
    }

    open spec fn geometry_of(&self, id: Seq<char>) -> Option<WindowGeometry> {
        let p = window_pos(self.windows@, id);
        if p < 0 {
            None
        } else {
            self.windows@[p].geometry
        }
    }

    open spec fn quit_requested(&self) -> bool {
        self.quit_called
    }

    open spec fn window_privileged(&self, id: Seq<char>) -> bool {
        let p = window_pos(self.windows@, id);
        p >= 0 && self.windows@[p].privileged
    }

    open spec fn window_ui_entry(&self, id: Seq<char>) -> Option<Seq<char>> {
        let p = window_pos(self.windows@, id);
        if p < 0 {
            None
        } else {
            match self.windows@[p].ui_entry {
                Some(u) => Some(u@),
                None => None,
            }
        }
    }

    open spec fn window_instance(&self, id: Seq<char>) -> Option<Seq<char>> {
        let p = window_pos(self.windows@, id);
        if p < 0 {
            None
        } else {
            match self.windows@[p].instance_id {
                Some(u) => Some(u@),
                None => None,
            }
        }
    }

    open spec fn tray_command(&self) -> Option<HostCommand> {
        self.tray_quit
    }

    open spec fn shortcut_command(&self, accelerator: Seq<char>) -> Option<HostCommand> {
        let p = shortcut_pos(self.shortcuts@, accelerator);
        if p < 0 {
            None
        } else {
            Some(self.shortcuts@[p].1)
        }
    }

    open spec fn sidecar_running(&self, id: Seq<char>) -> bool {
        let p = sidecar_pos(self.sidecars@, id);
        p >= 0 && self.sidecars@[p].running
    }

    fn create_tray(&mut self, on_quit: HostCommand) -> (t: TrayId) {
        let id = self.next_label(String::from_str("tray-"));
        self.trays.push(id.clone());
        self.tray_quit = Some(on_quit);
        TrayId(id)
    }

    fn destroy_tray(&mut self, id: &TrayId) {
        let mut kept: Vec<String> = Vec::new();
        let mut i: usize = 0;
        while i < self.trays.len()
            invariant
                i <= self.trays@.len(),
            decreases self.trays.len() - i,
        {
            if self.trays[i] != id.0 {
                kept.push(self.trays[i].clone());
            }
            i = i + 1;
        }
        self.trays = kept;
        self.tray_quit = None;
    }

    fn create_window(&mut self, _kind: WindowKind) -> (id: WindowId) {
        let candidate = self.next_label(String::from_str("win-"));
        let label = self.fresh_label(candidate);
        let w = MemoryWindow {
            id: label.clone(),
            destroyed: false,
            privileged: true,
            ui_entry: None,
            instance_id: None,
            geometry: Some(WindowGeometry::default()),
        };
        self.push_window(w);
        WindowId(label)
    }

    fn create_pure_ui_window(&mut self, plugin_id: &str, instance_id: &str, ui_entry: &str) -> (id:
        WindowId) {
        let prefix = String::from_str("plugin-").concat(plugin_id).concat("-");
        let candidate = self.next_label(prefix);
        let label = self.fresh_label(candidate);
        let w = MemoryWindow {
            id: label.clone(),
            destroyed: false,
            privileged: false,
            ui_entry: Some(String::from_str(ui_entry)),
            instance_id: Some(String::from_str(instance_id)),
            geometry: Some(WindowGeometry::default()),
        };
        self.push_window(w);
        WindowId(label)
    }

    fn close_window(&mut self, id: &WindowId) {
        match self.find_window(id) {
            Some(i) => {
                let ghost before = self.windows@;
                let w = self.window_with(i, true, None);
                self.windows.set(i, w);
                proof {
                    let after = self.windows@;
                    lemma_window_pos(before, id.0@);
                    assert(after[i as int].id@ == id.0@);
                    assert forall|j: int| i < j < after.len() implies #[trigger] after[j].id@ != id.0@ by {
                        assert(after[j] == before[j]);
                        lemma_window_pos(before, id.0@);
                    }
                    lemma_window_pos_is(after, id.0@, i as int);
                    assert forall|x: Seq<char>| x != id.0@ implies #[trigger] self.window_destroyed(x)
                        == old(self).window_destroyed(x) by {
                        assert forall|j: int| 0 <= j < after.len() implies #[trigger] after[j].id@ == before[j].id@ by {
                            if j != i {
                                assert(after[j] == before[j]);
                            }
                        }
                        lemma_window_pos_same_ids(after, before, x);
                        lemma_window_pos(before, x);
                        let q = window_pos(before, x);
                        if q >= 0 {
                            assert(q != i);
                            assert(after[q] == before[q]);
                        }
                    }
                    assert forall|x: Seq<char>| #[trigger] self.geometry_of(x) == old(self).geometry_of(x) by {
                        assert forall|j: int| 0 <= j < after.len() implies #[trigger] after[j].id@ == before[j].id@ by {
                            if j != i {
                                assert(after[j] == before[j]);
                            }
                        }
                        lemma_window_pos_same_ids(after, before, x);
                        lemma_window_pos(before, x);
                        let q = window_pos(before, x);
                        if q >= 0 && q != i {
                            assert(after[q] == before[q]);
                        }
                    }
                    assert forall|x: Seq<char>| #[trigger] self.window_privileged(x) == old(self).window_privileged(x) by {
                        assert forall|j: int| 0 <= j < after.len() implies #[trigger] after[j].id@ == before[j].id@ by {
                            if j != i {
                                assert(after[j] == before[j]);
                            }
                        }
                        lemma_window_pos_same_ids(after, before, x);
                        lemma_window_pos(before, x);
                        let q = window_pos(before, x);
                        if q >= 0 && q != i {
                            assert(after[q] == before[q]);
                        }
                    }
                    assert forall|x: Seq<char>| #![trigger self.window_ui_entry(x)] #![trigger self.window_instance(x)] self.window_ui_entry(x) == old(self).window_ui_entry(x) && self.window_instance(x) == old(self).window_instance(x) by {
                        assert forall|j: int| 0 <= j < after.len() implies #[trigger] after[j].id@ == before[j].id@ by {
                            if j != i {
                                assert(after[j] == before[j]);
                            }
                        }
                        lemma_window_pos_same_ids(after, before, x);
                        lemma_window_pos(before, x);
                        let q = window_pos(before, x);
                        if q >= 0 && q != i {
                            assert(after[q] == before[q]);
                        }
                    }
                }
            },
            None => {},
        }
    }

    fn is_window_destroyed(&self, id: &WindowId) -> (b: bool) {
        match self.find_window(id) {
            Some(i) => self.windows[i].destroyed,
            None => true,
        }
    }

    fn window_allows_privileged_apis(&self, id: &WindowId) -> (b: bool) {
        match self.find_window(id) {
            Some(i) => self.windows[i].privileged && !self.windows[i].destroyed,
            None => false,
        }
    }

    fn window_geometry(&self, id: &WindowId) -> (g: Option<WindowGeometry>) {
        match self.find_window(id) {
            Some(i) => self.windows[i].geometry,
            None => None,
        }
    }

    fn set_window_geometry(&mut self, id: &WindowId, geometry: &WindowGeometry) {
        match self.find_window(id) {
            Some(i) => {
                let ghost before = self.windows@;
                let w = self.window_with(i, self.windows[i].destroyed, Some(*geometry));
                self.windows.set(i, w);
                proof {
                    let after = self.windows@;
                    lemma_window_pos(before, id.0@);
                    assert forall|j: int| 0 <= j < after.len() implies #[trigger] after[j].id@ == before[j].id@ by {
                        if j != i {
                            assert(after[j] == before[j]);
                        }
                    }
                    assert forall|x: Seq<char>| #[trigger] self.window_destroyed(x) == old(self).window_destroyed(x) by {
                        lemma_window_pos_same_ids(after, before, x);
                        lemma_window_pos(before, x);
                        let q = window_pos(before, x);
                        if q >= 0 && q != i {
                            assert(after[q] == before[q]);
                        }
                    }
                    assert forall|x: Seq<char>| #[trigger] self.window_privileged(x) == old(self).window_privileged(x) by {
                        lemma_window_pos_same_ids(after, before, x);
                        lemma_window_pos(before, x);
                        let q = window_pos(before, x);
                        if q >= 0 && q != i {
                            assert(after[q] == before[q]);
                        }
                    }
                    assert forall|x: Seq<char>| #![trigger self.window_ui_entry(x)] #![trigger self.window_instance(x)] self.window_ui_entry(x) == old(self).window_ui_entry(x) && self.window_instance(x) == old(self).window_instance(x) by {
                        lemma_window_pos_same_ids(after, before, x);
                        lemma_window_pos(before, x);
                        let q = window_pos(before, x);
                        if q >= 0 && q != i {
                            assert(after[q] == before[q]);
                        }
                    }
                    assert forall|x: Seq<char>| x != id.0@ implies #[trigger] self.geometry_of(x) == old(self).geometry_of(x) by {
                        lemma_window_pos_same_ids(after, before, x);
                        lemma_window_pos(before, x);
                        let q = window_pos(before, x);
                        if q >= 0 {
                            assert(q != i);
                            assert(after[q] == before[q]);
                        }
                    }
                    lemma_window_pos_same_ids(after, before, id.0@);
                }
            },
            None => {},
        }
    }

    fn spawn_sidecar(&mut self, plugin_id: &str, entry: &str) -> (r: Result<SidecarId, String>)
        ensures
            final(self).next_id == old(self).next_id.wrapping_add(1),
            r matches Ok(id) && {
                let p = sidecar_pos(final(self).sidecars@, id.0@);
                &&& id.0@ == "sidecar-"@ + plugin_id@ + "-"@ + decimal(final(self).next_id as nat)
                &&& 0 <= p < final(self).sidecars@.len()
                &&& final(self).sidecars@[p].plugin_id@ == plugin_id@
                &&& final(self).sidecars@[p].running
            },
            r matches Ok(id) ==> forall|x: Seq<char>|
                x != id.0@ ==> #[trigger] sidecar_record(final(self).sidecars@, x) == sidecar_record(old(self).sidecars@, x),
    {
        let prefix = String::from_str("sidecar-").concat(plugin_id).concat("-");
        let id = self.next_label(prefix);
        self.spawns = Ghost(self.spawns@.push((plugin_id@, entry@, Some(id@))));
        let record = MemorySidecar { id: id.clone(), plugin_id: String::from_str(plugin_id), running: true };
        let handle = SidecarId(id);
        let ghost before = self.sidecars@;
        match self.find_sidecar(&handle) {
            Some(i) => {
                proof {
                    lemma_sidecar_pos(before, handle.0@);
                }
                self.sidecars.set(i, record);
                proof {
                    assert(self.sidecars@ == before.update(i as int, self.sidecars@[i as int]));
                    assert forall|x: Seq<char>| x != handle.0@ implies #[trigger] sidecar_record(self.sidecars@, x)
                        == sidecar_record(before, x) by {
                        lemma_sidecar_set(before, i as int, self.sidecars@[i as int], x);
                        lemma_sidecar_pos(before, x);
                        let q = sidecar_pos(before, x);
                        if q >= 0 {
                            assert(q != i);
                            assert(self.sidecars@[q] == before[q]);
                        }
                    }
                    lemma_sidecar_set(before, i as int, self.sidecars@[i as int], handle.0@);
                }
            },
            None => {
                let ghost rec = record;
                self.sidecars.push(record);
                proof {
                    lemma_sidecar_pos_push(before, rec, handle.0@);
                    assert forall|x: Seq<char>| x != handle.0@ implies #[trigger] sidecar_record(self.sidecars@, x)
                        == sidecar_record(before, x) by {
                        lemma_sidecar_pos_push(before, rec, x);
                        lemma_sidecar_pos(before, x);
                        let q = sidecar_pos(before, x);
                        if q >= 0 {
                            assert(self.sidecars@[q] == before[q]);
                        }
                    }
                }
            },
        }
        proof {
            lemma_sidecar_pos(self.sidecars@, handle.0@);
            assert forall|x: Seq<char>| x != handle.0@ implies #[trigger] self.sidecar_running(x)
                == old(self).sidecar_running(x) by {
                assert(sidecar_record(self.sidecars@, x) == sidecar_record(before, x));
            }
        }
        Ok(handle)
    }

    fn stop_sidecar(&mut self, id: &SidecarId) {
        match self.find_sidecar(id) {
            Some(i) => {
                let ghost before = self.sidecars@;
                proof {
                    lemma_sidecar_pos(before, id.0@);
                }
                let s = MemorySidecar {
                    id: self.sidecars[i].id.clone(),
                    plugin_id: self.sidecars[i].plugin_id.clone(),
                    running: false,
                };
                self.sidecars.set(i, s);
                proof {
                    assert(self.sidecars@ == before.update(i as int, self.sidecars@[i as int]));
                    assert(old(self).sidecars@ == before);
                    assert forall|x: Seq<char>| x != id.0@ implies #[trigger] self.sidecar_running(x)
                        == old(self).sidecar_running(x) by {
                        lemma_sidecar_set(before, i as int, self.sidecars@[i as int], x);
                        lemma_sidecar_pos(before, x);
                        let q = sidecar_pos(before, x);
                        assert(sidecar_pos(self.sidecars@, x) == q);
                        if q >= 0 {
                            assert(q != i);
                            assert(self.sidecars@[q] == before[q]);
                        }
                    }
                    lemma_sidecar_set(before, i as int, self.sidecars@[i as int], id.0@);
                }
            },
            None => {},
        }
    }

    fn is_sidecar_running(&self, id: &SidecarId) -> (b: bool) {
        match self.find_sidecar(id) {
            Some(i) => self.sidecars[i].running,
            None => false,
        }
    }

    fn register_shortcut(&mut self, accelerator: &str, handler: HostCommand) {
        let key = String::from_str(accelerator);
        let ghost before = self.shortcuts@;
        let mut i: usize = 0;
        while i < self.shortcuts.len()
            invariant
                i <= self.shortcuts@.len(),
                self.shortcuts@ == before,
                before == old(self).shortcuts@,
                self.windows == old(self).windows,
                self.sidecars == old(self).sidecars,
                self.quit_called == old(self).quit_called,
                self.tray_quit == old(self).tray_quit,
                self.spawns == old(self).spawns,
                key@ == accelerator@,
                forall|j: int| 0 <= j < i ==> #[trigger] self.shortcuts@[j].0@ != key@,
            decreases self.shortcuts.len() - i,
        {
            if self.shortcuts[i].0 == key {
                proof {
                    lemma_shortcut_pos_is(before, key@, i as int);
                }
                self.shortcuts.set(i, (key, handler));
                proof {
                    let after = self.shortcuts@;
                    lemma_shortcut_pos_is(after, accelerator@, i as int);
                    assert forall|a: Seq<char>| a != accelerator@ implies #[trigger] self.shortcut_command(a)
                        == old(self).shortcut_command(a) by {
                        lemma_shortcut_pos(before, a);
                        let q = shortcut_pos(before, a);
                        assert forall|j: int| 0 <= j < after.len() && (q < 0 || j < q) implies #[trigger] after[j].0@
                            != a by {
                            if j != i {
                                assert(after[j] == before[j]);
                            }
                        }
                        if q >= 0 {
                            assert(q != i);
                            assert(after[q] == before[q]);
                        }
                        lemma_shortcut_pos_is(after, a, q);
                    }
                }
                return;
            }
            i = i + 1;
        }
        self.shortcuts.push((key, handler));
        proof {
            let after = self.shortcuts@;
            assert forall|j: int| 0 <= j < before.len() implies #[trigger] after[j] == before[j] by {}
            lemma_shortcut_pos_is(after, accelerator@, before.len() as int);
            assert forall|a: Seq<char>| a != accelerator@ implies #[trigger] self.shortcut_command(a)
                == old(self).shortcut_command(a) by {
                lemma_shortcut_pos(before, a);
                let q = shortcut_pos(before, a);
                assert forall|j: int| 0 <= j < after.len() && (q < 0 || j < q) implies #[trigger] after[j].0@ != a by {
                    if j < before.len() {
                        assert(after[j] == before[j]);
                    }
                }
                lemma_shortcut_pos_is(after, a, q);
            }
        }
    }

    fn unregister_all_shortcuts(&mut self) {
        self.shortcuts.clear();
    }

    fn quit(&mut self) {
        self.quit_called = true;
    }
}

} // verus!
