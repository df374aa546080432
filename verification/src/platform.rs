//! OS / window / Sidecar boundary the Host works through.
//! Production wires the desktop toolkit; tests use `MemoryPlatform`.

use vstd::prelude::*;

use crate::workspace::WindowGeometry;

verus! {

/// What kind of window to open.
#[derive(Debug, PartialEq, Eq)]
pub enum WindowKind {
    Blank,
    Launcher,
    Palette,
    /// Plugin window — Pure-UI surface (no raw Bus; scoped proxy only via Host).
    PureUi { plugin_id: String },
}

/// Label of an OS window.
#[derive(Debug, PartialEq, Eq, Hash)]
pub struct WindowId(pub String);

impl Clone for WindowId {
    fn clone(&self) -> (r: Self)
        ensures
            r == *self,
    {
        WindowId(self.0.clone())
    }
}

/// Handle of the tray icon.
#[derive(Debug, PartialEq, Eq, Hash)]
pub struct TrayId(pub String);

/// Handle of a running Sidecar.
#[derive(Debug, PartialEq, Eq, Hash)]
pub struct SidecarId(pub String);

impl Clone for SidecarId {
    fn clone(&self) -> (r: Self)
        ensures
            r == *self,
    {
        SidecarId(self.0.clone())
    }
}

/// What the Host does when the tray's Quit item or a registered shortcut fires.
#[derive(Debug, Clone, Copy, PartialEq, Eq)]
pub enum HostCommand {
    /// Stop the Host, then quit the application.
    StopAndQuit,
    OpenCommandPalette,
    OpenLauncher,
}

/// `after` is `before` with global shortcut `accelerator` set to trigger `handler` (what
/// `register_shortcut` promises).
pub open spec fn registers<P: Platform>(before: P, after: P, accelerator: Seq<char>, handler: HostCommand) -> bool {
    &&& after.shortcut_command(accelerator) == Some(handler)
    &&& forall|a: Seq<char>| a != accelerator ==> #[trigger] after.shortcut_command(a) == before.shortcut_command(a)
}

/// The handler of the last registration of `accelerator` in `regs`, if any.
pub open spec fn last_registration(regs: Seq<(Seq<char>, HostCommand)>, accelerator: Seq<char>) -> Option<HostCommand>
    decreases regs.len(),
{
    if regs.len() == 0 {
        None
    } else if regs.last().0 == accelerator {
        Some(regs.last().1)
    } else {
        last_registration(regs.drop_last(), accelerator)
    }
}

/// A shortcut triggers what it was registered for last: starting from a platform with no
/// shortcut, after the registrations `regs` in order (platform states `ps`), `accelerator`
/// triggers the handler of its last registration, and nothing when it was never registered.
pub proof fn law_last_registration_wins<P: Platform>(
    ps: Seq<P>,
    regs: Seq<(Seq<char>, HostCommand)>,
    accelerator: Seq<char>,
)
    requires
        ps.len() == regs.len() + 1,
        forall|a: Seq<char>| #[trigger] ps[0].shortcut_command(a) is None,
        forall|i: int| 0 <= i < regs.len() ==> registers(ps[i], #[trigger] ps[i + 1], regs[i].0, regs[i].1),
    ensures
        ps.last().shortcut_command(accelerator) == last_registration(regs, accelerator),
    decreases regs.len(),
{
    if regs.len() > 0 {
        let n = regs.len() - 1;
        assert(registers(ps[n as int], ps[n + 1], regs[n as int].0, regs[n as int].1));
        law_last_registration_wins(ps.drop_last(), regs.drop_last(), accelerator);
        assert(ps.drop_last().last() == ps[n as int]);
    }
}

/// The operating-system services the Host needs. Each call leaves the other windows as they
/// were: only `close_window` closes one, and only the `create_*` calls open one.
pub trait Platform {
    /// Whether the window labelled `id` is gone (closed, or never created).
    spec fn window_destroyed(&self, id: Seq<char>) -> bool;

    /// Geometry recorded for the window labelled `id`.
    spec fn geometry_of(&self, id: Seq<char>) -> Option<WindowGeometry>;

    /// Whether the application was asked to quit.
    spec fn quit_requested(&self) -> bool;

    /// Whether the Sidecar `id` is running.
    spec fn sidecar_running(&self, id: Seq<char>) -> bool;

    /// Whether the window labelled `id` was opened as a Host window, allowed privileged Host
    /// shell commands (Plugin windows never are).
    spec fn window_privileged(&self, id: Seq<char>) -> bool;

    /// The UI entry the window labelled `id` was opened with (Plugin windows only).
    spec fn window_ui_entry(&self, id: Seq<char>) -> Option<Seq<char>>;

    /// The Plugin instance the window labelled `id` was opened for (Plugin windows only).
    spec fn window_instance(&self, id: Seq<char>) -> Option<Seq<char>>;

    /// The Sidecar starts asked of the platform, in order: the Plugin, the Sidecar entry, and
    /// the id of the Sidecar started (none when the start failed).
    spec fn spawn_log(&self) -> Seq<(Seq<char>, Seq<char>, Option<Seq<char>>)>;

    /// What the tray's Quit item triggers, while a tray is shown.
    spec fn tray_command(&self) -> Option<HostCommand>;

    /// What the global shortcut `accelerator` triggers, when one is registered.
    spec fn shortcut_command(&self, accelerator: Seq<char>) -> Option<HostCommand>;

    /// Shows the tray icon; its Quit item triggers `on_quit`.
    fn create_tray(&mut self, on_quit: HostCommand) -> (t: TrayId)
        ensures
            final(self).tray_command() == Some(on_quit),
            forall|w: Seq<char>| #[trigger] final(self).window_destroyed(w) == old(self).window_destroyed(w),
            forall|w: Seq<char>| #[trigger] final(self).geometry_of(w) == old(self).geometry_of(w),
            final(self).quit_requested() == old(self).quit_requested(),
            forall|x: Seq<char>| #[trigger] final(self).sidecar_running(x) == old(self).sidecar_running(x),
            forall|a: Seq<char>| #[trigger] final(self).shortcut_command(a) == old(self).shortcut_command(a),
            forall|w: Seq<char>| #[trigger] final(self).window_privileged(w) == old(self).window_privileged(w),
            forall|w: Seq<char>| #[trigger] final(self).window_ui_entry(w) == old(self).window_ui_entry(w),
            forall|w: Seq<char>| #[trigger] final(self).window_instance(w) == old(self).window_instance(w),
            final(self).spawn_log() == old(self).spawn_log(),
    ;

    fn destroy_tray(&mut self, id: &TrayId)
        ensures
            final(self).tray_command() is None,
            forall|w: Seq<char>| #[trigger] final(self).window_destroyed(w) == old(self).window_destroyed(w),
            forall|w: Seq<char>| #[trigger] final(self).geometry_of(w) == old(self).geometry_of(w),
            final(self).quit_requested() == old(self).quit_requested(),
            forall|x: Seq<char>| #[trigger] final(self).sidecar_running(x) == old(self).sidecar_running(x),
            forall|a: Seq<char>| #[trigger] final(self).shortcut_command(a) == old(self).shortcut_command(a),
            forall|w: Seq<char>| #[trigger] final(self).window_privileged(w) == old(self).window_privileged(w),
            forall|w: Seq<char>| #[trigger] final(self).window_ui_entry(w) == old(self).window_ui_entry(w),
            forall|w: Seq<char>| #[trigger] final(self).window_instance(w) == old(self).window_instance(w),
            final(self).spawn_log() == old(self).spawn_log(),
    ;

    /// Opens a Host window (launcher, palette, blank) under a label no open window has.
    fn create_window(&mut self, kind: WindowKind) -> (id: WindowId)
        ensures
            old(self).window_destroyed(id.0@),
            !final(self).window_destroyed(id.0@),
            final(self).geometry_of(id.0@) is Some,
            forall|w: Seq<char>| w != id.0@ ==> #[trigger] final(self).window_destroyed(w) == old(self).window_destroyed(w),
            forall|w: Seq<char>| w != id.0@ ==> #[trigger] final(self).geometry_of(w) == old(self).geometry_of(w),
            final(self).quit_requested() == old(self).quit_requested(),
            forall|x: Seq<char>| #[trigger] final(self).sidecar_running(x) == old(self).sidecar_running(x),
            final(self).tray_command() == old(self).tray_command(),
            forall|a: Seq<char>| #[trigger] final(self).shortcut_command(a) == old(self).shortcut_command(a),
            final(self).window_privileged(id.0@),
            forall|w: Seq<char>| w != id.0@ ==> #[trigger] final(self).window_privileged(w) == old(self).window_privileged(w),
            final(self).window_ui_entry(id.0@) is None,
            final(self).window_instance(id.0@) is None,
            forall|w: Seq<char>| w != id.0@ ==> #[trigger] final(self).window_ui_entry(w) == old(self).window_ui_entry(w),
            forall|w: Seq<char>| w != id.0@ ==> #[trigger] final(self).window_instance(w) == old(self).window_instance(w),
            final(self).spawn_log() == old(self).spawn_log(),
    ;

    /// Opens a Plugin window loading `ui_entry` for Plugin instance `instance_id`, under a label
    /// no open window has.
    fn create_pure_ui_window(&mut self, plugin_id: &str, instance_id: &str, ui_entry: &str) -> (id:
        WindowId)
        ensures
            old(self).window_destroyed(id.0@),
            !final(self).window_destroyed(id.0@),
            final(self).geometry_of(id.0@) is Some,
            forall|w: Seq<char>| w != id.0@ ==> #[trigger] final(self).window_destroyed(w) == old(self).window_destroyed(w),
            forall|w: Seq<char>| w != id.0@ ==> #[trigger] final(self).geometry_of(w) == old(self).geometry_of(w),
            final(self).quit_requested() == old(self).quit_requested(),
            forall|x: Seq<char>| #[trigger] final(self).sidecar_running(x) == old(self).sidecar_running(x),
            final(self).tray_command() == old(self).tray_command(),
            forall|a: Seq<char>| #[trigger] final(self).shortcut_command(a) == old(self).shortcut_command(a),
            !final(self).window_privileged(id.0@),
            forall|w: Seq<char>| w != id.0@ ==> #[trigger] final(self).window_privileged(w) == old(self).window_privileged(w),
            final(self).window_ui_entry(id.0@) == Some(ui_entry@),
            final(self).window_instance(id.0@) == Some(instance_id@),
            forall|w: Seq<char>| w != id.0@ ==> #[trigger] final(self).window_ui_entry(w) == old(self).window_ui_entry(w),
            forall|w: Seq<char>| w != id.0@ ==> #[trigger] final(self).window_instance(w) == old(self).window_instance(w),
            final(self).spawn_log() == old(self).spawn_log(),
    ;

    fn close_window(&mut self, id: &WindowId)
        ensures
            final(self).window_destroyed(id.0@),
            forall|w: Seq<char>| w != id.0@ ==> #[trigger] final(self).window_destroyed(w) == old(self).window_destroyed(w),
            forall|w: Seq<char>| #[trigger] final(self).geometry_of(w) == old(self).geometry_of(w),
            final(self).quit_requested() == old(self).quit_requested(),
            forall|x: Seq<char>| #[trigger] final(self).sidecar_running(x) == old(self).sidecar_running(x),
            final(self).tray_command() == old(self).tray_command(),
            forall|a: Seq<char>| #[trigger] final(self).shortcut_command(a) == old(self).shortcut_command(a),
            forall|w: Seq<char>| #[trigger] final(self).window_privileged(w) == old(self).window_privileged(w),
            forall|w: Seq<char>| #[trigger] final(self).window_ui_entry(w) == old(self).window_ui_entry(w),
            forall|w: Seq<char>| #[trigger] final(self).window_instance(w) == old(self).window_instance(w),
            final(self).spawn_log() == old(self).spawn_log(),
    ;

    fn is_window_destroyed(&self, id: &WindowId) -> (b: bool)
        ensures
            b == self.window_destroyed(id.0@),
    ;

    /// Whether the window may call privileged Host shell commands (not Bus): an open Host
    /// window.
    fn window_allows_privileged_apis(&self, id: &WindowId) -> (b: bool)
        ensures
            b == (self.window_privileged(id.0@) && !self.window_destroyed(id.0@)),
    ;

    fn window_geometry(&self, id: &WindowId) -> (g: Option<WindowGeometry>)
        ensures
            g == self.geometry_of(id.0@),
    ;

    fn set_window_geometry(&mut self, id: &WindowId, geometry: &WindowGeometry)
        ensures
            !old(self).window_destroyed(id.0@) ==> final(self).geometry_of(id.0@) == Some(*geometry),
            forall|w: Seq<char>| w != id.0@ ==> #[trigger] final(self).geometry_of(w) == old(self).geometry_of(w),
            forall|w: Seq<char>| #[trigger] final(self).window_destroyed(w) == old(self).window_destroyed(w),
            final(self).quit_requested() == old(self).quit_requested(),
            forall|x: Seq<char>| #[trigger] final(self).sidecar_running(x) == old(self).sidecar_running(x),
            final(self).tray_command() == old(self).tray_command(),
            forall|a: Seq<char>| #[trigger] final(self).shortcut_command(a) == old(self).shortcut_command(a),
            forall|w: Seq<char>| #[trigger] final(self).window_privileged(w) == old(self).window_privileged(w),
            forall|w: Seq<char>| #[trigger] final(self).window_ui_entry(w) == old(self).window_ui_entry(w),
            forall|w: Seq<char>| #[trigger] final(self).window_instance(w) == old(self).window_instance(w),
            final(self).spawn_log() == old(self).spawn_log(),
    ;

    /// Starts the Sidecar of `plugin_id` whose entry is `entry`.
    fn spawn_sidecar(&mut self, plugin_id: &str, entry: &str) -> (r: Result<SidecarId, String>)
        ensures
            r matches Ok(id) ==> final(self).sidecar_running(id.0@),
            forall|x: Seq<char>|
                !(r matches Ok(id) && id.0@ == x) ==> #[trigger] final(self).sidecar_running(x)
                    == old(self).sidecar_running(x),
            forall|w: Seq<char>| #[trigger] final(self).window_destroyed(w) == old(self).window_destroyed(w),
            forall|w: Seq<char>| #[trigger] final(self).geometry_of(w) == old(self).geometry_of(w),
            final(self).quit_requested() == old(self).quit_requested(),
            final(self).tray_command() == old(self).tray_command(),
            forall|a: Seq<char>| #[trigger] final(self).shortcut_command(a) == old(self).shortcut_command(a),
            forall|w: Seq<char>| #[trigger] final(self).window_privileged(w) == old(self).window_privileged(w),
            forall|w: Seq<char>| #[trigger] final(self).window_ui_entry(w) == old(self).window_ui_entry(w),
            forall|w: Seq<char>| #[trigger] final(self).window_instance(w) == old(self).window_instance(w),
            final(self).spawn_log() == old(self).spawn_log().push(
                (
                    plugin_id@,
                    entry@,
                    match r {
                        Ok(id) => Some(id.0@),
                        Err(_) => None,
                    },
                ),
            ),
    ;

    fn stop_sidecar(&mut self, id: &SidecarId)
        ensures
            !final(self).sidecar_running(id.0@),
            forall|x: Seq<char>| x != id.0@ ==> #[trigger] final(self).sidecar_running(x) == old(self).sidecar_running(x),
            forall|w: Seq<char>| #[trigger] final(self).window_destroyed(w) == old(self).window_destroyed(w),
            forall|w: Seq<char>| #[trigger] final(self).geometry_of(w) == old(self).geometry_of(w),
            final(self).quit_requested() == old(self).quit_requested(),
            final(self).tray_command() == old(self).tray_command(),
            forall|a: Seq<char>| #[trigger] final(self).shortcut_command(a) == old(self).shortcut_command(a),
            forall|w: Seq<char>| #[trigger] final(self).window_privileged(w) == old(self).window_privileged(w),
            forall|w: Seq<char>| #[trigger] final(self).window_ui_entry(w) == old(self).window_ui_entry(w),
            forall|w: Seq<char>| #[trigger] final(self).window_instance(w) == old(self).window_instance(w),
            final(self).spawn_log() == old(self).spawn_log(),
    ;

    fn is_sidecar_running(&self, id: &SidecarId) -> (b: bool)
        ensures
            b == self.sidecar_running(id.0@),
    ;

    /// Registers a global shortcut that triggers `handler`.
    fn register_shortcut(&mut self, accelerator: &str, handler: HostCommand)
        ensures
            final(self).shortcut_command(accelerator@) == Some(handler),
            forall|a: Seq<char>|
                a != accelerator@ ==> #[trigger] final(self).shortcut_command(a) == old(self).shortcut_command(a),
            forall|w: Seq<char>| #[trigger] final(self).window_destroyed(w) == old(self).window_destroyed(w),
            forall|w: Seq<char>| #[trigger] final(self).geometry_of(w) == old(self).geometry_of(w),
            final(self).quit_requested() == old(self).quit_requested(),
            forall|x: Seq<char>| #[trigger] final(self).sidecar_running(x) == old(self).sidecar_running(x),
            final(self).tray_command() == old(self).tray_command(),
            forall|w: Seq<char>| #[trigger] final(self).window_privileged(w) == old(self).window_privileged(w),
            forall|w: Seq<char>| #[trigger] final(self).window_ui_entry(w) == old(self).window_ui_entry(w),
            forall|w: Seq<char>| #[trigger] final(self).window_instance(w) == old(self).window_instance(w),
            final(self).spawn_log() == old(self).spawn_log(),
    ;

    fn unregister_all_shortcuts(&mut self)
        ensures
            forall|a: Seq<char>| #[trigger] final(self).shortcut_command(a) is None,
            forall|w: Seq<char>| #[trigger] final(self).window_destroyed(w) == old(self).window_destroyed(w),
            forall|w: Seq<char>| #[trigger] final(self).geometry_of(w) == old(self).geometry_of(w),
            final(self).quit_requested() == old(self).quit_requested(),
            forall|x: Seq<char>| #[trigger] final(self).sidecar_running(x) == old(self).sidecar_running(x),
            final(self).tray_command() == old(self).tray_command(),
            forall|w: Seq<char>| #[trigger] final(self).window_privileged(w) == old(self).window_privileged(w),
            forall|w: Seq<char>| #[trigger] final(self).window_ui_entry(w) == old(self).window_ui_entry(w),
            forall|w: Seq<char>| #[trigger] final(self).window_instance(w) == old(self).window_instance(w),
            final(self).spawn_log() == old(self).spawn_log(),
    ;

    fn quit(&mut self)
        ensures
            final(self).quit_requested(),
            forall|w: Seq<char>| #[trigger] final(self).window_destroyed(w) == old(self).window_destroyed(w),
            forall|w: Seq<char>| #[trigger] final(self).geometry_of(w) == old(self).geometry_of(w),
            forall|x: Seq<char>| #[trigger] final(self).sidecar_running(x) == old(self).sidecar_running(x),
            final(self).tray_command() == old(self).tray_command(),
            forall|a: Seq<char>| #[trigger] final(self).shortcut_command(a) == old(self).shortcut_command(a),
            forall|w: Seq<char>| #[trigger] final(self).window_privileged(w) == old(self).window_privileged(w),
            forall|w: Seq<char>| #[trigger] final(self).window_ui_entry(w) == old(self).window_ui_entry(w),
            forall|w: Seq<char>| #[trigger] final(self).window_instance(w) == old(self).window_instance(w),
            final(self).spawn_log() == old(self).spawn_log(),
    ;
}

} // verus!
