//! Host-persisted Workspace: window layout + Plugin instance identities + Window Groups.
//! Plugins own their own business state; it is never part of a Workspace.

use vstd::prelude::*;

verus! {

/// Window position and size. Each coordinate is the IEEE-754 bit pattern of an `f64`
/// (`f64::to_bits`); the Host only stores and hands geometry back, it never computes with it.
#[derive(Debug, Clone, Copy, PartialEq, Eq, Structural)]
pub struct WindowGeometry {
    pub x: u64,
    pub y: u64,
    pub width: u64,
    pub height: u64,
}

impl Default for WindowGeometry {
    /// 800 by 600 at (80, 80).
    fn default() -> (g: Self)
        ensures
            g == (WindowGeometry {
                x: 0x4054000000000000,
                y: 0x4054000000000000,
                width: 0x4089000000000000,
                height: 0x4082c00000000000,
            }),
    {
        WindowGeometry {
            x: 0x4054000000000000,
            y: 0x4054000000000000,
            width: 0x4089000000000000,
            height: 0x4082c00000000000,
        }
    }
}

/// What a saved window shows.
#[derive(Debug, PartialEq, Eq)]
pub enum WorkspaceWindowKind {
    /// A blank window; `blank_id` lets Window Groups rebind it across restarts
    /// (empty in files written before it existed).
    Blank { blank_id: String },
    /// A Plugin window and the instance identity the Plugin keys its own state by.
    Plugin { plugin_id: String, instance_id: String },
}

impl Clone for WorkspaceWindowKind {
    fn clone(&self) -> (r: Self)
        ensures
            r == *self,
    {
        match self {
            WorkspaceWindowKind::Blank { blank_id } => WorkspaceWindowKind::Blank {
                blank_id: blank_id.clone(),
            },
            WorkspaceWindowKind::Plugin { plugin_id, instance_id } => WorkspaceWindowKind::Plugin {
                plugin_id: plugin_id.clone(),
                instance_id: instance_id.clone(),
            },
        }
    }
}

/// One saved window.
#[derive(Debug, PartialEq, Eq)]
pub struct WorkspaceWindow {
    pub kind: WorkspaceWindowKind,
    pub geometry: WindowGeometry,
}

/// A Window Group member, named so it survives the window being closed.
#[derive(Debug, PartialEq, Eq)]
pub enum WorkspaceGroupMember {
    Blank { blank_id: String },
    Plugin { plugin_id: String, instance_id: String },
}

impl Clone for WorkspaceGroupMember {
    fn clone(&self) -> (r: Self)
        ensures
            r == *self,
    {
        match self {
            WorkspaceGroupMember::Blank { blank_id } => WorkspaceGroupMember::Blank {
                blank_id: blank_id.clone(),
            },
            WorkspaceGroupMember::Plugin { plugin_id, instance_id } => WorkspaceGroupMember::Plugin {
                plugin_id: plugin_id.clone(),
                instance_id: instance_id.clone(),
            },
        }
    }
}

/// A copy of a member list.
pub fn clone_members(v: &Vec<WorkspaceGroupMember>) -> (r: Vec<WorkspaceGroupMember>)
    ensures
        r@ == v@,
{
    let r = v.clone();
    assert(r@ =~= v@);
    r
}

/// A named Window Group.
#[derive(Debug, PartialEq, Eq)]
pub struct WorkspaceGroup {
    pub id: String,
    pub name: String,
    pub members: Vec<WorkspaceGroupMember>,
}

/// Workspace snapshot owned by the Host.
#[derive(Debug, PartialEq, Eq, Default)]
pub struct Workspace {
    pub windows: Vec<WorkspaceWindow>,
    pub groups: Vec<WorkspaceGroup>,
}

} // verus!
