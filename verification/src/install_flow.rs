//! The Host's side of a local install: a proposal waits for the user's answer; confirming
//! hands back what to copy where and records the granted permissions, declining leaves the
//! workbench as it was. Staging, copying and removing files is the caller's part, with the
//! paths given here.

use vstd::prelude::*;

use crate::host::{plugin_ids_distinct, plugins_from_scan, registry, scan_registry, Host, ListedPlugin};
use crate::ids::{is_v4_uuid_text, new_uuid};
use crate::install::{
    clone_items, items_view, permission_items, permission_items_spec, same_proposal, InstallProposal,
    PendingInstall, PermissionItem,
};
use crate::manifest::Manifest;
use crate::platform::Platform;
use crate::text::{join_path, join_path_spec};

verus! {

/// What confirming a proposal asks the caller to do: copy `staging_dir` into `destination`
/// (a directory named after the Plugin under `plugins_dir`), remove `staging_dir`, and record
/// `grants` for `plugin_id` in the grants file of `plugins_dir`.
#[derive(Debug)]
pub struct InstallPlan {
    pub staging_dir: String,
    pub plugins_dir: String,
    pub destination: String,
    pub plugin_id: String,
    pub grants: Vec<PermissionItem>,
}

/// Index of the first grants entry of `plugin_id`, or -1.
pub open spec fn grants_pos(s: Seq<(String, Vec<PermissionItem>)>, plugin_id: Seq<char>) -> int
    decreases s.len(),
{
    if s.len() == 0 {
        -1
    } else if s[0].0@ == plugin_id {
        0
    } else {
        let p = grants_pos(s.drop_first(), plugin_id);
        if p < 0 {
            -1
        } else {
            p + 1
        }
    }
}

proof fn lemma_grants_pos(s: Seq<(String, Vec<PermissionItem>)>, plugin_id: Seq<char>)
    ensures
        -1 <= grants_pos(s, plugin_id) < s.len(),
        grants_pos(s, plugin_id) >= 0 ==> s[grants_pos(s, plugin_id)].0@ == plugin_id,
        forall|j: int|
            0 <= j < s.len() && (grants_pos(s, plugin_id) < 0 || j < grants_pos(s, plugin_id))
                ==> #[trigger] s[j].0@ != plugin_id,
    decreases s.len(),
{
    if s.len() > 0 && s[0].0@ != plugin_id {
        let t = s.drop_first();
        lemma_grants_pos(t, plugin_id);
        assert forall|j: int|
            0 <= j < s.len() && (grants_pos(s, plugin_id) < 0 || j < grants_pos(s, plugin_id)) implies #[trigger] s[j].0@
            != plugin_id by {
            if j > 0 {
                assert(s[j] == t[j - 1]);
            }
        }
    }
}

proof fn lemma_grants_pos_is(s: Seq<(String, Vec<PermissionItem>)>, plugin_id: Seq<char>, i: int)
    requires
        -1 <= i < s.len(),
        i >= 0 ==> s[i].0@ == plugin_id,
        forall|j: int| 0 <= j < s.len() && (i < 0 || j < i) ==> #[trigger] s[j].0@ != plugin_id,
    ensures
        grants_pos(s, plugin_id) == i,
{
    lemma_grants_pos(s, plugin_id);
    let p = grants_pos(s, plugin_id);
    if p >= 0 && i >= 0 && p != i {
        if p < i {
            assert(s[p].0@ != plugin_id);
        } else {
            assert(s[i].0@ != plugin_id);
        }
    }
    if p < 0 && i >= 0 {
        assert(s[i].0@ != plugin_id);
    }
    if p >= 0 && i < 0 {
        assert(s[p].0@ != plugin_id);
    }
}

/// Granted permissions by Plugin id (the first entry of an id counts).
pub open spec fn grants_map(s: Seq<(String, Vec<PermissionItem>)>) -> Map<Seq<char>, Seq<PermissionItem>> {
    Map::new(|k: Seq<char>| grants_pos(s, k) >= 0, |k: Seq<char>| s[grants_pos(s, k)].1@)
}

/// Index of the grants entry of `plugin_id`.
fn find_grants(s: &Vec<(String, Vec<PermissionItem>)>, plugin_id: &String) -> (r: Option<usize>)
    ensures
        match r {
            Some(i) => i < s@.len() && i as int == grants_pos(s@, plugin_id@),
            None => grants_pos(s@, plugin_id@) == -1,
        },
{
    let mut i: usize = 0;
    while i < s.len()
        invariant
            i <= s@.len(),
            forall|j: int| 0 <= j < i ==> #[trigger] s@[j].0@ != plugin_id@,
        decreases s.len() - i,
    {
        if s[i].0 == *plugin_id {
            proof {
                lemma_grants_pos_is(s@, plugin_id@, i as int);
            }
            return Some(i);
        }
        i = i + 1;
    }
    proof {
        lemma_grants_pos_is(s@, plugin_id@, -1);
    }
    None
}

/// Records `grants` for `plugin_id`, replacing what was recorded for it.
pub fn record_grants(
    all: &mut Vec<(String, Vec<PermissionItem>)>,
    plugin_id: String,
    grants: Vec<PermissionItem>,
)
    ensures
        grants_map(final(all)@) == grants_map(old(all)@).insert(plugin_id@, grants@),
{
    let ghost before = all@;
    let ghost key = plugin_id@;
    let ghost g = grants@;
    match find_grants(all, &plugin_id) {
        Some(i) => {
            all.set(i, (plugin_id, grants));
            proof {
                let after = all@;
                lemma_grants_pos(before, key);
                assert forall|k: Seq<char>| grants_pos(after, k) == grants_pos(before, k) by {
                    lemma_grants_pos(before, k);
                    let q = grants_pos(before, k);
                    assert forall|j: int| 0 <= j < after.len() && (q < 0 || j < q) implies #[trigger] after[j].0@
                        != k by {
                        if j != i {
                            assert(after[j] == before[j]);
                        }
                    }
                    if q >= 0 && q != i {
                        assert(after[q] == before[q]);
                    }
                    lemma_grants_pos_is(after, k, q);
                }
                assert forall|k: Seq<char>| #[trigger] grants_map(after).contains_key(k) implies grants_map(after)[k]
                    == grants_map(before).insert(key, g)[k] by {
                    lemma_grants_pos(before, k);
                    let q = grants_pos(before, k);
                    if k != key {
                        assert(q != i);
                        assert(after[q] == before[q]);
                    }
                }
                assert(grants_map(after) =~= grants_map(before).insert(key, g));
            }
        },
        None => {
            all.push((plugin_id, grants));
            proof {
                let after = all@;
                assert forall|k: Seq<char>|
                    grants_pos(after, k) == if grants_pos(before, k) >= 0 {
                        grants_pos(before, k)
                    } else if k == key {
                        before.len() as int
                    } else {
                        -1
                    } by {
                    lemma_grants_pos(before, k);
                    let q = grants_pos(before, k);
                    let target = if q >= 0 {
                        q
                    } else if k == key {
                        before.len() as int
                    } else {
                        -1
                    };
                    assert forall|j: int| 0 <= j < after.len() && (target < 0 || j < target) implies #[trigger] after[j].0@
                        != k by {
                        if j < before.len() {
                            assert(after[j] == before[j]);
                        }
                    }
                    if q >= 0 {
                        assert(after[q] == before[q]);
                    }
                    lemma_grants_pos_is(after, k, target);
                }
                assert forall|k: Seq<char>| grants_pos(before, k) >= 0 implies after[grants_pos(after, k)]
                    == before[grants_pos(before, k)] by {
                    lemma_grants_pos(before, k);
                }
                assert(grants_map(after) =~= grants_map(before).insert(key, g));
            }
        },
    }
}

/// The grants file of a plugins directory.
pub fn grants_file(plugins_dir: &str) -> (r: String)
    ensures
        r@ == join_path_spec(plugins_dir@, ".spacecraft-grants.json"@),
{
    join_path(plugins_dir, ".spacecraft-grants.json")
}

/// Where a staged package of `plugin_id` is placed under `staging_root`: `folder-{id}` for a
/// folder, `zip-{id}` for a zip.
pub fn staging_dir_for(staging_root: &str, source_kind: &str, plugin_id: &str) -> (r: String)
    ensures
        r@ == join_path_spec(staging_root@, source_kind@ + "-"@ + plugin_id@),
{
    let name = String::from_str(source_kind).concat("-").concat(plugin_id);
    join_path(staging_root, name.as_str())
}

/// Where a zip is unpacked before its Manifest is looked for.
pub fn zip_extract_dir(staging_root: &str) -> (r: String)
    ensures
        r@ == join_path_spec(staging_root@, "zip-extract"@),
{
    join_path(staging_root, "zip-extract")
}

impl<P: Platform> Host<P> {
    /// A proposal with id `proposal_id` is waiting.
    pub open spec fn pending_for(&self, proposal_id: Seq<char>) -> bool {
        self.pending_install matches Some(p) && p.proposal.proposal_id@ == proposal_id
    }

    /// Name of the directory (under the system temp directory) install staging uses.
    pub fn staging_root(&self) -> (r: String)
        ensures
            r == self.staging_root,
    {
        self.staging_root.clone()
    }

    /// Drops the waiting proposal, if any, before a new one is made: its staging directory
    /// (for the caller to remove).
    pub fn clear_pending(&mut self) -> (r: Option<String>)
        ensures
            final(self).pending_install is None,
            match old(self).pending_install {
                Some(p) => r == Some(p.staging_dir),
                None => r is None,
            },
            final(self).plugins == old(self).plugins,
            final(self).confirmed_grants == old(self).confirmed_grants,
            final(self).plugins_dir == old(self).plugins_dir,
            final(self).platform == old(self).platform,
            final(self).blanks == old(self).blanks,
            final(self).plugin_windows == old(self).plugin_windows,
            final(self).window_groups == old(self).window_groups,
    {
        let mut taken: Option<PendingInstall> = None;
        core::mem::swap(&mut taken, &mut self.pending_install);
        match taken {
            Some(p) => Some(p.staging_dir),
            None => None,
        }
    }

    /// Makes the proposal for a package staged at `staging_dir` with Manifest `manifest`
    /// (`source_kind` is "folder" or "zip"); it waits for confirmation. Nothing is installed.
    pub fn store_pending(&mut self, staging_dir: String, manifest: Manifest, source_kind: &str) -> (p:
        InstallProposal)
        ensures
            is_v4_uuid_text(p.proposal_id@),
            p.plugin_id == manifest.id,
            p.name == manifest.name,
            p.version == manifest.version,
            items_view(p.permissions@) == permission_items_spec(
                manifest.sidecar is Some,
                manifest.permissions@,
            ),
            p.signature_present == manifest.signature is Some,
            p.source_kind@ == source_kind@,
            final(self).pending_install matches Some(pending) && pending.staging_dir == staging_dir
                && pending.manifest == manifest && same_proposal(pending.proposal, p),
            final(self).plugins == old(self).plugins,
            final(self).confirmed_grants == old(self).confirmed_grants,
            final(self).plugins_dir == old(self).plugins_dir,
            final(self).platform == old(self).platform,
            final(self).blanks == old(self).blanks,
            final(self).plugin_windows == old(self).plugin_windows,
            final(self).window_groups == old(self).window_groups,
    {
        let proposal = InstallProposal {
            proposal_id: new_uuid(),
            plugin_id: manifest.id.clone(),
            name: manifest.name.clone(),
            version: manifest.version.clone(),
            permissions: permission_items(&manifest),
            signature_present: manifest.signature.is_some(),
            source_kind: String::from_str(source_kind),
        };
        let shown = proposal.clone();
        self.pending_install = Some(PendingInstall { proposal, staging_dir, manifest });
        shown
    }

    /// The proposal waiting for confirmation.
    pub fn pending_install(&self) -> (r: Option<InstallProposal>)
        ensures
            match self.pending_install {
                Some(p) => r matches Some(q) && same_proposal(q, p.proposal),
                None => r is None,
            },
    {
        match &self.pending_install {
            Some(p) => Some(p.proposal.clone()),
            None => None,
        }
    }

    /// Confirms the waiting proposal `proposal_id`: the plan the caller carries out before
    /// `complete_install`. A mismatched id leaves the proposal waiting; without a plugins
    /// directory the proposal is dropped.
    pub fn confirm_install(&mut self, proposal_id: &str) -> (r: Result<InstallPlan, String>)
        ensures
            old(self).pending_install is None ==> (r matches Err(e) && e@ == "no pending Plugin install"@)
                && final(self).pending_install is None,
            old(self).pending_install is Some && !old(self).pending_for(proposal_id@) ==> (r matches Err(e)
                && e@ == "proposal id mismatch"@) && final(self).pending_install == old(self).pending_install,
            old(self).pending_for(proposal_id@) && old(self).plugins_dir is None ==> (r matches Err(e)
                && e@ == "plugins directory is not configured"@) && final(self).pending_install is None,
            old(self).pending_for(proposal_id@) && old(self).plugins_dir is Some ==> (r matches Ok(plan) && {
                let p = old(self).pending_install->Some_0;
                let d = old(self).plugins_dir->Some_0;
                &&& plan.staging_dir == p.staging_dir
                &&& plan.plugins_dir == d
                &&& plan.plugin_id == p.manifest.id
                &&& plan.destination@ == join_path_spec(d@, p.manifest.id@)
                &&& plan.grants@ == p.proposal.permissions@
            }) && final(self).pending_install is None,
            final(self).plugins == old(self).plugins,
            final(self).confirmed_grants == old(self).confirmed_grants,
            final(self).plugins_dir == old(self).plugins_dir,
            final(self).platform == old(self).platform,
            final(self).blanks == old(self).blanks,
            final(self).plugin_windows == old(self).plugin_windows,
            final(self).window_groups == old(self).window_groups,
    {
        let mut taken: Option<PendingInstall> = None;
        core::mem::swap(&mut taken, &mut self.pending_install);
        let pending = match taken {
            Some(p) => p,
            None => {
                return Err(String::from_str("no pending Plugin install"));
            },
        };
        if pending.proposal.proposal_id != String::from_str(proposal_id) {
            self.pending_install = Some(pending);
            return Err(String::from_str("proposal id mismatch"));
        }
        let plugins_dir = match &self.plugins_dir {
            Some(d) => d.clone(),
            None => {
                return Err(String::from_str("plugins directory is not configured"));
            },
        };
        let destination = join_path(plugins_dir.as_str(), pending.manifest.id.as_str());
        Ok(
            InstallPlan {
                staging_dir: pending.staging_dir,
                plugins_dir,
                destination,
                plugin_id: pending.manifest.id,
                grants: pending.proposal.permissions,
            },
        )
    }

    /// Finishes a confirmed install once the package was copied: records the grants for
    /// `plugin_id` and rescans the plugins directory (`discovered`). Errs when the Plugin did
    /// not appear.
    pub fn complete_install(&mut self, plugin_id: &str, grants: Vec<PermissionItem>, discovered: Vec<
        Manifest,
    >) -> (r: Result<ListedPlugin, String>)
        ensures
            grants_map(final(self).confirmed_grants@) == grants_map(old(self).confirmed_grants@).insert(
                plugin_id@,
                grants@,
            ),
            registry(final(self).plugins@) == scan_registry(discovered@),
            plugin_ids_distinct(final(self).plugins@),
            match r {
                Ok(l) => scan_registry(discovered@).contains_key(plugin_id@) && {
                    let m = scan_registry(discovered@)[plugin_id@];
                    l.id == m.id && l.name == m.name && l.version == m.version
                },
                Err(e) => !scan_registry(discovered@).contains_key(plugin_id@) && e@
                    == "installed Plugin did not appear after confirm"@,
            },
            final(self).plugins_dir == old(self).plugins_dir,
            final(self).platform == old(self).platform,
            final(self).blanks == old(self).blanks,
            final(self).plugin_windows == old(self).plugin_windows,
            final(self).window_groups == old(self).window_groups,
            final(self).pending_install == old(self).pending_install,
    {
        let pid = String::from_str(plugin_id);
        record_grants(&mut self.confirmed_grants, pid.clone(), grants);
        self.plugins = plugins_from_scan(discovered);
        match self.find_plugin(&pid) {
            Some(i) => {
                let m = &self.plugins[i];
                Ok(ListedPlugin { id: m.id.clone(), name: m.name.clone(), version: m.version.clone() })
            },
            None => Err(String::from_str("installed Plugin did not appear after confirm")),
        }
    }

    /// Declines the waiting proposal `proposal_id`: its staging directory, for the caller to
    /// remove. Nothing else changes; a mismatched id leaves the proposal waiting.
    pub fn decline_install(&mut self, proposal_id: &str) -> (r: Result<String, String>)
        ensures
            old(self).pending_install is None ==> (r matches Err(e) && e@ == "no pending Plugin install"@)
                && *final(self) == *old(self),
            old(self).pending_install is Some && !old(self).pending_for(proposal_id@) ==> (r matches Err(e)
                && e@ == "proposal id mismatch"@) && *final(self) == *old(self),
            old(self).pending_for(proposal_id@) ==> r == Ok::<String, String>(
                old(self).pending_install->Some_0.staging_dir,
            ) && final(self).pending_install is None,
            final(self).plugins == old(self).plugins,
            final(self).confirmed_grants == old(self).confirmed_grants,
            final(self).plugins_dir == old(self).plugins_dir,
            final(self).platform == old(self).platform,
            final(self).blanks == old(self).blanks,
            final(self).plugin_windows == old(self).plugin_windows,
            final(self).window_groups == old(self).window_groups,
            final(self).sidecars == old(self).sidecars,
            final(self).running == old(self).running,
    {
        let mut taken: Option<PendingInstall> = None;
        core::mem::swap(&mut taken, &mut self.pending_install);
        let pending = match taken {
            Some(p) => p,
            None => {
                return Err(String::from_str("no pending Plugin install"));
            },
        };
        if pending.proposal.proposal_id != String::from_str(proposal_id) {
            self.pending_install = Some(pending);
            return Err(String::from_str("proposal id mismatch"));
        }
        Ok(pending.staging_dir)
    }

    /// The permissions confirmed at install for `plugin_id`.
    pub fn confirmed_grants_for(&self, plugin_id: &str) -> (r: Option<Vec<PermissionItem>>)
        ensures
            match r {
                Some(g) => grants_map(self.confirmed_grants@).contains_key(plugin_id@) && g@
                    == grants_map(self.confirmed_grants@)[plugin_id@],
                None => !grants_map(self.confirmed_grants@).contains_key(plugin_id@),
            },
    {
        let pid = String::from_str(plugin_id);
        match find_grants(&self.confirmed_grants, &pid) {
            Some(i) => Some(clone_items(&self.confirmed_grants[i].1)),
            None => None,
        }
    }
}

} // verus!
