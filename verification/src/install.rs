//! Local Plugin install: propose → confirm permissions → copy into the plugins directory.
//! This module holds the permission listing a proposal shows; staging and copying files is
//! done by the caller.

use vstd::prelude::*;

use crate::manifest::{texts, Manifest, PermissionsView};

verus! {

/// One permission a Plugin asks for, as shown before install.
#[derive(Debug, PartialEq, Eq)]
pub struct PermissionItem {
    pub kind: String,
    pub detail: String,
    pub sensitive: bool,
}

impl View for PermissionItem {
    type V = (Seq<char>, Seq<char>, bool);

    open spec fn view(&self) -> (Seq<char>, Seq<char>, bool) {
        (self.kind@, self.detail@, self.sensitive)
    }
}

impl Clone for PermissionItem {
    fn clone(&self) -> (r: Self)
        ensures
            r == *self,
    {
        PermissionItem { kind: self.kind.clone(), detail: self.detail.clone(), sensitive: self.sensitive }
    }
}

/// The views of a permission list.
pub open spec fn items_view(v: Seq<PermissionItem>) -> Seq<(Seq<char>, Seq<char>, bool)> {
    v.map_values(|p: PermissionItem| p@)
}

/// A copy of a permission list.
pub fn clone_items(v: &Vec<PermissionItem>) -> (r: Vec<PermissionItem>)
    ensures
        r@ == v@,
{
    let r = v.clone();
    assert(r@ =~= v@);
    r
}

/// What the user is asked to confirm before a Plugin is installed.
#[derive(Debug, PartialEq, Eq)]
pub struct InstallProposal {
    pub proposal_id: String,
    pub plugin_id: String,
    pub name: String,
    pub version: String,
    pub permissions: Vec<PermissionItem>,
    pub signature_present: bool,
    pub source_kind: String,
}

/// `a` and `b` propose the same install: every field agrees.
pub open spec fn same_proposal(a: InstallProposal, b: InstallProposal) -> bool {
    &&& a.proposal_id == b.proposal_id
    &&& a.plugin_id == b.plugin_id
    &&& a.name == b.name
    &&& a.version == b.version
    &&& a.permissions@ == b.permissions@
    &&& a.signature_present == b.signature_present
    &&& a.source_kind == b.source_kind
}

impl Clone for InstallProposal {
    fn clone(&self) -> (r: Self)
        ensures
            r.proposal_id == self.proposal_id,
            r.plugin_id == self.plugin_id,
            r.name == self.name,
            r.version == self.version,
            r.permissions@ == self.permissions@,
            r.signature_present == self.signature_present,
            r.source_kind == self.source_kind,
    {
        InstallProposal {
            proposal_id: self.proposal_id.clone(),
            plugin_id: self.plugin_id.clone(),
            name: self.name.clone(),
            version: self.version.clone(),
            permissions: clone_items(&self.permissions),
            signature_present: self.signature_present,
            source_kind: self.source_kind.clone(),
        }
    }
}

/// A proposal waiting for confirmation, with the staged package it installs.
#[derive(Debug)]
pub struct PendingInstall {
    pub proposal: InstallProposal,
    pub staging_dir: String,
    pub manifest: Manifest,
}

/// One sensitive item of `kind` per topic, in order.
pub open spec fn topic_items(kind: Seq<char>, topics: Seq<Seq<char>>) -> Seq<(Seq<char>, Seq<char>, bool)> {
    topics.map_values(|t: Seq<char>| (kind, t, true))
}

/// What a proposal lists for a Manifest: the Sidecar when privileged, then the emit, subscribe
/// and call topics, every one of them sensitive.
pub open spec fn permission_items_spec(privileged: bool, perms: PermissionsView) -> Seq<
    (Seq<char>, Seq<char>, bool),
> {
    (if privileged {
        seq![("sidecar"@, "Runs a privileged Sidecar process"@, true)]
    } else {
        Seq::empty()
    }) + topic_items("emit"@, perms.emit) + topic_items("subscribe"@, perms.subscribe) + topic_items(
        "call"@,
        perms.call,
    )
}

proof fn lemma_items_sensitive(privileged: bool, perms: PermissionsView)
    ensures
        forall|j: int|
            0 <= j < permission_items_spec(privileged, perms).len() ==> (#[trigger] permission_items_spec(
                privileged,
                perms,
            )[j]).2,
{
    let a: Seq<(Seq<char>, Seq<char>, bool)> = if privileged {
        seq![("sidecar"@, "Runs a privileged Sidecar process"@, true)]
    } else {
        Seq::empty()
    };
    let b = topic_items("emit"@, perms.emit);
    let c = topic_items("subscribe"@, perms.subscribe);
    let d = topic_items("call"@, perms.call);
    assert forall|j: int| 0 <= j < a.len() implies (#[trigger] a[j]).2 by {}
    assert forall|j: int| 0 <= j < b.len() implies (#[trigger] b[j]).2 by {}
    assert forall|j: int| 0 <= j < c.len() implies (#[trigger] c[j]).2 by {}
    assert forall|j: int| 0 <= j < d.len() implies (#[trigger] d[j]).2 by {}
    let ab = a + b;
    assert forall|j: int| 0 <= j < ab.len() implies (#[trigger] ab[j]).2 by {
        if j >= a.len() {
            assert(ab[j] == b[j - a.len()]);
        }
    }
    let abc = ab + c;
    assert forall|j: int| 0 <= j < abc.len() implies (#[trigger] abc[j]).2 by {
        if j >= ab.len() {
            assert(abc[j] == c[j - ab.len()]);
        }
    }
    let all = abc + d;
    assert forall|j: int| 0 <= j < all.len() implies (#[trigger] all[j]).2 by {
        if j >= abc.len() {
            assert(all[j] == d[j - abc.len()]);
        }
    }
    assert(all == permission_items_spec(privileged, perms));
}

fn push_topic_items(items: &mut Vec<PermissionItem>, kind: &str, topics: &Vec<String>)
    ensures
        items_view(final(items)@) == items_view(old(items)@) + topic_items(kind@, texts(topics@)),
{
    let ghost start = items_view(items@);
    let mut i: usize = 0;
    while i < topics.len()
        invariant
            i <= topics@.len(),
            items_view(items@) =~= start + topic_items(kind@, texts(topics@.subrange(0, i as int))),
        decreases topics.len() - i,
    {
        let ghost before = items@;
        items.push(PermissionItem { kind: String::from_str(kind), detail: topics[i].clone(), sensitive: true });
        proof {
            assert(texts(topics@.subrange(0, i + 1)) =~= texts(topics@.subrange(0, i as int)).push(
                topics@[i as int]@,
            ));
            assert(items@ =~= before.push(items@.last()));
            assert(items_view(items@) =~= items_view(before).push(items@.last()@));
        }
        i = i + 1;
    }
    assert(topics@.subrange(0, topics@.len() as int) =~= topics@);
}

/// The permissions a proposal shows for `manifest`.
pub fn permission_items(manifest: &Manifest) -> (items: Vec<PermissionItem>)
    ensures
        items_view(items@) == permission_items_spec(manifest.sidecar is Some, manifest.permissions@),
        forall|i: int| 0 <= i < items@.len() ==> #[trigger] items@[i].sensitive,
{
    let mut items: Vec<PermissionItem> = Vec::new();
    if manifest.is_privileged() {
        items.push(
            PermissionItem {
                kind: String::from_str("sidecar"),
                detail: String::from_str("Runs a privileged Sidecar process"),
                sensitive: true,
            },
        );
    }
    assert(items_view(items@) =~= (if manifest.sidecar is Some {
        seq![("sidecar"@, "Runs a privileged Sidecar process"@, true)]
    } else {
        Seq::empty()
    }));
    push_topic_items(&mut items, "emit", &manifest.permissions.emit);
    push_topic_items(&mut items, "subscribe", &manifest.permissions.subscribe);
    push_topic_items(&mut items, "call", &manifest.permissions.call);
    proof {
        let v = items_view(items@);
        lemma_items_sensitive(manifest.sidecar is Some, manifest.permissions@);
        assert forall|i: int| 0 <= i < items@.len() implies #[trigger] items@[i].sensitive by {
            assert(v[i] == items@[i]@);
            assert(v == permission_items_spec(manifest.sidecar is Some, manifest.permissions@));
            assert(permission_items_spec(manifest.sidecar is Some, manifest.permissions@)[i].2);
        }
    }
    items
}

} // verus!
