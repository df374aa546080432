//! Declarative Manifest for a Plugin package, and the rules a parsed Manifest must meet.

use vstd::prelude::*;

use crate::json::{JsonValue, JsonView};
use crate::text::{
    contains_parent_segment, contains_separator, has_parent_segment, has_separator, is_blank,
    is_blank_spec, is_separator, join_path, join_path_spec,
};

verus! {

/// How a Plugin window loads its UI.
#[derive(Debug, Clone, Copy, PartialEq, Eq)]
pub enum WindowType {
    /// Local UI entry.
    Local,
}

/// Bus topics a Plugin may emit, subscribe to, and call (or serve).
#[derive(Debug, PartialEq, Eq, Default)]
pub struct ManifestPermissions {
    pub emit: Vec<String>,
    pub subscribe: Vec<String>,
    pub call: Vec<String>,
}

/// The topics of each permission list, as text.
pub struct PermissionsView {
    pub emit: Seq<Seq<char>>,
    pub subscribe: Seq<Seq<char>>,
    pub call: Seq<Seq<char>>,
}

/// The texts of a list of strings.
pub open spec fn texts(v: Seq<String>) -> Seq<Seq<char>> {
    v.map_values(|s: String| s@)
}

impl View for ManifestPermissions {
    type V = PermissionsView;

    open spec fn view(&self) -> PermissionsView {
        PermissionsView {
            emit: texts(self.emit@),
            subscribe: texts(self.subscribe@),
            call: texts(self.call@),
        }
    }
}

/// A copy of a list of strings.
pub fn clone_strings(v: &Vec<String>) -> (r: Vec<String>)
    ensures
        r@ == v@,
{
    let r = v.clone();
    assert(r@ =~= v@);
    r
}

impl Clone for ManifestPermissions {
    fn clone(&self) -> (r: Self)
        ensures
            r@ == self@,
            r.emit@ == self.emit@,
            r.subscribe@ == self.subscribe@,
            r.call@ == self.call@,
    {
        ManifestPermissions {
            emit: clone_strings(&self.emit),
            subscribe: clone_strings(&self.subscribe),
            call: clone_strings(&self.call),
        }
    }
}

/// Request and response schemas of one Bus topic (for events, `request` is the payload shape).
#[derive(Debug, PartialEq, Eq)]
pub struct BusContract {
    pub request: JsonValue,
    pub response: JsonValue,
}

impl View for BusContract {
    type V = (JsonView, JsonView);

    open spec fn view(&self) -> (JsonView, JsonView) {
        (self.request@, self.response@)
    }
}

impl Clone for BusContract {
    fn clone(&self) -> (r: Self)
        ensures
            r@ == self@,
    {
        BusContract { request: self.request.clone(), response: self.response.clone() }
    }
}

/// The contracts of a topic list, as views.
pub open spec fn contracts_view(c: Seq<(String, BusContract)>) -> Seq<(Seq<char>, (JsonView, JsonView))> {
    c.map_values(|e: (String, BusContract)| (e.0@, e.1@))
}

/// A copy of a list of topic contracts.
pub fn clone_contracts(c: &Vec<(String, BusContract)>) -> (r: Vec<(String, BusContract)>)
    ensures
        contracts_view(r@) == contracts_view(c@),
{
    let mut out: Vec<(String, BusContract)> = Vec::new();
    let mut i: usize = 0;
    while i < c.len()
        invariant
            i <= c@.len(),
            out@.len() == i,
            contracts_view(out@) =~= contracts_view(c@.subrange(0, i as int)),
        decreases c.len() - i,
    {
        let k = c[i].0.clone();
        let v = c[i].1.clone();
        let ghost before = out@;
        out.push((k, v));
        proof {
            assert(out@ =~= before.push((k, v)));
            assert forall|j: int| 0 <= j < out@.len() implies contracts_view(out@)[j] == contracts_view(
                c@.subrange(0, i + 1),
            )[j] by {
                if j < i {
                    assert(out@[j] == before[j]);
                    assert(contracts_view(before)[j] == contracts_view(c@.subrange(0, i as int))[j]);
                }
            }
        }
        i = i + 1;
    }
    assert(c@.subrange(0, c@.len() as int) =~= c@);
    out
}

/// Index of the first contract named `topic`, or -1.
pub open spec fn contract_pos(contracts: Seq<(String, BusContract)>, topic: Seq<char>) -> int
    decreases contracts.len(),
{
    if contracts.len() == 0 {
        -1
    } else if contracts[0].0@ == topic {
        0
    } else {
        let p = contract_pos(contracts.drop_first(), topic);
        if p < 0 {
            -1
        } else {
            p + 1
        }
    }
}

/// `contract_pos` is the first index naming `topic`, or -1.
pub proof fn lemma_contract_pos(contracts: Seq<(String, BusContract)>, topic: Seq<char>)
    ensures
        -1 <= contract_pos(contracts, topic) < contracts.len(),
        contract_pos(contracts, topic) >= 0 ==> contracts[contract_pos(contracts, topic)].0@ == topic,
        forall|j: int|
            0 <= j < contracts.len() && (contract_pos(contracts, topic) < 0 || j < contract_pos(
                contracts,
                topic,
            )) ==> #[trigger] contracts[j].0@ != topic,
    decreases contracts.len(),
{
    if contracts.len() > 0 && contracts[0].0@ != topic {
        let t = contracts.drop_first();
        lemma_contract_pos(t, topic);
        assert forall|j: int|
            0 <= j < contracts.len() && (contract_pos(contracts, topic) < 0 || j < contract_pos(
                contracts,
                topic,
            )) implies #[trigger] contracts[j].0@ != topic by {
            if j > 0 {
                assert(contracts[j] == t[j - 1]);
            }
        }
    }
}

proof fn lemma_contract_pos_is(contracts: Seq<(String, BusContract)>, topic: Seq<char>, i: int)
    requires
        -1 <= i < contracts.len(),
        i >= 0 ==> contracts[i].0@ == topic,
        forall|j: int| 0 <= j < contracts.len() && (i < 0 || j < i) ==> #[trigger] contracts[j].0@ != topic,
    ensures
        contract_pos(contracts, topic) == i,
{
    lemma_contract_pos(contracts, topic);
    let p = contract_pos(contracts, topic);
    if p >= 0 && i >= 0 && p != i {
        if p < i {
            assert(contracts[p].0@ != topic);
        } else {
            assert(contracts[i].0@ != topic);
        }
    }
    if p < 0 && i >= 0 {
        assert(contracts[i].0@ != topic);
    }
    if p >= 0 && i < 0 {
        assert(contracts[p].0@ != topic);
    }
}

/// Where a topic's contract sits depends only on the contracts' views.
pub proof fn lemma_contract_pos_views(
    a: Seq<(String, BusContract)>,
    b: Seq<(String, BusContract)>,
    topic: Seq<char>,
)
    requires
        contracts_view(a) == contracts_view(b),
    ensures
        contract_pos(a, topic) == contract_pos(b, topic),
{
    assert(a.len() == contracts_view(a).len());
    assert(b.len() == contracts_view(b).len());
    assert forall|j: int| 0 <= j < a.len() implies #[trigger] a[j].0@ == b[j].0@ by {
        assert(contracts_view(a)[j] == contracts_view(b)[j]);
    }
    lemma_contract_pos(a, topic);
    let p = contract_pos(a, topic);
    assert forall|j: int| 0 <= j < b.len() && (p < 0 || j < p) implies #[trigger] b[j].0@ != topic by {
        assert(a[j].0@ == b[j].0@);
    }
    if p >= 0 {
        assert(a[p].0@ == b[p].0@);
    }
    lemma_contract_pos_is(b, topic, p);
}

/// Some contract in `contracts` is named `topic`.
pub open spec fn declares_topic(contracts: Seq<(String, BusContract)>, topic: Seq<char>) -> bool {
    contract_pos(contracts, topic) >= 0
}

/// The contract of the first entry named `topic`.
pub open spec fn contract_of(contracts: Seq<(String, BusContract)>, topic: Seq<char>) -> BusContract {
    contracts[contract_pos(contracts, topic)].1
}

/// The contract declared for `topic`: the first entry with that name.
pub fn contract_for<'a>(contracts: &'a Vec<(String, BusContract)>, topic: &String) -> (r: Option<
    &'a BusContract,
>)
    ensures
        match r {
            Some(c) => declares_topic(contracts@, topic@) && *c == contract_of(contracts@, topic@),
            None => !declares_topic(contracts@, topic@),
        },
{
    let mut i: usize = 0;
    while i < contracts.len()
        invariant
            i <= contracts@.len(),
            forall|j: int| 0 <= j < i ==> #[trigger] contracts@[j].0@ != topic@,
        decreases contracts.len() - i,
    {
        if contracts[i].0 == *topic {
            proof {
                lemma_contract_pos_is(contracts@, topic@, i as int);
            }
            return Some(&contracts[i].1);
        }
        i = i + 1;
    }
    proof {
        lemma_contract_pos_is(contracts@, topic@, -1);
    }
    None
}

/// A Plugin's Manifest after validation.
#[derive(Debug, PartialEq, Eq)]
pub struct Manifest {
    pub id: String,
    pub name: String,
    pub version: String,
    pub ui: String,
    pub window_type: WindowType,
    /// Directory the Plugin package lives in.
    pub root: String,
    /// Relative Sidecar entry; when set the Plugin is privileged.
    pub sidecar: Option<String>,
    /// Reserved publisher signature; accepted and carried, never verified.
    pub signature: Option<String>,
    pub permissions: ManifestPermissions,
    pub contracts: Vec<(String, BusContract)>,
}

/// The content of a Manifest.
pub struct ManifestView {
    pub id: Seq<char>,
    pub name: Seq<char>,
    pub version: Seq<char>,
    pub ui: Seq<char>,
    pub root: Seq<char>,
    pub sidecar: Option<String>,
    pub signature: Option<String>,
    pub permissions: PermissionsView,
    pub contracts: Seq<(Seq<char>, (JsonView, JsonView))>,
}

impl View for Manifest {
    type V = ManifestView;

    open spec fn view(&self) -> ManifestView {
        ManifestView {
            id: self.id@,
            name: self.name@,
            version: self.version@,
            ui: self.ui@,
            root: self.root@,
            sidecar: self.sidecar,
            signature: self.signature,
            permissions: self.permissions@,
            contracts: contracts_view(self.contracts@),
        }
    }
}

/// A copy of an optional string.
pub fn clone_opt_string(s: &Option<String>) -> (r: Option<String>)
    ensures
        r == *s,
{
    match s {
        Some(t) => Some(t.clone()),
        None => None,
    }
}

impl Clone for Manifest {
    fn clone(&self) -> (r: Self)
        ensures
            r@ == self@,
            r.id == self.id,
            r.name == self.name,
            r.version == self.version,
            r.ui == self.ui,
            r.root == self.root,
            r.sidecar == self.sidecar,
            r.signature == self.signature,
            r.permissions@ == self.permissions@,
    {
        Manifest {
            id: self.id.clone(),
            name: self.name.clone(),
            version: self.version.clone(),
            ui: self.ui.clone(),
            window_type: self.window_type,
            root: self.root.clone(),
            sidecar: clone_opt_string(&self.sidecar),
            signature: clone_opt_string(&self.signature),
            permissions: self.permissions.clone(),
            contracts: clone_contracts(&self.contracts),
        }
    }
}

/// Why a Plugin package is rejected.
#[derive(Debug, Clone, Copy, PartialEq, Eq)]
pub enum ManifestError {
    MissingFile,
    InvalidJson,
    InvalidField(&'static str),
    MissingUiEntry,
    MissingSidecarEntry,
}

impl ManifestError {
    /// Human-readable description.
    pub fn message(&self) -> (r: String)
        ensures
            r@ == match *self {
                ManifestError::MissingFile => "Manifest file missing"@,
                ManifestError::InvalidJson => "Manifest file is not valid JSON"@,
                ManifestError::InvalidField(f) => "manifest field invalid: "@ + f@,
                ManifestError::MissingUiEntry => "ui entry file missing"@,
                ManifestError::MissingSidecarEntry => "sidecar entry missing"@,
            },
    {
        match self {
            ManifestError::MissingFile => String::from_str("Manifest file missing"),
            ManifestError::InvalidJson => String::from_str("Manifest file is not valid JSON"),
            ManifestError::InvalidField(f) => String::from_str("manifest field invalid: ").concat(f),
            ManifestError::MissingUiEntry => String::from_str("ui entry file missing"),
            ManifestError::MissingSidecarEntry => String::from_str("sidecar entry missing"),
        }
    }
}

/// The fields of a Manifest file as parsed, before validation.
#[derive(Debug, PartialEq, Eq)]
pub struct ManifestFile {
    pub id: String,
    pub name: String,
    pub version: String,
    pub ui: String,
    /// `window.type`
    pub window_type: String,
    pub sidecar: Option<String>,
    pub signature: Option<String>,
    pub permissions: Option<ManifestPermissions>,
    pub contracts: Option<Vec<(String, BusContract)>>,
}

/// `Err(InvalidField(field))` when `value` is empty after trimming.
pub fn validate_non_empty(value: &str, field: &'static str) -> (r: Result<(), ManifestError>)
    ensures
        match r {
            Ok(()) => !is_blank_spec(value@),
            Err(e) => is_blank_spec(value@) && e == ManifestError::InvalidField(field),
        },
{
    if is_blank(value) {
        return Err(ManifestError::InvalidField(field));
    }
    Ok(())
}

/// `relative` under `root`, refused when any of its segments is `..`.
pub fn resolve_under_root(root: &str, relative: &str) -> (r: Result<String, ManifestError>)
    ensures
        match r {
            Ok(p) => !has_parent_segment(relative@) && p@ == join_path_spec(root@, relative@),
            Err(e) => has_parent_segment(relative@) && e == ManifestError::InvalidField("path"),
        },
{
    if contains_parent_segment(relative) {
        return Err(ManifestError::InvalidField("path"));
    }
    Ok(join_path(root, relative))
}

/// The first rule a parsed Manifest breaks, in the order they are checked; `ui_is_file` and
/// `sidecar_exists` say whether `root/ui` is a file and `root/sidecar` exists.
pub open spec fn manifest_problem(file: ManifestFile, ui_is_file: bool, sidecar_exists: bool) -> Option<
    ManifestError,
> {
    if is_blank_spec(file.id@) {
        Some(ManifestError::InvalidField("id"))
    } else if is_blank_spec(file.name@) {
        Some(ManifestError::InvalidField("name"))
    } else if is_blank_spec(file.version@) {
        Some(ManifestError::InvalidField("version"))
    } else if is_blank_spec(file.ui@) {
        Some(ManifestError::InvalidField("ui"))
    } else if file.window_type@ != "local"@ {
        Some(ManifestError::InvalidField("window.type"))
    } else if has_parent_segment(file.ui@) {
        Some(ManifestError::InvalidField("path"))
    } else if !ui_is_file {
        Some(ManifestError::MissingUiEntry)
    } else {
        match file.sidecar {
            Some(sc) => if is_blank_spec(sc@) {
                Some(ManifestError::InvalidField("sidecar"))
            } else if has_separator(sc@) && has_parent_segment(sc@) {
                Some(ManifestError::InvalidField("path"))
            } else if has_separator(sc@) && !sidecar_exists {
                Some(ManifestError::MissingSidecarEntry)
            } else {
                None
            },
            None => None,
        }
    }
}

/// The Sidecar entry, if any, is a bare name: it holds neither `/` nor `\\`.
pub open spec fn bare_sidecar(file: ManifestFile) -> bool {
    match file.sidecar {
        Some(sc) => !sc@.contains('/') && !sc@.contains('\\'),
        None => true,
    }
}

/// Only a Sidecar entry holding a path separator is looked for on disk: with a bare Sidecar
/// name (found at spawn time) validation does not depend on whether such a file exists, and
/// `MissingSidecarEntry` is given only for a separated entry that does not exist.
pub proof fn law_only_separated_sidecar_entries_are_looked_for(file: ManifestFile, ui_is_file: bool, sidecar_exists: bool)
    ensures
        bare_sidecar(file) ==> manifest_problem(file, ui_is_file, true) == manifest_problem(file, ui_is_file, false),
        manifest_problem(file, ui_is_file, sidecar_exists) == Some(ManifestError::MissingSidecarEntry) ==> {
            &&& !sidecar_exists
            &&& !bare_sidecar(file)
        },
{
    match file.sidecar {
        Some(sc) => {
            if has_separator(sc@) {
                let i = choose|i: int| 0 <= i < sc@.len() && is_separator(#[trigger] sc@[i]);
                assert(sc@.contains(sc@[i]));
            }
            if !has_separator(sc@) {
                assert forall|i: int| 0 <= i < sc@.len() implies sc@[i] != '/' && sc@[i] != '\\' by {
                    assert(!is_separator(sc@[i]));
                }
            }
        },
        None => {},
    }
}

impl Manifest {
    /// Validates a parsed Manifest file found in `root`. `ui_is_file` tells whether
    /// `join_path(root, ui)` is a file and `sidecar_exists` whether `join_path(root, sidecar)`
    /// exists; bare Sidecar names (no separator) are resolved at spawn time and not checked.
    pub fn from_parsed(file: ManifestFile, root: &str, ui_is_file: bool, sidecar_exists: bool) -> (r:
        Result<Manifest, ManifestError>)
        ensures
            match r {
                Ok(m) => {
                    &&& manifest_problem(file, ui_is_file, sidecar_exists) is None
                    &&& m.id == file.id
                    &&& m.name == file.name
                    &&& m.version == file.version
                    &&& m.ui == file.ui
                    &&& m.window_type == WindowType::Local
                    &&& m.root@ == root@
                    &&& m.sidecar == file.sidecar
                    &&& m.signature == file.signature
                    &&& match file.permissions {
                        Some(p) => m.permissions == p,
                        None => m.permissions.emit@.len() == 0 && m.permissions.subscribe@.len()
                            == 0 && m.permissions.call@.len() == 0,
                    }
                    &&& match file.contracts {
                        Some(c) => m.contracts == c,
                        None => m.contracts@.len() == 0,
                    }
                },
                Err(e) => manifest_problem(file, ui_is_file, sidecar_exists) == Some(e),
            },
    {
        validate_non_empty(file.id.as_str(), "id")?;
        validate_non_empty(file.name.as_str(), "name")?;
        validate_non_empty(file.version.as_str(), "version")?;
        validate_non_empty(file.ui.as_str(), "ui")?;
        if file.window_type != String::from_str("local") {
            return Err(ManifestError::InvalidField("window.type"));
        }
        let _ui_path = resolve_under_root(root, file.ui.as_str())?;
        if !ui_is_file {
            return Err(ManifestError::MissingUiEntry);
        }
        match &file.sidecar {
            Some(sc) => {
                validate_non_empty(sc.as_str(), "sidecar")?;
                if contains_separator(sc.as_str()) {
                    let _sidecar_path = resolve_under_root(root, sc.as_str())?;
                    if !sidecar_exists {
                        return Err(ManifestError::MissingSidecarEntry);
                    }
                }
            },
            None => {},
        }
        let permissions = match file.permissions {
            Some(p) => p,
            None => ManifestPermissions { emit: Vec::new(), subscribe: Vec::new(), call: Vec::new() },
        };
        let contracts = match file.contracts {
            Some(c) => c,
            None => Vec::new(),
        };
        Ok(
            Manifest {
                id: file.id,
                name: file.name,
                version: file.version,
                ui: file.ui,
                window_type: WindowType::Local,
                root: String::from_str(root),
                sidecar: file.sidecar,
                signature: file.signature,
                permissions,
                contracts,
            },
        )
    }

    /// Path of the UI entry (`root` joined with `ui`).
    pub fn ui_entry_path(&self) -> (r: String)
        ensures
            r@ == join_path_spec(self.root@, self.ui@),
    {
        join_path(self.root.as_str(), self.ui.as_str())
    }

    /// Path of the Sidecar entry, for privileged Plugins.
    pub fn sidecar_entry_path(&self) -> (r: Option<String>)
        ensures
            match self.sidecar {
                Some(s) => r matches Some(p) && p@ == join_path_spec(self.root@, s@),
                None => r is None,
            },
    {
        match &self.sidecar {
            Some(s) => Some(join_path(self.root.as_str(), s.as_str())),
            None => None,
        }
    }

    /// A Plugin with a Sidecar is privileged.
    pub fn is_privileged(&self) -> (b: bool)
        ensures
            b == self.sidecar is Some,
    {
        self.sidecar.is_some()
    }
}

} // verus!
