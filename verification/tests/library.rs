use std::io::Write;
use spacecraft::bus::{Bus, BusError};
use spacecraft::host::Host;
use spacecraft::install::{permission_items, PermissionItem};
use spacecraft::install_flow::{grants_file, record_grants, staging_dir_for, zip_extract_dir};
use spacecraft::json::{validate_against_schema, JsonValue};
use spacecraft::manifest::{
    resolve_under_root, validate_non_empty, BusContract, Manifest, ManifestError, ManifestFile,
    ManifestPermissions,
};
use spacecraft::memory_platform::MemoryPlatform;
use spacecraft::platform::{HostCommand, Platform, WindowId, WindowKind};
use spacecraft::sidecar_bridge::{echo_step, sidecar_binary_candidates, EchoStep, HostToSidecar, SidecarToHost};
use spacecraft::text::{is_blank, join_path, str_less, trim, u64_to_decimal};
use spacecraft::zip_package::{extraction_plan, unpack_zip, ZipEntry};
use spacecraft::workspace::{
    WindowGeometry, Workspace, WorkspaceGroup, WorkspaceGroupMember, WorkspaceWindow,
    WorkspaceWindowKind,
};

fn s(t: &str) -> JsonValue {
    JsonValue::Str(t.to_string())
}

fn obj(entries: Vec<(&str, JsonValue)>) -> JsonValue {
    JsonValue::Object(entries.into_iter().map(|(k, v)| (k.to_string(), v)).collect())
}

fn file(id: &str) -> ManifestFile {
    ManifestFile {
        id: id.to_string(),
        name: "Name".to_string(),
        version: "1.0.0".to_string(),
        ui: "index.html".to_string(),
        window_type: "local".to_string(),
        sidecar: None,
        signature: None,
        permissions: None,
        contracts: None,
    }
}

fn plain(id: &str) -> Manifest {
    Manifest::from_parsed(file(id), "plugins", true, true).expect("manifest")
}

fn boot() -> Host<MemoryPlatform> {
    let mut host = Host::new(MemoryPlatform::new());
    host.start();
    host
}

fn g(n: u64) -> WindowGeometry {
    WindowGeometry { x: n, y: n + 1, width: n + 2, height: n + 3 }
}

#[test]
fn trim_and_blank_follow_unicode_whitespace() {
    assert_eq!(trim("  Stack \u{3000}"), "Stack");
    assert_eq!(trim("\t\n"), "");
    assert!(is_blank(" \u{a0} "));
    assert!(!is_blank(" a "));
}

#[test]
fn join_path_appends_with_one_separator() {
    assert_eq!(join_path("plugins", "hello"), "plugins/hello");
    assert_eq!(join_path("plugins/", "hello"), "plugins/hello");
    assert_eq!(join_path("plugins", "/abs"), "/abs");
    assert_eq!(join_path("", "x"), "x");
}

#[test]
fn ids_order_like_string_comparison() {
    assert!(str_less("echo", "hello"));
    assert!(!str_less("hello", "echo"));
    assert!(str_less("ab", "abc"));
    assert!(!str_less("same", "same"));
}

#[test]
fn decimal_rendering() {
    assert_eq!(u64_to_decimal(0), "0");
    assert_eq!(u64_to_decimal(1907), "1907");
    assert_eq!(u64_to_decimal(u64::MAX), "18446744073709551615");
}

#[test]
fn schema_checks_report_the_first_violation() {
    let schema = obj(vec![
        ("type", s("object")),
        ("properties", obj(vec![("n", obj(vec![("type", s("number"))]))])),
        ("required", JsonValue::Array(vec![s("n")])),
    ]);
    assert_eq!(validate_against_schema(&obj(vec![("n", JsonValue::Number("3".into()))]), &schema), Ok(()));
    assert_eq!(
        validate_against_schema(&obj(vec![]), &schema),
        Err("missing required field `n`".to_string())
    );
    assert_eq!(
        validate_against_schema(&obj(vec![("n", s("three"))]), &schema),
        Err("expected number".to_string())
    );
    assert_eq!(validate_against_schema(&s("x"), &schema), Err("expected object".to_string()));
    assert_eq!(
        validate_against_schema(&s("x"), &obj(vec![("type", s("date"))])),
        Err("unsupported schema type `date`".to_string())
    );
}

#[test]
fn manifest_rules_in_order() {
    let mut f = file("a");
    f.name = "  ".to_string();
    assert_eq!(Manifest::from_parsed(f, "r", true, true).unwrap_err(), ManifestError::InvalidField("name"));
    let mut f = file("a");
    f.window_type = "remote".to_string();
    assert_eq!(Manifest::from_parsed(f, "r", true, true).unwrap_err(), ManifestError::InvalidField("window.type"));
    let mut f = file("a");
    f.ui = "../escape.html".to_string();
    assert_eq!(Manifest::from_parsed(f, "r", true, true).unwrap_err(), ManifestError::InvalidField("path"));
    assert_eq!(Manifest::from_parsed(file("a"), "r", false, true).unwrap_err(), ManifestError::MissingUiEntry);
    let mut f = file("a");
    f.sidecar = Some("bin/side".to_string());
    assert_eq!(Manifest::from_parsed(f, "r", true, false).unwrap_err(), ManifestError::MissingSidecarEntry);
    assert_eq!(ManifestError::MissingUiEntry.message(), "ui entry file missing");
    assert_eq!(validate_non_empty(" ", "id"), Err(ManifestError::InvalidField("id")));
    assert_eq!(resolve_under_root("root", "a/b"), Ok("root/a/b".to_string()));
    assert_eq!(resolve_under_root("root", "a/../b"), Err(ManifestError::InvalidField("path")));
}

#[test]
fn entry_paths_join_root() {
    let mut f = file("p");
    f.sidecar = Some("bin/side".to_string());
    let m = Manifest::from_parsed(f, "plugins/p", true, true).expect("manifest");
    assert_eq!(m.ui_entry_path(), "plugins/p/index.html");
    assert_eq!(m.sidecar_entry_path(), Some("plugins/p/bin/side".to_string()));
    assert!(m.is_privileged());
}

#[test]
fn permission_items_list_sidecar_then_topics() {
    let mut f = file("p");
    f.sidecar = Some("side".to_string());
    f.permissions = Some(ManifestPermissions {
        emit: vec!["a".to_string()],
        subscribe: vec!["b".to_string()],
        call: vec!["c".to_string()],
    });
    let m = Manifest::from_parsed(f, "plugins/p", true, true).expect("manifest");
    let items = permission_items(&m);
    let kinds: Vec<(&str, &str)> = items.iter().map(|i| (i.kind.as_str(), i.detail.as_str())).collect();
    assert_eq!(
        kinds,
        vec![("sidecar", "Runs a privileged Sidecar process"), ("emit", "a"), ("subscribe", "b"), ("call", "c")]
    );
    assert!(items.iter().all(|i| i.sensitive));
}

#[test]
fn bus_errors_read_as_messages() {
    let e = BusError::PermissionDenied { action: "emit", topic: "t".to_string() };
    assert_eq!(e.message(), "Bus permission denied: cannot emit `t`");
    assert_eq!(BusError::NotLoaded("x".to_string()).message(), "Plugin not loaded on Bus: x");
    assert_eq!(BusError::NoHandler("t".to_string()).message(), "no handler for `t`");
}

#[test]
fn publish_reaches_every_subscriber_in_order() {
    let mut bus = Bus::new();
    let mut f = file("p");
    f.permissions = Some(ManifestPermissions {
        emit: vec!["t".to_string()],
        subscribe: vec!["t".to_string()],
        call: vec![],
    });
    f.contracts = Some(vec![("t".to_string(), BusContract { request: obj(vec![]), response: obj(vec![]) })]);
    let m = Manifest::from_parsed(f, "r", true, true).expect("manifest");
    let p = bus.proxy(m.id.clone(), m.permissions.clone(), m.contracts.clone());
    let a = p.subscribe(&mut bus, "t").expect("a");
    let b = p.subscribe(&mut bus, "t").expect("b");
    assert_ne!(a, b);
    assert_eq!(p.emit(&bus, "t", &obj(vec![])).expect("emit"), vec![a, b]);
    assert_eq!(p.call(&bus, "t", &obj(vec![])).unwrap_err(), BusError::PermissionDenied { action: "call", topic: "t".to_string() });
}

#[test]
fn call_without_server_has_no_handler() {
    let bus = Bus::new();
    let mut f = file("p");
    f.permissions = Some(ManifestPermissions { emit: vec![], subscribe: vec![], call: vec!["q".to_string()] });
    f.contracts = Some(vec![("q".to_string(), BusContract { request: obj(vec![]), response: obj(vec![]) })]);
    let m = Manifest::from_parsed(f, "r", true, true).expect("manifest");
    let p = bus.proxy(m.id.clone(), m.permissions.clone(), m.contracts.clone());
    assert_eq!(p.call(&bus, "q", &obj(vec![])).unwrap_err(), BusError::NoHandler("q".to_string()));
}

#[test]
fn echo_sidecar_answers_and_refuses() {
    match echo_step(HostToSidecar::Call { id: "7".into(), topic: "other".into(), payload: JsonValue::Null }) {
        EchoStep::Reply(SidecarToHost::Error { id, message }) => {
            assert_eq!(id, Some("7".to_string()));
            assert_eq!(message, "unhandled call `other`");
        },
        other => panic!("unexpected {:?}", other),
    }
    assert_eq!(echo_step(HostToSidecar::Shutdown), EchoStep::Stop);
    assert_eq!(
        echo_step(HostToSidecar::Event { topic: "x".into(), payload: JsonValue::Null }),
        EchoStep::Ignore
    );
}

#[test]
fn install_paths() {
    assert_eq!(grants_file("plugins"), "plugins/.spacecraft-grants.json");
    assert_eq!(staging_dir_for("/tmp/st", "zip", "notes"), "/tmp/st/zip-notes");
    assert_eq!(zip_extract_dir("/tmp/st"), "/tmp/st/zip-extract");
}

#[test]
fn recorded_grants_replace_earlier_ones() {
    let item = |d: &str| PermissionItem { kind: "emit".into(), detail: d.into(), sensitive: true };
    let mut all: Vec<(String, Vec<PermissionItem>)> = Vec::new();
    record_grants(&mut all, "a".into(), vec![item("x")]);
    record_grants(&mut all, "b".into(), vec![]);
    record_grants(&mut all, "a".into(), vec![item("y")]);
    assert_eq!(all.len(), 2);
    assert_eq!(all[0], ("a".to_string(), vec![item("y")]));
}

#[test]
fn listed_plugins_are_sorted_and_later_scan_entries_win() {
    let mut host = boot();
    let mut dup = file("b");
    dup.name = "Second".to_string();
    let second = Manifest::from_parsed(dup, "plugins", true, true).expect("manifest");
    host.load_plugins_from("plugins", vec![plain("c"), plain("b"), plain("a"), second], Vec::new());
    let listed = host.listed_plugins();
    let ids: Vec<&str> = listed.iter().map(|p| p.id.as_str()).collect();
    assert_eq!(ids, vec!["a", "b", "c"]);
    assert_eq!(listed[1].name, "Second");
}

#[test]
fn stop_when_not_running_does_nothing() {
    let mut host = Host::new(MemoryPlatform::new());
    host.set_workspace_path("w.json".to_string());
    host.open_blank_window();
    assert!(host.stop().is_none());
    assert_eq!(host.list_content_windows().len(), 1);
}

#[test]
fn stop_closes_everything_and_quit_requests_exit() {
    let mut host = boot();
    host.load_plugins_from("plugins", vec![plain("hello")], Vec::new());
    host.open_launcher();
    host.open_blank_window();
    host.open_plugin("hello").expect("hello");
    assert!(host.stop().is_none());
    assert!(!host.is_running());
    assert!(host.open_windows().is_empty());
    assert!(!host.platform().did_quit());
    assert!(host.platform().shortcuts().is_empty());
    assert_eq!(host.platform().trigger_tray_quit(), None);
    host.dispatch(HostCommand::StopAndQuit);
    assert!(host.platform().did_quit());
}

#[test]
fn start_registers_tray_quit_and_palette_shortcut() {
    let host = boot();
    assert_eq!(host.platform().trigger_tray_quit(), Some(HostCommand::StopAndQuit));
    assert_eq!(
        host.platform().shortcuts(),
        vec![("CommandOrControl+K".to_string(), HostCommand::OpenCommandPalette)]
    );
}

#[test]
fn privileged_plugin_whose_sidecar_cannot_be_wired_does_not_open() {
    let mut host = boot();
    let mut f = file("worker");
    f.sidecar = Some("worker-bin".to_string());
    let m = Manifest::from_parsed(f, "plugins/worker", true, true).expect("manifest");
    host.load_plugins_from("plugins", vec![m], Vec::new());
    let err = host.open_plugin("worker").expect_err("refused wiring");
    assert_eq!(err, "Bus permission denied: cannot subscribe `echo.ping`");
    assert!(host.plugin_instance_ids().is_empty());
    assert!(!host.sidecar_running_for("worker"));
    assert_eq!(host.platform().running_sidecar_count_for("worker"), 0);
}

#[test]
fn window_group_errors() {
    let mut host = boot();
    assert_eq!(host.create_window_group("   ", &vec!["x".to_string()]), Err("Window Group name is required".to_string()));
    assert_eq!(host.create_window_group("G", &vec![]), Err("Window Group needs at least one window".to_string()));
    assert_eq!(
        host.create_window_group("G", &vec!["win-99".to_string()]),
        Err("unknown content window: win-99".to_string())
    );
    assert_eq!(host.open_window_group_declared("G", &vec![]), Err("Window Group needs at least one Plugin".to_string()));
    assert_eq!(
        host.open_window_group_declared("G", &vec!["nope".to_string()]),
        Err("unknown Plugin: nope".to_string())
    );
    assert_eq!(host.close_window_group("zz"), Err("unknown Window Group: zz".to_string()));
    assert_eq!(host.open_window_group("zz"), Err("unknown Window Group: zz".to_string()));
}

#[test]
fn closing_a_group_keeps_ungrouped_blank_windows() {
    let mut host = boot();
    host.open_blank_window();
    host.open_blank_window();
    let labels: Vec<String> = host.list_content_windows().into_iter().map(|w| w.label).collect();
    let group = host.create_window_group(" Pair ", &vec![labels[0].clone()]).expect("group");
    assert_eq!(group.name, "Pair");
    host.close_window_group(&group.id).expect("close");
    let left: Vec<String> = host.list_content_windows().into_iter().map(|w| w.label).collect();
    assert_eq!(left, vec![labels[1].clone()]);
    host.open_window_group(&group.id).expect("open");
    assert_eq!(host.list_content_windows().len(), 2);
}

#[test]
fn restore_gives_blank_windows_their_identity_and_geometry() {
    let mut host = boot();
    host.set_workspace_path("w.json".to_string());
    let ws = Workspace {
        windows: vec![
            WorkspaceWindow { kind: WorkspaceWindowKind::Blank { blank_id: "blank-1".into() }, geometry: g(10) },
            WorkspaceWindow { kind: WorkspaceWindowKind::Blank { blank_id: String::new() }, geometry: g(40) },
            WorkspaceWindow {
                kind: WorkspaceWindowKind::Plugin { plugin_id: "gone".into(), instance_id: "i".into() },
                geometry: g(70),
            },
        ],
        groups: vec![WorkspaceGroup {
            id: "g-1".into(),
            name: "Morning".into(),
            members: vec![WorkspaceGroupMember::Blank { blank_id: "blank-1".into() }],
        }],
    };
    host.restore_workspace(Some(ws)).expect("restore");
    let content = host.list_content_windows();
    assert_eq!(content.len(), 2);
    assert_eq!(content[0].instance_id, Some("blank-1".to_string()));
    assert_eq!(content[1].instance_id.as_ref().map(|s| s.len()), Some(36));
    assert_eq!(host.platform().window_geometry(&WindowId(content[0].label.clone())), Some(g(10)));
    assert_eq!(host.platform().window_geometry(&WindowId(content[1].label.clone())), Some(g(40)));
    let groups = host.list_window_groups();
    assert_eq!((groups[0].id.as_str(), groups[0].name.as_str(), groups[0].member_count), ("g-1", "Morning", 1));
}

#[test]
fn restore_without_path_is_refused() {
    let mut host = boot();
    assert_eq!(host.restore_workspace(None), Err("workspace path is not configured".to_string()));
    assert!(host.save_workspace().is_err());
}

#[test]
fn confirm_install_errors() {
    let mut host = boot();
    assert_eq!(host.confirm_install("x").unwrap_err(), "no pending Plugin install");
    let proposal = host.store_pending("st/folder-p".into(), plain("p"), "folder");
    assert_eq!(proposal.source_kind, "folder");
    assert_eq!(host.confirm_install("other").unwrap_err(), "proposal id mismatch");
    assert!(host.pending_install().is_some());
    assert_eq!(host.confirm_install(&proposal.proposal_id).unwrap_err(), "plugins directory is not configured");
    assert!(host.pending_install().is_none());
    assert_eq!(host.decline_install("x").unwrap_err(), "no pending Plugin install");
    assert_eq!(host.clear_pending(), None);
}

#[test]
fn complete_install_needs_the_plugin_in_the_scan() {
    let mut host = boot();
    host.load_plugins_from("plugins", vec![], vec![]);
    assert_eq!(
        host.complete_install("notes", vec![], vec![plain("other")]).unwrap_err(),
        "installed Plugin did not appear after confirm"
    );
    assert!(host.confirmed_grants_for("notes").is_some());
}

#[test]
fn window_not_a_plugin_surface() {
    let mut host = boot();
    host.open_blank_window();
    let label = host.list_content_windows()[0].label.clone();
    assert_eq!(
        host.bus_emit_from_window(&label, "t", &JsonValue::Null).unwrap_err(),
        "window is not a Plugin surface"
    );
    assert_eq!(host.plugin_id_for_window_label(&label), None);
    assert!(matches!(host.scoped_bus("ghost"), Err(BusError::NotLoaded(_))));
}

#[test]
fn new_windows_start_at_the_default_geometry() {
    let mut p = MemoryPlatform::new();
    let a = p.create_window(WindowKind::Blank);
    let want = WindowGeometry {
        x: 80f64.to_bits(),
        y: 80f64.to_bits(),
        width: 800f64.to_bits(),
        height: 600f64.to_bits(),
    };
    assert_eq!(p.window_geometry(&a), Some(want));
    assert_eq!(WindowGeometry::default(), want);
    assert!(Bus::default().subscribers.is_empty());
}

#[test]
fn memory_platform_labels_are_fresh() {
    let mut p = MemoryPlatform::new();
    let a = p.create_window(WindowKind::Blank);
    let b = p.create_window(WindowKind::Blank);
    assert_ne!(a, b);
    p.close_window(&a);
    assert!(p.is_window_destroyed(&a));
    assert!(!p.is_window_destroyed(&b));
}

fn zip_bytes(entries: &[(&str, Option<&[u8]>)]) -> Vec<u8> {
    let mut w = zip::ZipWriter::new(std::io::Cursor::new(Vec::new()));
    let options = zip::write::SimpleFileOptions::default();
    for (name, data) in entries {
        match data {
            Some(d) => {
                w.start_file(*name, options).unwrap();
                w.write_all(d).unwrap();
            }
            None => {
                w.add_directory(*name, options).unwrap();
            }
        }
    }
    w.finish().unwrap().into_inner()
}

#[test]
fn unpack_zip_places_entries_under_root_in_order() {
    let bytes = zip_bytes(&[("hello/", None), ("hello/index.html", Some(b"{}")), ("hello/a/../b.txt", Some(b"xy"))]);
    let files = unpack_zip("/tmp/extract", &bytes).unwrap();
    assert_eq!(files.len(), 3);
    assert_eq!(files[0].path, "/tmp/extract/hello/");
    assert!(files[0].is_dir);
    assert_eq!(files[1].path, "/tmp/extract/hello/index.html");
    assert!(!files[1].is_dir);
    assert_eq!(files[1].data, b"{}".to_vec());
    assert_eq!(files[2].path, "/tmp/extract/hello/a/../b.txt");
    assert_eq!(files[2].data, b"xy".to_vec());
}

#[test]
fn unpack_zip_refuses_entry_leaving_root() {
    let bytes = zip_bytes(&[("ok.txt", Some(b"1")), ("../evil.txt", Some(b"2"))]);
    let err = unpack_zip("/tmp/extract", &bytes).unwrap_err();
    assert_eq!(err, "zip entry has unsafe path");
    let abs = zip_bytes(&[("/etc/evil", Some(b"2"))]);
    assert_eq!(unpack_zip("/tmp/extract", &abs).unwrap_err(), "zip entry has unsafe path");
}

#[test]
fn unpack_zip_reports_unreadable_archive() {
    let err = unpack_zip("/tmp/extract", &b"not a zip".to_vec()).unwrap_err();
    assert!(!err.is_empty());
    assert_ne!(err, "zip entry has unsafe path");
}

#[test]
fn extraction_plan_joins_names_and_refuses_unsafe_ones() {
    let good = vec![
        ZipEntry { name: "p/".to_string(), enclosed: true, is_dir: true, data: vec![] },
        ZipEntry { name: "p/x".to_string(), enclosed: true, is_dir: false, data: vec![1] },
    ];
    let plan = extraction_plan("root", &good).unwrap();
    assert_eq!(plan, vec![("root/p/".to_string(), true), ("root/p/x".to_string(), false)]);
    let bad = vec![ZipEntry { name: "../x".to_string(), enclosed: false, is_dir: false, data: vec![] }];
    assert_eq!(extraction_plan("root", &bad).unwrap_err(), "zip entry has unsafe path");
}

#[test]
fn last_shortcut_registration_wins() {
    let mut p = MemoryPlatform::new();
    p.register_shortcut("Alt+L", HostCommand::OpenLauncher);
    p.register_shortcut("Alt+P", HostCommand::OpenCommandPalette);
    p.register_shortcut("Alt+L", HostCommand::StopAndQuit);
    let regs = p.shortcuts();
    let find = |a: &str| regs.iter().find(|(k, _)| k == a).map(|(_, h)| *h);
    assert_eq!(find("Alt+L"), Some(HostCommand::StopAndQuit));
    assert_eq!(find("Alt+P"), Some(HostCommand::OpenCommandPalette));
    assert_eq!(find("Alt+X"), None);
    p.unregister_all_shortcuts();
    assert!(p.shortcuts().is_empty());
}

#[test]
fn object_schema_checks_required_fields_and_described_properties() {
    let schema = obj(vec![
        ("type", s("object")),
        ("required", JsonValue::Array(vec![s("a")])),
        ("properties", obj(vec![("a", obj(vec![("type", s("string"))])), ("b", obj(vec![("type", s("boolean"))]))])),
    ]);
    assert_eq!(validate_against_schema(&obj(vec![("a", s("x"))]), &schema), Ok(()));
    assert_eq!(validate_against_schema(&obj(vec![("a", s("x")), ("b", JsonValue::Bool(true)), ("c", JsonValue::Null)]), &schema), Ok(()));
    assert_eq!(
        validate_against_schema(&obj(vec![("a", s("x")), ("b", s("no"))]), &schema),
        Err("expected boolean".to_string())
    );
    assert_eq!(validate_against_schema(&obj(vec![("b", JsonValue::Bool(true))]), &schema), Err("missing required field `a`".to_string()));
    assert_eq!(validate_against_schema(&JsonValue::Array(vec![]), &schema), Err("expected object".to_string()));
}

#[test]
fn sidecar_binary_candidates_in_lookup_order() {
    let (built, c) = sidecar_binary_candidates("notes", "notes-sidecar", Some("/b/echo".into()), Some("/opt/app".into()), true, "/src", "/plugins/notes/bin/notes-sidecar");
    assert_eq!(built, None);
    assert_eq!(
        c,
        vec![
            "/opt/app/notes-sidecar".to_string(),
            "/opt/app/notes-sidecar.exe".to_string(),
            "/src/target/debug/notes-sidecar".to_string(),
            "/plugins/notes/bin/notes-sidecar".to_string(),
        ]
    );
    let (built, c) = sidecar_binary_candidates("echo", "x", Some("/b/echo".into()), None, false, ".", "e");
    assert_eq!(built, Some("/b/echo".to_string()));
    assert_eq!(c, vec!["./target/debug/x".to_string(), "e".to_string()]);
}
