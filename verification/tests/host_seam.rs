use spacecraft::bus::{BusError, HandlerId};
use spacecraft::host::{Host, ListedPlugin};
use spacecraft::json::JsonValue;
use spacecraft::manifest::{BusContract, Manifest, ManifestFile, ManifestPermissions};
use spacecraft::memory_platform::MemoryPlatform;
use spacecraft::platform::{Platform, SidecarId, WindowId, WindowKind};
use spacecraft::sidecar_bridge::{echo_step, BridgeStep, EchoStep};
use spacecraft::workspace::{WindowGeometry, Workspace, WorkspaceWindowKind};

fn boot() -> Host<MemoryPlatform> {
    let mut host = Host::new(MemoryPlatform::new());
    host.start();
    host
}

fn s(t: &str) -> JsonValue {
    JsonValue::Str(t.to_string())
}

fn obj(entries: Vec<(&str, JsonValue)>) -> JsonValue {
    JsonValue::Object(entries.into_iter().map(|(k, v)| (k.to_string(), v)).collect())
}

/// `{ "type": "object", "properties": { field: { "type": "string" } }, "required": [field] }`
fn string_field_schema(field: &str) -> JsonValue {
    obj(vec![
        ("type", s("object")),
        ("properties", obj(vec![(field, obj(vec![("type", s("string"))]))])),
        ("required", JsonValue::Array(vec![s(field)])),
    ])
}

fn contract(field: &str) -> BusContract {
    BusContract { request: string_field_schema(field), response: string_field_schema(field) }
}

fn strings(v: &[&str]) -> Vec<String> {
    v.iter().map(|t| t.to_string()).collect()
}

fn manifest_file(id: &str, name: &str, version: &str) -> ManifestFile {
    ManifestFile {
        id: id.to_string(),
        name: name.to_string(),
        version: version.to_string(),
        ui: "index.html".to_string(),
        window_type: "local".to_string(),
        sidecar: None,
        signature: None,
        permissions: None,
        contracts: None,
    }
}

/// The Pure-UI `hello` fixture: no Sidecar, no Bus permissions.
fn hello() -> Manifest {
    Manifest::from_parsed(manifest_file("hello", "Hello", "0.1.0"), "plugins/hello", true, true)
        .expect("hello manifest")
}

/// The privileged `echo` fixture: a Sidecar and the echo topics.
fn echo() -> Manifest {
    let mut file = manifest_file("echo", "Echo", "0.1.0");
    file.sidecar = Some("echo-sidecar".to_string());
    file.permissions = Some(ManifestPermissions {
        emit: strings(&["echo.ping", "echo.pong"]),
        subscribe: strings(&["echo.ping", "echo.pong"]),
        call: strings(&["echo.reflect"]),
    });
    file.contracts = Some(vec![
        ("echo.ping".to_string(), contract("message")),
        ("echo.pong".to_string(), contract("message")),
        ("echo.reflect".to_string(), contract("value")),
    ]);
    Manifest::from_parsed(file, "plugins/echo", true, true).expect("echo manifest")
}

fn load_fixtures(host: &mut Host<MemoryPlatform>) {
    host.load_plugins_from("plugins", vec![hello(), echo()], Vec::new());
}

fn has_kind(host: &mut Host<MemoryPlatform>, kind: &WindowKind) -> bool {
    host.open_windows().iter().any(|(_, k)| k == kind)
}

fn window_of(host: &mut Host<MemoryPlatform>, plugin: &str) -> Option<String> {
    host.open_windows().into_iter().find_map(|(id, kind)| match kind {
        WindowKind::PureUi { plugin_id } if plugin_id == plugin => Some(id),
        _ => None,
    })
}

/// Delivers an event to the Sidecars subscribed among `handlers`, runs the echo Sidecar on it,
/// publishes what it sends back, and returns what reached `listener`.
fn run_event(
    host: &mut Host<MemoryPlatform>,
    handlers: &[HandlerId],
    payload: &JsonValue,
    listener: HandlerId,
) -> Option<JsonValue> {
    let mut received = None;
    for h in handlers {
        for i in 0..host.sidecars.len() {
            let msg = match host.sidecars[i].bridge.event_message(*h, payload.clone()) {
                Some(m) => m,
                None => continue,
            };
            let reply = match echo_step(msg) {
                EchoStep::Reply(r) => r,
                _ => continue,
            };
            if let BridgeStep::Publish { topic, payload } = host.sidecars[i].bridge.on_message(reply) {
                let plugin = host.sidecars[i].plugin_id.clone();
                let proxy = host.scoped_bus(&plugin).expect("sidecar proxy");
                let delivered = proxy.emit(&host.bus, &topic, &payload).expect("sidecar emit");
                if delivered.contains(&listener) {
                    received = Some(payload);
                }
            }
        }
    }
    received
}

/// Runs the echo Sidecar serving `handler` on a call, returning what it answers.
fn run_call(host: &mut Host<MemoryPlatform>, handler: HandlerId, payload: &JsonValue) -> Result<JsonValue, String> {
    for i in 0..host.sidecars.len() {
        if host.sidecars[i].bridge.call_handler != handler {
            continue;
        }
        let msg = host.sidecars[i].bridge.begin_call(payload.clone());
        if let EchoStep::Reply(reply) = echo_step(msg) {
            if let BridgeStep::Answer { outcome, .. } = host.sidecars[i].bridge.on_message(reply) {
                return outcome;
            }
        }
    }
    Err("no Sidecar answered".to_string())
}

fn geometry(x: f64, y: f64, width: f64, height: f64) -> WindowGeometry {
    WindowGeometry { x: x.to_bits(), y: y.to_bits(), width: width.to_bits(), height: height.to_bits() }
}

#[test]
fn host_boots_with_tray_visible() {
    let host = boot();
    assert!(host.is_tray_visible());
}

#[test]
fn tray_quit_stops_the_host() {
    let mut host = boot();
    let command = host.platform().trigger_tray_quit().expect("tray quit item");
    host.dispatch(command);
    assert!(!host.is_running());
    assert!(!host.is_tray_visible());
    assert!(host.platform().did_quit());
}

#[test]
fn launcher_can_be_opened_and_closed() {
    let mut host = boot();
    host.open_launcher();
    assert!(host.is_launcher_open());
    assert!(has_kind(&mut host, &WindowKind::Launcher));

    host.close_launcher();
    assert!(!host.is_launcher_open());
    assert!(!has_kind(&mut host, &WindowKind::Launcher));
}

#[test]
fn shortcut_opens_command_palette() {
    let mut host = boot();
    let handler = host
        .platform()
        .shortcuts()
        .into_iter()
        .find(|(accel, _)| accel == "CommandOrControl+K")
        .map(|(_, command)| command)
        .expect("shortcut registered");
    host.dispatch(handler);
    assert!(host.is_command_palette_open());
    assert!(has_kind(&mut host, &WindowKind::Palette));
}

#[test]
fn command_palette_can_open_blank_os_window() {
    let mut host = boot();
    host.open_command_palette();
    host.open_blank_window();
    let blanks: Vec<_> =
        host.open_windows().into_iter().filter(|(_, k)| *k == WindowKind::Blank).collect();
    assert_eq!(blanks.len(), 1);
}

#[test]
fn command_palette_can_be_closed() {
    let mut host = boot();
    host.open_command_palette();
    host.close_command_palette();
    assert!(!host.is_command_palette_open());
}

#[test]
fn host_lists_hello_and_echo_plugins_from_plugins_directory() {
    let mut host = boot();
    load_fixtures(&mut host);
    let listed = host.listed_plugins();
    assert!(listed.iter().any(|p| p.id == "hello" && p.name == "Hello"));
    assert!(listed.iter().any(|p| p.id == "echo" && p.name == "Echo"));
}

#[test]
fn invalid_manifest_packages_are_not_listed() {
    let bad = Manifest::from_parsed(manifest_file("", "Bad", "1.0.0"), "plugins/bad-empty-id", true, true);
    let good = Manifest::from_parsed(manifest_file("good", "Good", "1.0.0"), "plugins/good", true, true);
    let mut missing = manifest_file("missing-ui", "Missing", "1.0.0");
    missing.ui = "nope.html".to_string();
    let missing_ui = Manifest::from_parsed(missing, "plugins/missing-ui", false, true);
    let discovered: Vec<Manifest> = vec![bad, good, missing_ui].into_iter().filter_map(|m| m.ok()).collect();

    let mut host = boot();
    host.load_plugins_from("plugins", discovered, Vec::new());
    assert_eq!(
        host.listed_plugins(),
        vec![ListedPlugin { id: "good".into(), name: "Good".into(), version: "1.0.0".into() }]
    );
}

#[test]
fn opening_hello_plugin_creates_pure_ui_window_with_local_ui() {
    let mut host = boot();
    load_fixtures(&mut host);
    host.open_plugin("hello").expect("open hello");

    let pure: Vec<_> = host
        .open_windows()
        .into_iter()
        .filter(|(_, k)| matches!(k, WindowKind::PureUi { plugin_id } if plugin_id == "hello"))
        .collect();
    assert_eq!(pure.len(), 1);

    let id = WindowId(pure[0].0.clone());
    assert!(!host.platform().window_allows_privileged_apis(&id));

    let ui = host.platform().ui_entry_for(&id).expect("ui path recorded");
    assert!(ui.ends_with("plugins/hello/index.html"));
    assert!(!host.sidecar_running_for("hello"));
}

#[test]
fn opening_launcher_rescans_plugins_directory() {
    let mut host = boot();
    host.load_plugins_from("plugins", Vec::new(), Vec::new());
    assert!(host.listed_plugins().is_empty());

    let dropped = Manifest::from_parsed(manifest_file("dropped", "Dropped", "0.1.0"), "plugins/dropped", true, true)
        .expect("dropped manifest");
    host.refresh_plugins(vec![dropped]);
    host.open_launcher();
    assert_eq!(
        host.listed_plugins(),
        vec![ListedPlugin { id: "dropped".into(), name: "Dropped".into(), version: "0.1.0".into() }]
    );
}

#[test]
fn unknown_plugin_open_fails() {
    let mut host = boot();
    let err = host.open_plugin("nope").expect_err("should fail");
    assert!(err.contains("unknown Plugin"));
}

#[test]
fn privileged_echo_plugin_spawns_one_sidecar_tied_to_plugin() {
    let mut host = boot();
    load_fixtures(&mut host);
    host.open_plugin("echo").expect("open echo");
    assert!(host.sidecar_running_for("echo"));
    assert_eq!(host.platform().running_sidecar_count_for("echo"), 1);

    host.open_plugin("echo").expect("open again");
    assert_eq!(host.platform().running_sidecar_count_for("echo"), 1, "one Sidecar per privileged Plugin");

    host.close_plugin_windows("echo");
    assert!(!host.sidecar_running_for("echo"));
    assert_eq!(host.platform().running_sidecar_count_for("echo"), 0);
}

#[test]
fn pub_sub_round_trip_through_host_scoped_proxies() {
    let mut host = boot();
    load_fixtures(&mut host);
    host.open_plugin("echo").expect("open echo");

    let ui = host.scoped_bus("echo").expect("ui proxy");
    let listener = ui.subscribe(&mut host.bus, "echo.pong").expect("subscribe");
    let payload = obj(vec![("message", s("hi"))]);
    let handlers = ui.emit(&host.bus, "echo.ping", &payload).expect("emit");
    assert_eq!(run_event(&mut host, &handlers, &payload, listener), Some(obj(vec![("message", s("hi"))])));
}

#[test]
fn request_response_round_trip_with_validated_contract() {
    let mut host = boot();
    load_fixtures(&mut host);
    host.open_plugin("echo").expect("open echo");

    let ui = host.scoped_bus("echo").expect("ui proxy");
    let payload = obj(vec![("value", s("round-trip"))]);
    let route = ui.call(&host.bus, "echo.reflect", &payload).expect("call");
    let outcome = run_call(&mut host, route.handler, &payload);
    let result = ui.finish_call("echo.reflect", &route, outcome).expect("call");
    assert_eq!(result, obj(vec![("value", s("round-trip"))]));
}

#[test]
fn undeclared_bus_traffic_is_rejected() {
    let mut host = boot();
    load_fixtures(&mut host);
    host.open_plugin("echo").expect("open echo");

    let ui = host.scoped_bus("echo").expect("ui proxy");
    let emit_err = ui.emit(&host.bus, "echo.forbidden", &obj(vec![("message", s("x"))])).expect_err("deny emit");
    assert!(matches!(emit_err, BusError::PermissionDenied { action: "emit", .. }));

    let sub_err = ui.subscribe(&mut host.bus, "echo.forbidden").expect_err("deny subscribe");
    assert!(matches!(sub_err, BusError::PermissionDenied { action: "subscribe", .. }));

    let call_err = ui.call(&host.bus, "echo.forbidden", &obj(vec![("value", s("x"))])).expect_err("deny call");
    assert!(matches!(call_err, BusError::PermissionDenied { action: "call", .. }));
}

#[test]
fn invalid_contract_payload_is_rejected() {
    let mut host = boot();
    load_fixtures(&mut host);
    host.open_plugin("echo").expect("open echo");

    let ui = host.scoped_bus("echo").expect("ui proxy");
    let err = ui.emit(&host.bus, "echo.ping", &obj(vec![("nope", JsonValue::Bool(true))])).expect_err("contract");
    assert!(matches!(err, BusError::ContractViolation(_)));
}

#[test]
fn window_bus_commands_use_scoped_proxy_not_global_bus() {
    let mut host = boot();
    load_fixtures(&mut host);
    host.open_plugin("echo").expect("open echo");

    let label = window_of(&mut host, "echo").expect("echo window");

    let ui = host.scoped_bus("echo").expect("listener");
    let listener = ui.subscribe(&mut host.bus, "echo.pong").expect("subscribe");

    let payload = obj(vec![("message", s("scoped"))]);
    let handlers = host.bus_emit_from_window(&label, "echo.ping", &payload).expect("window emit");
    assert_eq!(run_event(&mut host, &handlers, &payload, listener), Some(obj(vec![("message", s("scoped"))])));

    let request = obj(vec![("value", s("via-window"))]);
    let route = host.bus_call_from_window(&label, "echo.reflect", &request).expect("window call");
    let outcome = run_call(&mut host, route.handler, &request);
    let reflected = host.finish_call_from_window(&label, "echo.reflect", &route, outcome).expect("window call");
    assert_eq!(reflected, obj(vec![("value", s("via-window"))]));

    let denied = host.bus_emit_from_window(&label, "echo.forbidden", &obj(vec![("message", s("nope"))]));
    assert!(denied.is_err());
}

#[test]
fn pure_ui_hello_has_no_bus_permissions() {
    let mut host = boot();
    load_fixtures(&mut host);
    host.open_plugin("hello").expect("open hello");
    let ui = host.scoped_bus("hello").expect("proxy");
    let err = ui.emit(&host.bus, "anything", &obj(vec![])).expect_err("hello has empty permissions");
    assert!(matches!(err, BusError::PermissionDenied { .. }));
}

#[test]
fn reserved_signature_field_is_accepted_without_verification() {
    let mut file = manifest_file("notes", "Notes", "0.1.0");
    file.signature = Some("reserved-not-verified".to_string());
    let manifest = Manifest::from_parsed(file, "fixtures/packages/notes", true, true).expect("load");
    assert_eq!(manifest.signature.as_deref(), Some("reserved-not-verified"));
}

#[test]
fn stop_saves_open_window_layout_and_plugin_instance_ids() {
    let mut host = boot();
    host.set_workspace_path("workspace.json".to_string());
    load_fixtures(&mut host);
    host.open_blank_window();
    host.open_plugin("hello").expect("open hello");

    let before = host.plugin_instance_ids();
    assert_eq!(before.len(), 1);
    assert_eq!(before[0].0, "hello");

    let hello_label = window_of(&mut host, "hello").expect("hello window");
    host.set_window_geometry_for_label(&hello_label, geometry(120.0, 140.0, 640.0, 480.0));

    let saved = host.stop().expect("workspace present");
    assert_eq!(saved.path, "workspace.json");
    assert!(saved.workspace.windows.iter().any(|w| matches!(&w.kind, WorkspaceWindowKind::Blank { .. })));
    let plugin = saved
        .workspace
        .windows
        .iter()
        .find_map(|w| match &w.kind {
            WorkspaceWindowKind::Plugin { plugin_id, instance_id } if plugin_id == "hello" => {
                Some((instance_id.clone(), w.geometry))
            },
            _ => None,
        })
        .expect("hello in workspace");
    assert_eq!(plugin.0, before[0].1);
    assert_eq!(plugin.1, geometry(120.0, 140.0, 640.0, 480.0));
}

#[test]
fn restore_reopens_plugins_with_prior_geometry_and_instance_ids() {
    let mut host = boot();
    host.set_workspace_path("workspace.json".to_string());
    load_fixtures(&mut host);
    host.open_plugin("hello").expect("open hello");
    let instances = host.plugin_instance_ids();
    let instance_id = instances[0].1.clone();
    let hello_label = window_of(&mut host, "hello").expect("hello window");
    let g = geometry(200.0, 220.0, 900.0, 700.0);
    host.set_window_geometry_for_label(&hello_label, g);
    let saved = host.save_workspace().expect("save");
    host.stop();

    let mut host2 = boot();
    host2.set_workspace_path("workspace.json".to_string());
    load_fixtures(&mut host2);
    host2.restore_workspace(Some(saved.workspace)).expect("restore");

    assert_eq!(host2.plugin_instance_ids(), vec![("hello".to_string(), instance_id.clone())]);
    let restored_label = window_of(&mut host2, "hello").expect("restored hello");
    assert_eq!(host2.platform().window_geometry(&WindowId(restored_label.clone())), Some(g));
    assert_eq!(host2.platform().instance_id_for(&WindowId(restored_label.clone())), Some(instance_id.clone()));
    assert_eq!(host2.instance_id_for_window_label(&restored_label), Some(instance_id));
}

#[test]
fn corrupt_workspace_still_allows_host_boot() {
    let mut host = boot();
    host.set_workspace_path("workspace.json".to_string());
    load_fixtures(&mut host);
    // An unreadable Workspace file is handed over as `None`.
    host.restore_workspace(None).expect("restore soft-fails");
    assert!(host.is_running());
    assert!(host.is_tray_visible());
    assert!(host.open_windows().is_empty());
    host.open_plugin("hello").expect("open hello");
    assert!(host
        .open_windows()
        .iter()
        .any(|(_, k)| matches!(k, WindowKind::PureUi { plugin_id } if plugin_id == "hello")));
}

#[test]
fn create_named_window_group_from_open_windows() {
    let mut host = boot();
    load_fixtures(&mut host);
    host.open_plugin("hello").expect("open hello");
    host.open_blank_window();
    let labels: Vec<String> = host.list_content_windows().into_iter().map(|w| w.label).collect();
    assert_eq!(labels.len(), 2);

    let group = host.create_window_group("Stack", &labels).expect("create group");
    assert_eq!(group.name, "Stack");
    assert_eq!(group.member_count, 2);
    assert_eq!(host.list_window_groups().len(), 1);
}

#[test]
fn opening_and_closing_window_group_toggles_member_windows() {
    let mut host = boot();
    load_fixtures(&mut host);
    let group = host.open_window_group_declared("Demo", &strings(&["hello", "echo"])).expect("declare");
    assert_eq!(host.plugin_instance_ids().len(), 2);

    host.close_window_group(&group.id).expect("close");
    assert!(host.plugin_instance_ids().is_empty());
    assert_eq!(host.list_window_groups().len(), 1);

    host.open_window_group(&group.id).expect("reopen");
    let open = host.plugin_instance_ids();
    assert_eq!(open.len(), 2);
    assert!(open.iter().any(|(id, _)| id == "hello"));
    assert!(open.iter().any(|(id, _)| id == "echo"));
}

#[test]
fn window_groups_restore_with_workspace() {
    let mut host = boot();
    host.set_workspace_path("workspace.json".to_string());
    load_fixtures(&mut host);
    let group = host.open_window_group_declared("Persist", &strings(&["hello"])).expect("declare");
    let instances = host.plugin_instance_ids();
    let saved = host.save_workspace().expect("save");
    host.stop();

    let mut host2 = boot();
    host2.set_workspace_path("workspace.json".to_string());
    load_fixtures(&mut host2);
    host2.restore_workspace(Some(saved.workspace)).expect("restore");

    let groups = host2.list_window_groups();
    assert_eq!(groups.len(), 1);
    assert_eq!(groups[0].id, group.id);
    assert_eq!(groups[0].name, "Persist");
    assert_eq!(host2.plugin_instance_ids(), instances);

    host2.open_blank_window();
    assert!(has_kind(&mut host2, &WindowKind::Blank));
}

#[test]
fn ungrouped_windows_unaffected_by_other_groups() {
    let mut host = boot();
    load_fixtures(&mut host);
    host.open_plugin("hello").expect("hello");
    let solo = host.plugin_instance_ids()[0].1.clone();
    let group = host.open_window_group_declared("OnlyEcho", &strings(&["echo"])).expect("group");
    host.close_window_group(&group.id).expect("close group");

    assert_eq!(host.plugin_instance_ids(), vec![("hello".to_string(), solo)]);
}

#[test]
fn declined_install_leaves_workbench_unchanged() {
    let mut host = boot();
    host.load_plugins_from("plugins", Vec::new(), Vec::new());
    let before = host.listed_plugins();

    let mut file = manifest_file("notes", "Notes", "0.1.0");
    file.signature = Some("reserved-not-verified".to_string());
    let notes = Manifest::from_parsed(file, "staging/folder-notes", true, true).expect("notes");
    let proposal = host.store_pending("staging/folder-notes".to_string(), notes, "folder");
    let staging = host.decline_install(&proposal.proposal_id).expect("decline");
    assert_eq!(staging, "staging/folder-notes");

    assert_eq!(host.listed_plugins(), before);
    assert!(host.pending_install().is_none());
    assert!(host.confirmed_grants_for("notes").is_none());
}

#[test]
fn install_from_folder_requires_confirm_before_listing() {
    let mut host = boot();
    host.load_plugins_from("plugins", Vec::new(), Vec::new());
    assert!(!host.listed_plugins().iter().any(|p| p.id == "notes"));

    let mut file = manifest_file("notes", "Notes", "0.1.0");
    file.signature = Some("reserved-not-verified".to_string());
    file.permissions = Some(ManifestPermissions {
        emit: strings(&["notes.saved"]),
        subscribe: Vec::new(),
        call: Vec::new(),
    });
    let staged = Manifest::from_parsed(file, "staging/folder-notes", true, true).expect("notes");
    let proposal = host.store_pending("staging/folder-notes".to_string(), staged, "folder");
    assert_eq!(proposal.plugin_id, "notes");
    assert!(proposal.signature_present);
    assert!(!proposal.permissions.is_empty());
    assert!(proposal.permissions.iter().all(|p| p.sensitive));
    assert!(!host.listed_plugins().iter().any(|p| p.id == "notes"));

    let plan = host.confirm_install(&proposal.proposal_id).expect("confirm");
    assert_eq!(plan.destination, "plugins/notes");
    assert_eq!(plan.staging_dir, "staging/folder-notes");
    let installed = Manifest::from_parsed(manifest_file("notes", "Notes", "0.1.0"), "plugins/notes", true, true)
        .expect("installed");
    let listed = host.complete_install(&plan.plugin_id, plan.grants, vec![installed]).expect("confirm");
    assert_eq!(listed.id, "notes");
    assert!(host.listed_plugins().iter().any(|p| p.id == "notes"));
    assert!(host.confirmed_grants_for("notes").is_some());
}

#[test]
fn apply_of_empty_workspace_clears_groups() {
    let mut host = boot();
    load_fixtures(&mut host);
    host.open_window_group_declared("G", &strings(&["hello"])).expect("declare");
    host.apply_workspace(Workspace::default());
    assert!(host.list_window_groups().is_empty());
    assert!(host.plugin_instance_ids().is_empty());
}

#[test]
fn adopting_a_sidecar_follows_what_the_platform_reported() {
    let mut host = boot();
    load_fixtures(&mut host);
    let echo_id = "echo".to_string();
    let i = host.find_plugin(&echo_id).expect("echo registered");
    assert_eq!(host.adopt_sidecar(i, &echo_id, Err("spawn failed".to_string())), Err("spawn failed".to_string()));
    assert!(host.sidecar_index(&echo_id).is_none());
    assert_eq!(host.adopt_sidecar(i, &echo_id, Ok(SidecarId("sidecar-7".to_string()))), Ok(()));
    assert!(host.sidecar_index(&echo_id).is_some());
    let hello_id = "hello".to_string();
    let h = host.find_plugin(&hello_id).expect("hello registered");
    assert!(host.adopt_sidecar(h, &hello_id, Ok(SidecarId("sidecar-8".to_string()))).is_err());
    assert!(host.sidecar_index(&hello_id).is_none());
}

#[test]
fn reopening_a_group_reopens_a_member_closed_on_the_platform() {
    let mut host = boot();
    host.open_blank_window();
    let label = host.blanks[0].id.0.clone();
    let blank_id = host.blanks[0].blank_id.clone();
    let g = host.create_window_group("Solo", &vec![label.clone()]).expect("group");
    host.platform.close_window(&WindowId(label.clone()));
    assert_eq!(host.open_window_group(&g.id), Ok(()));
    let open: Vec<_> = host
        .blanks
        .iter()
        .filter(|b| !host.platform.is_window_destroyed(&b.id))
        .map(|b| b.blank_id.clone())
        .collect();
    assert_eq!(open, vec![blank_id]);
    let before = host.list_content_windows().len();
    assert_eq!(host.open_window_group(&g.id), Ok(()));
    assert_eq!(host.list_content_windows().len(), before, "an open member gets no second window");
}

#[test]
fn opening_the_same_plugin_twice_keeps_one_sidecar_for_its_entry() {
    let mut host = boot();
    load_fixtures(&mut host);
    assert_eq!(host.open_plugin("echo"), Ok(()));
    assert_eq!(host.open_plugin("echo"), Ok(()));
    assert_eq!(host.platform().running_sidecar_count_for("echo"), 1);
    assert!(host.sidecar_running_for("echo"));
}

#[test]
fn pending_install_is_the_proposal_returned() {
    let mut host = boot();
    let p = host.store_pending("/tmp/staged".to_string(), echo(), "folder");
    let q = host.pending_install().expect("waiting");
    assert_eq!(q.proposal_id, p.proposal_id);
    assert_eq!(q.plugin_id, "echo");
    assert_eq!(q.name, p.name);
    assert_eq!(q.version, p.version);
    assert_eq!(q.signature_present, p.signature_present);
    assert_eq!(q.source_kind, "folder");
    assert_eq!(q.permissions.len(), p.permissions.len());
}

#[test]
fn listed_plugins_have_one_entry_per_id_in_ascending_order() {
    let mut host = boot();
    host.load_plugins_from("plugins", vec![hello(), echo(), hello()], Vec::new());
    let ids: Vec<String> = host.listed_plugins().into_iter().map(|p| p.id).collect();
    assert_eq!(ids, vec!["echo".to_string(), "hello".to_string()]);
}
