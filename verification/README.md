# Spacecraft

The Host of an extensible desktop workbench: tray, launcher, command palette, Plugin windows,
privileged Sidecars, a permissioned Bus (Pub/Sub and Request/Response with JSON contracts),
Window Groups, and a Workspace that restores window layout across restarts.

## Layout

- `src/` — the library, verified with Verus.
  - `host.rs` — the Host state, window registry, pruning of closed windows, launcher and
    palette, `start`/`stop`, Workspace capture, the Plugin registry and its sorted listing.
  - `plugin_windows.rs` — opening Plugin instances (one Sidecar per privileged Plugin),
    closing a Plugin's windows, and Bus traffic from Plugin windows through scoped proxies.
  - `window_groups.rs` — creating, opening and closing Window Groups.
  - `restore.rs` — restoring a saved Workspace.
  - `install_flow.rs` — install proposals, confirmation, declining, recorded grants.
  - `bus.rs` — the Bus router and `BusProxy` checks; `json.rs` — JSON values and the contract
    checker; `manifest.rs` — Manifest validation; `install.rs` — permission listings;
    `zip_package.rs` — reading a zip package and where each entry lands when unpacked.
  - `sidecar_bridge.rs` — what Sidecar messages mean, the echo Sidecar's behaviour, and where
    a Sidecar binary is looked for.
  - `platform.rs` — the operating-system boundary; `memory_platform.rs` — an in-memory
    Platform for tests.
  - `text.rs`, `ids.rs` — text helpers and fresh identities.
- `tests/` — the Host-seam tests and tests of the library's functions.
- `app/` — the desktop application around the library: files, zip staging, Sidecar child
  processes, the Tauri Platform and the commands Host pages invoke.
