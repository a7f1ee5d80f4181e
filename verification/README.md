# wireport

The core of WirePort, a desktop application that turns a WireGuard profile
into a local SOCKS5 or HTTP proxy run by `wireproxy`, written in Verus with
its behaviour stated as contracts and proved.

## Layout

- `src/` — the verified library:
  - `text.rs`: character-level text model (trimming, lines, numbers) and helpers;
  - `wg_config.rs`: reading WireGuard profiles and importing them;
  - `proxy_config.rs`: rendering the wireproxy configuration and reading its
    metadata header back (with the round-trip law);
  - `clock.rs`: the calls into `chrono` (current time, local dates, RFC 3339);
  - `usage.rs`: the per-day data-usage store, its pruning and the overview windows;
  - `logs.rs`: log classification, prefix stripping, worker summaries and the
    bounded per-profile logs;
  - `metrics.rs`: wireproxy's metrics text and the statistics shown;
  - `process.rs`, `profiles.rs`, `tray.rs`, `health.rs`, `settings.rs`: the
    decisions around starting and watching the proxy, the saved profiles
    (read from and written to the text of `profiles.json` through
    `serde_json`), the tray menu, the connection health check and the settings.
- `tests/` — tests run against the compiled library.
- `app/` — the Tauri application around the library: commands, the tray,
  processes, network requests and files.
