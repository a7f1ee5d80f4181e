use wireport::health::{
    health_failure, health_tray_status, ip_cache_is_fresh, ip_lookup_failed, ip_lookup_step,
    local_ip_unavailable, probe_step, providers_exhausted, proxy_url_for, proxy_url_from_lowered,
    public_ip_providers, tunnel_active, HealthFailure, IpLookupStep, ProbeStep, ProviderReply,
};
use wireport::process::{
    binary_path_given, check_port, early_exit_error, profile_status_label, running_conflict,
    start_precheck, unexpected_exit_message, ProcessState,
};
use wireport::profiles::{
    connect_gate, connect_port, connect_port_from_text, find_profile, find_profile_info,
    mark_last_connected, profiles_or_empty, ConnectGate, ProfileInfo, ProfileRecord,
};
use wireport::settings::AppSettings;
use wireport::tray::{running_status, tray_menu, tray_profile_id};

fn record(id: &str, name: Option<&str>, proxy_type: Option<&str>, port: Option<u64>) -> ProfileRecord {
    ProfileRecord {
        id: Some(id.to_string()),
        name: name.map(|s| s.to_string()),
        proxy_type: proxy_type.map(|s| s.to_string()),
        port,
    }
}

// ---- starting a profile ----

#[test]
fn binary_path_must_not_be_blank() {
    assert!(binary_path_given("/usr/local/bin/wireproxy"));
    assert!(!binary_path_given(""));
    assert!(!binary_path_given("  \t "));
}

#[test]
fn privileged_ports_are_refused() {
    assert_eq!(check_port(1023), Err("Port must be between 1024 and 65535".to_string()));
    assert_eq!(check_port(0), Err("Port must be between 1024 and 65535".to_string()));
    assert_eq!(check_port(1024), Ok(()));
    assert_eq!(check_port(65535), Ok(()));
}

#[test]
fn only_one_profile_runs_at_a_time() {
    let none: Vec<String> = Vec::new();
    assert_eq!(running_conflict(&none, &"a".to_string()), None);
    let running = vec!["a".to_string()];
    assert_eq!(
        running_conflict(&running, &"a".to_string()),
        Some("This profile is already running".to_string())
    );
    assert_eq!(
        running_conflict(&running, &"b".to_string()),
        Some("Another profile is already running. Only one profile can run at a time in V1.".to_string())
    );
}

#[test]
fn profile_status_words() {
    assert_eq!(profile_status_label(None), "stopped");
    assert_eq!(profile_status_label(Some(ProcessState::Running)), "running");
    assert_eq!(profile_status_label(Some(ProcessState::Exited(true))), "stopped");
    assert_eq!(profile_status_label(Some(ProcessState::Exited(false))), "error");
    assert_eq!(profile_status_label(Some(ProcessState::CheckFailed)), "error");
}

#[test]
fn exit_messages() {
    assert_eq!(unexpected_exit_message(Some(1)), "WireProxy exited unexpectedly (exit code: 1)");
    assert_eq!(unexpected_exit_message(Some(-15)), "WireProxy exited unexpectedly (exit code: -15)");
    assert_eq!(unexpected_exit_message(None), "WireProxy exited unexpectedly (exit code: unknown)");
    assert_eq!(
        early_exit_error("  bind: address already in use\n", "exit status: 1"),
        "WireProxy failed to start: bind: address already in use"
    );
    assert_eq!(
        early_exit_error(" \n", "exit status: 2"),
        "WireProxy exited immediately with status: exit status: 2"
    );
}

// ---- profiles ----

#[test]
fn profile_lookup_takes_the_first_match_and_fills_defaults() {
    let records = vec![
        ProfileRecord { id: None, name: Some("x".into()), proxy_type: None, port: None },
        record("a", None, None, None),
        record("a", Some("Second"), Some("http"), Some(8080)),
        record("b", Some("Office"), Some("http"), Some(8080 + 65536)),
    ];
    assert_eq!(find_profile(&records, "a"), Some(1));
    assert_eq!(find_profile(&records, "zzz"), None);
    let a = find_profile_info(&records, "a").unwrap();
    assert_eq!((a.name.as_str(), a.proxy_type.as_str(), a.port), ("Unnamed", "socks5", 1080));
    let b = find_profile_info(&records, "b").unwrap();
    assert_eq!((b.name.as_str(), b.proxy_type.as_str(), b.port), ("Office", "http", 8080));
    assert!(find_profile_info(&records, "c").is_none());
}

#[test]
fn connecting_needs_a_known_profile_with_a_port() {
    let records = vec![record("a", Some("A"), None, Some(1080)), record("b", Some("B"), None, None)];
    assert_eq!(connect_port(&records, "a"), Ok(1080));
    assert_eq!(connect_port(&records, "b"), Err("Port not found in profile".to_string()));
    assert_eq!(connect_port(&records, "c"), Err("Profile not found: c".to_string()));
}

#[test]
fn tray_connect_gate() {
    assert!(matches!(connect_gate(None, false), ConnectGate::NoSelection));
    assert!(matches!(connect_gate(Some("a".into()), true), ConnectGate::AlreadyRunning));
    match connect_gate(Some("a".into()), false) {
        ConnectGate::Proceed(id) => assert_eq!(id, "a"),
        other => panic!("unexpected {:?}", other),
    }
}

// ---- tray ----

#[test]
fn tray_menu_for_a_connected_profile() {
    let info = Some(ProfileInfo { name: "Home".into(), proxy_type: "socks5".into(), port: 1080 });
    let m = tray_menu("Connected", &info);
    assert_eq!(m.status_label, "🟢 Connected");
    assert_eq!(m.profile_label, "Current Profile: Home");
    assert_eq!(m.proxy_label, "Proxy: socks5://127.0.0.1:1080");
    assert!(!m.connect_enabled);
    assert!(m.disconnect_enabled);
}

#[test]
fn tray_menu_without_a_profile() {
    let m = tray_menu("Error", &None);
    assert_eq!(m.status_label, "🟡 Error");
    assert_eq!(m.profile_label, "Current Profile: None");
    assert_eq!(m.proxy_label, "Proxy: None");
    assert!(m.connect_enabled);
    assert!(!m.disconnect_enabled);
    let d = tray_menu("Disconnected", &None);
    assert_eq!(d.status_label, "🔴 Disconnected");
    assert!(d.connect_enabled);
}

#[test]
fn tray_prefers_the_running_profile() {
    assert_eq!(tray_profile_id(Some("run".into()), Some("sel".into())), Some("run".to_string()));
    assert_eq!(tray_profile_id(None, Some("sel".into())), Some("sel".to_string()));
    assert_eq!(tray_profile_id(None, None), None);
    assert_eq!(running_status(true), "Connected");
    assert_eq!(running_status(false), "Disconnected");
}

// ---- health check ----

#[test]
fn proxy_url_follows_the_proxy_type() {
    assert_eq!(proxy_url_for("http", 8080), "http://127.0.0.1:8080");
    assert_eq!(proxy_url_for("HTTP", 8080), "http://127.0.0.1:8080");
    assert_eq!(proxy_url_for("socks5", 1080), "socks5://127.0.0.1:1080");
    assert_eq!(proxy_url_for("anything", 1), "socks5://127.0.0.1:1");
    assert_eq!(proxy_url_from_lowered(&vec!['h', 't', 't', 'p'], 3128), "http://127.0.0.1:3128");
}

#[test]
fn providers_and_cache_age() {
    assert_eq!(
        public_ip_providers(),
        vec!["https://api.ipify.org", "https://api64.ipify.org", "https://ifconfig.me/ip"]
    );
    assert!(ip_cache_is_fresh(299));
    assert!(!ip_cache_is_fresh(300));
}

#[test]
fn tunnel_is_active_only_for_a_different_known_address() {
    let a = "1.2.3.4".to_string();
    let b = "5.6.7.8".to_string();
    let e = String::new();
    assert!(tunnel_active(&a, &b));
    assert!(!tunnel_active(&a, &a));
    assert!(!tunnel_active(&e, &b));
    assert!(!tunnel_active(&a, &e));
}

#[test]
fn a_body_with_an_address_ends_the_check() {
    let local = "1.1.1.1".to_string();
    match probe_step("https://api.ipify.org", ProviderReply::Body(" 9.9.9.9\n".into()), String::new(), &local, 42) {
        ProbeStep::Done(h) => {
            assert!(h.success);
            assert!(h.tunnel_active);
            assert_eq!(h.exit_ip, "9.9.9.9");
            assert_eq!(h.local_ip, "1.1.1.1");
            assert_eq!(h.latency_ms, 42);
            assert_eq!(h.error, "None");
            assert_eq!(health_tray_status(&h), "Connected");
        },
        other => panic!("unexpected {:?}", other),
    }
    match probe_step("p", ProviderReply::Body("1.1.1.1".into()), String::new(), &local, 7) {
        ProbeStep::Done(h) => {
            assert!(h.success);
            assert!(!h.tunnel_active);
            assert_eq!(health_tray_status(&h), "Error");
        },
        other => panic!("unexpected {:?}", other),
    }
}

#[test]
fn failed_replies_record_the_last_error() {
    let local = "1.1.1.1".to_string();
    let step = |reply| match probe_step("https://x", reply, "before".to_string(), &local, 0) {
        ProbeStep::Next(e) => e,
        other => panic!("unexpected {:?}", other),
    };
    assert_eq!(step(ProviderReply::Body("  ".into())), "before");
    assert_eq!(step(ProviderReply::BodyError("eof".into())), "Failed to read body from https://x: eof");
    assert_eq!(step(ProviderReply::Status("503 Service Unavailable".into())), "HTTP error from https://x: status 503 Service Unavailable");
    assert_eq!(step(ProviderReply::RequestError("timeout".into())), "Request to https://x failed: timeout");
}

#[test]
fn health_results_when_the_check_stops_early() {
    let h = local_ip_unavailable("no network");
    assert!(!h.success && !h.tunnel_active);
    assert_eq!(h.local_ip, "");
    assert_eq!(h.error, "Failed to fetch local public IP: no network");
    let h = health_failure("1.1.1.1".into(), HealthFailure::MissingConfig);
    assert_eq!(h.local_ip, "1.1.1.1");
    assert_eq!(h.exit_ip, "");
    assert_eq!(h.latency_ms, 0);
    assert_eq!(h.error, "Configuration file not found. Please regenerate configuration.");
    let h = health_failure("1.1.1.1".into(), HealthFailure::ProxyUrl("bad".into()));
    assert_eq!(h.error, "Failed to configure proxy URL: bad");
    let h = health_failure("1.1.1.1".into(), HealthFailure::HttpClient("tls".into()));
    assert_eq!(h.error, "Failed to build HTTP client: tls");
    let h = providers_exhausted("1.1.1.1".into(), String::new());
    assert_eq!(h.error, "All connection providers failed to respond.");
    let h = providers_exhausted("1.1.1.1".into(), "Request to p failed: x".into());
    assert_eq!(h.error, "Request to p failed: x");
    assert_eq!(health_tray_status(&h), "Error");
}

#[test]
fn direct_ip_lookup_steps() {
    match ip_lookup_step("p", ProviderReply::Body("\t8.8.8.8 ".into()), String::new()) {
        IpLookupStep::Found(ip) => assert_eq!(ip, "8.8.8.8"),
        other => panic!("unexpected {:?}", other),
    }
    match ip_lookup_step("p", ProviderReply::Status("500".into()), "kept".into()) {
        IpLookupStep::Next(e) => assert_eq!(e, "kept"),
        other => panic!("unexpected {:?}", other),
    }
    match ip_lookup_step("p", ProviderReply::RequestError("dns".into()), "kept".into()) {
        IpLookupStep::Next(e) => assert_eq!(e, "Request to p failed: dns"),
        other => panic!("unexpected {:?}", other),
    }
    assert_eq!(ip_lookup_failed("x"), "Failed to fetch local public IP. Last error: x");
}

// ---- settings ----

#[test]
fn default_settings_and_switches() {
    let d = AppSettings::default_settings();
    assert_eq!(d.wireproxy_binary_path(), "");
    assert_eq!(d.hide_dock_icon(), Some(false));
    assert_eq!(d.disable_logs(), Some(false));
    let s = AppSettings::new("/bin/wp".into(), None, Some(true));
    assert!(!s.dock_hidden());
    assert!(s.logs_disabled());
    assert_eq!(s.duplicate().wireproxy_binary_path(), "/bin/wp");
}

#[test]
fn start_checks_come_in_order() {
    assert_eq!(
        start_precheck("/bin/wp", false, "/c.conf", false, 80),
        Some("WireProxy binary not found at: /bin/wp".to_string())
    );
    assert_eq!(
        start_precheck("/bin/wp", true, "/c.conf", false, 80),
        Some("Configuration file not found at: /c.conf".to_string())
    );
    assert_eq!(
        start_precheck("/bin/wp", true, "/c.conf", true, 80),
        Some("Port must be between 1024 and 65535".to_string())
    );
    assert_eq!(start_precheck("/bin/wp", true, "/c.conf", true, 1080), None);
}

const PROFILES: &str = r#"[{"id":"a","name":"Home","proxyType":"http","port":8080},{"id":"b","port":"x"},7,{"id":"a","name":"Dup"}]"#;

#[test]
fn saved_profiles_are_read_from_json() {
    let rs = profiles_or_empty(PROFILES);
    assert_eq!(rs.len(), 4);
    assert_eq!(rs[0].id.as_deref(), Some("a"));
    assert_eq!(rs[0].name.as_deref(), Some("Home"));
    assert_eq!(rs[0].proxy_type.as_deref(), Some("http"));
    assert_eq!(rs[0].port, Some(8080));
    assert_eq!(rs[1].port, None);
    assert!(rs[2].id.is_none());
    assert!(profiles_or_empty("not json").is_empty());
    assert!(profiles_or_empty(r#"{"id":"a"}"#).is_empty());
    let info = find_profile_info(&rs, "a").unwrap();
    assert_eq!(info.name, "Home");
}

#[test]
fn connect_port_from_profiles_text() {
    assert_eq!(connect_port_from_text(PROFILES, "a"), Ok(8080));
    assert_eq!(connect_port_from_text(PROFILES, "b"), Err("Port not found in profile".to_string()));
    assert_eq!(connect_port_from_text(PROFILES, "z"), Err("Profile not found: z".to_string()));
    assert_eq!(connect_port_from_text("{}", "a"), Err("Invalid profiles format".to_string()));
    let e = connect_port_from_text("[1,", "a").unwrap_err();
    assert!(e.starts_with("Failed to parse profiles: "));
}

#[test]
fn marking_the_last_connection() {
    let out = mark_last_connected(PROFILES, "a", "2026-06-21T08:00:00Z").unwrap().unwrap();
    let v: serde_json::Value = serde_json::from_str(&out).unwrap();
    assert_eq!(v[0]["lastConnectedAt"], "2026-06-21T08:00:00Z");
    assert!(v[3].get("lastConnectedAt").is_none());
    assert_eq!(v[0]["name"], "Home");
    assert_eq!(mark_last_connected(PROFILES, "z", "t"), Ok(None));
    assert_eq!(mark_last_connected("{}", "a", "t"), Ok(None));
    assert!(mark_last_connected("nope", "a", "t").unwrap_err().starts_with("Failed to parse profiles: "));
}
