use wireport::proxy_config::{config_meta_of, parse_meta_comments, render_wireproxy_config, ConfigError};
use wireport::wg_config::{import_profile, parse_wg_config, profile_name_from_file, wg_field_for, WgField};

const VALID_CONFIG: &str = "[Interface]
PrivateKey = abc123privatekey
Address = 10.0.0.2/32
DNS = 1.1.1.1

[Peer]
PublicKey = xyz789publickey
Endpoint = vpn.example.com:51820
AllowedIPs = 0.0.0.0/0
";

#[test]
fn parses_valid_config() {
    let parsed = parse_wg_config(VALID_CONFIG).expect("valid config should parse");
    assert_eq!(parsed.address, "10.0.0.2/32");
    assert_eq!(parsed.dns, "1.1.1.1");
    assert_eq!(parsed.endpoint, "vpn.example.com:51820");
    assert_eq!(parsed.allowed_ips, "0.0.0.0/0");
}

#[test]
fn ignores_comments_and_blank_lines() {
    let config = "# This is a comment
; semicolon comment too

[Interface]
PrivateKey = key
Address = 10.5.5.5/24

[Peer]
# nested comment
PublicKey = pub
Endpoint = host:443
AllowedIPs = 10.0.0.0/8
";
    let parsed = parse_wg_config(config).expect("config with comments should parse");
    assert_eq!(parsed.address, "10.5.5.5/24");
    assert_eq!(parsed.endpoint, "host:443");
}

#[test]
fn handles_whitespace_around_keys_and_values() {
    let config = "[Interface]
   PrivateKey    =    spacedkey
Address = 10.0.0.2/32

[Peer]
PublicKey =pub
Endpoint= vpn.example.com:51820
AllowedIPs= 0.0.0.0/0
";
    let parsed = parse_wg_config(config).expect("whitespace should be tolerated");
    assert_eq!(parsed.endpoint, "vpn.example.com:51820");
    assert_eq!(parsed.allowed_ips, "0.0.0.0/0");
}

#[test]
fn rejects_config_missing_required_fields() {
    // Missing AllowedIPs
    let config = "[Interface]
PrivateKey = key
Address = 10.0.0.2/32

[Peer]
PublicKey = pub
Endpoint = vpn.example.com:51820
";
    assert!(parse_wg_config(config).is_none());

    // Missing PrivateKey
    let config2 = "[Interface]
Address = 10.0.0.2/32

[Peer]
PublicKey = pub
Endpoint = vpn.example.com:51820
AllowedIPs = 0.0.0.0/0
";
    assert!(parse_wg_config(config2).is_none());
}

#[test]
fn dns_is_optional_and_defaults_to_empty() {
    let config = "[Interface]
PrivateKey = key
Address = 10.0.0.2/32

[Peer]
PublicKey = pub
Endpoint = vpn.example.com:51820
AllowedIPs = 0.0.0.0/0
";
    let parsed = parse_wg_config(config).expect("config without DNS should parse");
    assert_eq!(parsed.dns, "");
}

#[test]
fn empty_input_returns_none() {
    assert!(parse_wg_config("").is_none());
}

#[test]
fn parses_multiple_allowed_ips() {
    let config = "[Interface]
PrivateKey = key
Address = 10.0.0.2/32

[Peer]
PublicKey = pub
Endpoint = vpn.example.com:51820
AllowedIPs = 10.0.0.0/24, 192.168.1.0/24
";
    let parsed = parse_wg_config(config).expect("multi-IP config should parse");
    assert_eq!(parsed.allowed_ips, "10.0.0.0/24, 192.168.1.0/24");
}

#[test]
fn parse_meta_comments_extracts_metadata() {
    let content = "# GeneratedAt: 2024-01-15T10:30:00Z
# ProxyType: http
# Port: 8080

[Interface]
PrivateKey = key
";
    let (generated_at, proxy_type, port) = parse_meta_comments(content);
    assert_eq!(generated_at, "2024-01-15T10:30:00Z");
    assert_eq!(proxy_type, "http");
    assert_eq!(port, 8080);
}

#[test]
fn parse_meta_comments_uses_defaults_when_missing() {
    let content = "[Interface]
PrivateKey = key
";
    let (generated_at, proxy_type, port) = parse_meta_comments(content);
    assert_eq!(generated_at, "");
    assert_eq!(proxy_type, "socks5");
    assert_eq!(port, 1080);
}

fn chars(s: &str) -> Vec<char> {
    s.chars().collect()
}

#[test]
fn section_and_key_names_are_case_insensitive() {
    let config = "[INTERFACE]\nPRIVATEKEY = k\naddress = 10.0.0.2/32\n[peer]\nPublicKey = p\nENDPOINT = h:1\nallowedips = ::/0\n";
    let parsed = parse_wg_config(config).expect("case-insensitive names");
    assert_eq!(parsed.address, "10.0.0.2/32");
    assert_eq!(parsed.endpoint, "h:1");
    assert_eq!(parsed.allowed_ips, "::/0");
}

#[test]
fn later_values_override_earlier_ones_and_crlf_is_tolerated() {
    let config = "[Interface]\r\nPrivateKey = a\r\nAddress = 1.1.1.1/32\r\nAddress = 2.2.2.2/32\r\n[Peer]\r\nPublicKey = b\r\nEndpoint = e:1\r\nAllowedIPs = 0.0.0.0/0";
    let parsed = parse_wg_config(config).expect("crlf profile");
    assert_eq!(parsed.address, "2.2.2.2/32");
    assert_eq!(parsed.allowed_ips, "0.0.0.0/0");
}

#[test]
fn keys_outside_their_section_are_ignored() {
    let config = "[Peer]\nPrivateKey = k\nAddress = a\nPublicKey = p\nEndpoint = e\nAllowedIPs = x\n";
    assert!(parse_wg_config(config).is_none());
}

#[test]
fn wg_field_for_maps_section_and_key() {
    assert_eq!(wg_field_for(&chars("interface"), &chars("privatekey")), Some(WgField::PrivateKey));
    assert_eq!(wg_field_for(&chars("interface"), &chars("dns")), Some(WgField::Dns));
    assert_eq!(wg_field_for(&chars("peer"), &chars("allowedips")), Some(WgField::AllowedIps));
    assert_eq!(wg_field_for(&chars("peer"), &chars("address")), None);
    assert_eq!(wg_field_for(&chars("Interface"), &chars("address")), None);
}

#[test]
fn meta_port_that_does_not_parse_keeps_default() {
    let (_, _, port) = parse_meta_comments("# Port: 70000\n# Port: abc\n");
    assert_eq!(port, 1080);
    let (_, _, port) = parse_meta_comments("  # Port:   +2048  \n");
    assert_eq!(port, 2048);
}

#[test]
fn render_produces_header_profile_and_bind_section() {
    let out = render_wireproxy_config("socks5", 1080, "\n  [Interface]\nPrivateKey = k\nAddress = a\n[Peer]\nPublicKey = p\nEndpoint = e\nAllowedIPs = x\n\n", "2024-01-15T10:30:00Z").unwrap();
    assert_eq!(
        out,
        "# GeneratedAt: 2024-01-15T10:30:00Z\n# ProxyType: socks5\n# Port: 1080\n\n[Interface]\nPrivateKey = k\nAddress = a\n[Peer]\nPublicKey = p\nEndpoint = e\nAllowedIPs = x\n\n[Socks5]\nBindAddress = 127.0.0.1:1080\n"
    );
    let (ga, pt, port) = parse_meta_comments(&out);
    assert_eq!((ga.as_str(), pt.as_str(), port), ("2024-01-15T10:30:00Z", "socks5", 1080));
    let http = render_wireproxy_config("http", 65535, VALID_CONFIG, "t").unwrap();
    assert!(http.ends_with("[HTTP]\nBindAddress = 127.0.0.1:65535\n"));
}

#[test]
fn render_reports_each_error() {
    assert_eq!(render_wireproxy_config("socks5", 1023, VALID_CONFIG, "t"), Err(ConfigError::PortOutOfRange));
    assert_eq!(
        render_wireproxy_config("SOCKS5", 2000, VALID_CONFIG, "t"),
        Err(ConfigError::InvalidProxyType("SOCKS5".to_string()))
    );
    assert_eq!(render_wireproxy_config("http", 2000, "[Interface]\n", "t"), Err(ConfigError::InvalidWireGuardConfig));
    assert_eq!(ConfigError::PortOutOfRange.message(), "Port must be between 1024 and 65535");
    assert_eq!(ConfigError::InvalidProxyType("ftp".to_string()).message(), "Invalid proxy type: ftp");
    assert_eq!(ConfigError::InvalidWireGuardConfig.message(), "Invalid WireGuard configuration");
}

#[test]
fn rendered_metadata_reads_back_with_a_trimmed_timestamp() {
    let out = render_wireproxy_config("http", 3128, VALID_CONFIG, "  2026-06-21T08:00:00Z \t").unwrap();
    let (ga, pt, port) = parse_meta_comments(&out);
    assert_eq!((ga.as_str(), pt.as_str(), port), ("2026-06-21T08:00:00Z", "http", 3128));
}

#[test]
fn generated_config_metadata_comes_with_its_content() {
    let m = config_meta_of("# Port: 9050\n".to_string(), "/tmp/a.conf".to_string());
    assert_eq!(m.content, "# Port: 9050\n");
    assert_eq!(m.path, "/tmp/a.conf");
    assert_eq!((m.generated_at.as_str(), m.proxy_type.as_str(), m.port), ("", "socks5", 9050));
}

#[test]
fn imported_profile_is_named_after_its_file() {
    assert_eq!(profile_name_from_file(Some("office.conf")), "office");
    assert_eq!(profile_name_from_file(Some("a.conf.conf")), "a");
    assert_eq!(profile_name_from_file(Some("my.config")), "myig");
    assert_eq!(profile_name_from_file(Some("plain")), "plain");
    assert_eq!(profile_name_from_file(None), "unnamed");
    let p = import_profile(Some("home.conf"), "/x/home.conf".to_string(), VALID_CONFIG.to_string()).unwrap();
    assert_eq!(p.name, "home");
    assert_eq!(p.address, "10.0.0.2/32");
    assert_eq!(p.dns, "1.1.1.1");
    assert_eq!(p.endpoint, "vpn.example.com:51820");
    assert_eq!(p.allowed_ips, "0.0.0.0/0");
    assert_eq!(p.source_path, "/x/home.conf");
    assert_eq!(p.config_content, VALID_CONFIG);
    let e = import_profile(Some("bad.conf"), "/x/bad.conf".to_string(), "[Interface]\n".to_string()).unwrap_err();
    assert_eq!(e, "Invalid WireGuard configuration");
}

#[test]
fn inserting_comment_lines_changes_nothing() {
    let with_comments = "[Interface]\n# a comment\nPrivateKey = abc123privatekey\n   ; another\nAddress = 10.0.0.2/32\n\nDNS = 1.1.1.1\n[Peer]\n  \nPublicKey = xyz789publickey\nEndpoint = vpn.example.com:51820\nAllowedIPs = 0.0.0.0/0\n";
    let a = parse_wg_config(with_comments).unwrap();
    let b = parse_wg_config(VALID_CONFIG).unwrap();
    assert_eq!(
        (a.address, a.dns, a.endpoint, a.allowed_ips),
        (b.address, b.dns, b.endpoint, b.allowed_ips)
    );
}

#[test]
fn any_one_line_header_reads_back() {
    let content = "# GeneratedAt:  2026-01-02T03:04:05Z \n# ProxyType:  custom type \n# Port: 9\n\n[Interface]\n# comment\nPrivateKey = k\n";
    let (ga, pt, port) = parse_meta_comments(content);
    assert_eq!((ga.as_str(), pt.as_str(), port), ("2026-01-02T03:04:05Z", "custom type", 9));
}

#[test]
fn generated_config_reads_back_its_metadata() {
    let profile = "\n  [Interface]  \nPrivateKey = k\nAddress = a\n[Peer]\nPublicKey = p\nEndpoint = e\nAllowedIPs = x\n\n";
    let out = render_wireproxy_config("http", 8118, profile, "2026-06-21T08:00:00Z").unwrap();
    let (ga, pt, port) = parse_meta_comments(&out);
    assert_eq!((ga.as_str(), pt.as_str(), port), ("2026-06-21T08:00:00Z", "http", 8118));
}
