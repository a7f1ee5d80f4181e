//! The wireproxy configuration WirePort generates from a WireGuard profile,
//! and the metadata comments it carries at its top.

use vstd::prelude::*;
use crate::text::{
    all_digits, chars_eq_str, chars_of, copy_span, decimal, fold_lines, is_ws, lead_len,
    lemma_concat_lacks, lemma_decimal_facts, lemma_fold_lines_concat, lemma_fold_lines_front,
    lemma_fold_lines_step, lemma_parse_decimal, lemma_trim_after_trim_end, lemma_trim_end_concat,
    next_index_of, parse_unsigned, parse_unsigned_span, push_chars, push_decimal, push_str,
    span_starts_with, starts_with, string_from_chars, trim, trim_end, trim_span, trim_start,
};
use crate::wg_config::{parse_wg_config, wg_config_of};

verus! {

/// Metadata gathered from the comment header of a generated configuration.
pub struct MetaScan {
    pub generated_at: Seq<char>,
    pub proxy_type: Seq<char>,
    pub port: u16,
}

/// Defaults used when a header line is missing: no timestamp, SOCKS5, port 1080.
pub open spec fn meta_start() -> MetaScan {
    MetaScan { generated_at: Seq::empty(), proxy_type: "socks5"@, port: 1080 }
}

/// One line of a generated configuration: `# GeneratedAt:`, `# ProxyType:` and
/// `# Port:` lines (after trimming) set the corresponding value to the trimmed
/// rest of the line; a port that does not parse as a `u16` is ignored.
pub open spec fn meta_line(st: MetaScan, line: Seq<char>) -> MetaScan {
    let t = trim(line);
    if starts_with(t, "# GeneratedAt:"@) {
        MetaScan { generated_at: trim(t.skip("# GeneratedAt:"@.len() as int)), ..st }
    } else if starts_with(t, "# ProxyType:"@) {
        MetaScan { proxy_type: trim(t.skip("# ProxyType:"@.len() as int)), ..st }
    } else if starts_with(t, "# Port:"@) {
        match parse_unsigned(trim(t.skip("# Port:"@.len() as int)), 65535) {
            Some(p) => MetaScan { port: p as u16, ..st },
            None => st,
        }
    } else {
        st
    }
}

pub open spec fn meta_line_fn() -> spec_fn(MetaScan, Seq<char>) -> MetaScan {
    |st: MetaScan, l: Seq<char>| meta_line(st, l)
}

/// The metadata of a generated configuration: the last value of each header line wins.
pub open spec fn meta_of(content: Seq<char>) -> MetaScan {
    fold_lines(meta_start(), content, meta_line_fn())
}

/// Reads the line `[lo, hi)` of `v` into the three metadata values.
fn meta_scan_line(
    v: &Vec<char>,
    lo: usize,
    hi: usize,
    generated_at: &mut Vec<char>,
    proxy_type: &mut Vec<char>,
    port: &mut u16,
)
    requires
        lo <= hi <= v.len(),
    ensures
        meta_line(
            MetaScan { generated_at: old(generated_at)@, proxy_type: old(proxy_type)@, port: *old(port) },
            v@.subrange(lo as int, hi as int),
        ) == (MetaScan { generated_at: final(generated_at)@, proxy_type: final(proxy_type)@, port: *final(port) }),
{
    let (a, b) = trim_span(v, lo, hi);
    let ghost t = v@.subrange(a as int, b as int);
    let p_ga = chars_of("# GeneratedAt:");
    let p_pt = chars_of("# ProxyType:");
    let p_port = chars_of("# Port:");
    if span_starts_with(v, a, b, &p_ga) {
        assert(t.skip(p_ga@.len() as int) =~= v@.subrange(a + p_ga.len(), b as int));
        let (c, d) = trim_span(v, a + p_ga.len(), b);
        *generated_at = copy_span(v, c, d);
    } else if span_starts_with(v, a, b, &p_pt) {
        assert(t.skip(p_pt@.len() as int) =~= v@.subrange(a + p_pt.len(), b as int));
        let (c, d) = trim_span(v, a + p_pt.len(), b);
        *proxy_type = copy_span(v, c, d);
    } else if span_starts_with(v, a, b, &p_port) {
        assert(t.skip(p_port@.len() as int) =~= v@.subrange(a + p_port.len(), b as int));
        let (c, d) = trim_span(v, a + p_port.len(), b);
        match parse_unsigned_span(v, c, d, 65535) {
            Some(p) => {
                *port = p as u16;
            },
            None => {},
        }
    }
}

/// Reads the metadata comments (`# GeneratedAt:`, `# ProxyType:`, `# Port:`)
/// of a generated configuration, with the defaults `""`, `"socks5"` and `1080`.
pub fn parse_meta_comments(content: &str) -> (r: (String, String, u16))
    ensures
        meta_of(content@) == (MetaScan { generated_at: r.0@, proxy_type: r.1@, port: r.2 }),
{
    let v = chars_of(content);
    let mut generated_at: Vec<char> = Vec::new();
    let mut proxy_type = chars_of("socks5");
    let mut port: u16 = 1080;
    assert(v@.skip(0) =~= v@);
    assert(generated_at@ =~= Seq::<char>::empty());
    let mut pos: usize = 0;
    loop
        invariant_except_break
            meta_of(v@) == fold_lines(
                MetaScan { generated_at: generated_at@, proxy_type: proxy_type@, port },
                v@.skip(pos as int),
                meta_line_fn(),
            ),
        invariant
            pos <= v.len(),
        ensures
            meta_of(v@) == (MetaScan { generated_at: generated_at@, proxy_type: proxy_type@, port }),
        decreases v.len() - pos,
    {
        let e = next_index_of(&v, pos, v.len(), '\n');
        let ghost before = MetaScan { generated_at: generated_at@, proxy_type: proxy_type@, port };
        meta_scan_line(&v, pos, e, &mut generated_at, &mut proxy_type, &mut port);
        proof {
            lemma_fold_lines_step(before, v@, pos as int, e as int, meta_line_fn());
        }
        if e == v.len() {
            break;
        }
        pos = e + 1;
    }
    (string_from_chars(&generated_at), string_from_chars(&proxy_type), port)
}

/// Metadata shown for a generated configuration file.
pub struct ConfigMeta {
    pub content: String,
    pub path: String,
    pub generated_at: String,
    pub proxy_type: String,
    pub port: u16,
}

/// The metadata of the generated configuration `content` stored at `path`.
pub fn config_meta_of(content: String, path: String) -> (m: ConfigMeta)
    ensures
        m.content == content,
        m.path == path,
        meta_of(content@) == (MetaScan {
            generated_at: m.generated_at@,
            proxy_type: m.proxy_type@,
            port: m.port,
        }),
{
    let (generated_at, proxy_type, port) = parse_meta_comments(content.as_str());
    ConfigMeta { content, path, generated_at, proxy_type, port }
}

/// Why a wireproxy configuration could not be generated.
#[derive(Debug, PartialEq, Eq)]
pub enum ConfigError {
    /// The local port is below 1024.
    PortOutOfRange,
    /// The proxy type is neither `socks5` nor `http`; holds the given type.
    InvalidProxyType(String),
    /// The WireGuard profile lacks a required setting.
    InvalidWireGuardConfig,
}

pub open spec fn config_error_text(e: ConfigError) -> Seq<char> {
    match e {
        ConfigError::PortOutOfRange => "Port must be between 1024 and 65535"@,
        ConfigError::InvalidProxyType(t) => "Invalid proxy type: "@ + t@,
        ConfigError::InvalidWireGuardConfig => "Invalid WireGuard configuration"@,
    }
}

impl ConfigError {
    /// The message shown to the user.
    pub fn message(&self) -> (r: String)
        ensures
            r@ == config_error_text(*self),
    {
        let mut out: Vec<char> = Vec::new();
        match self {
            ConfigError::PortOutOfRange => push_str(&mut out, "Port must be between 1024 and 65535"),
            ConfigError::InvalidProxyType(t) => {
                push_str(&mut out, "Invalid proxy type: ");
                push_str(&mut out, t.as_str());
            },
            ConfigError::InvalidWireGuardConfig => push_str(&mut out, "Invalid WireGuard configuration"),
        }
        string_from_chars(&out)
    }
}

pub open spec fn is_supported_proxy_type(t: Seq<char>) -> bool {
    t == "socks5"@ || t == "http"@
}

/// The wireproxy configuration for a profile: the metadata header, the
/// trimmed profile, and a `[Socks5]` or `[HTTP]` section binding the proxy to
/// `127.0.0.1:port`.
pub open spec fn rendered_config(
    proxy_type: Seq<char>,
    port: u16,
    config_content: Seq<char>,
    generated_at: Seq<char>,
) -> Seq<char> {
    "# GeneratedAt: "@ + generated_at + "\n# ProxyType: "@ + proxy_type + "\n# Port: "@ + decimal(
        port as nat,
    ) + "\n\n"@ + trim(config_content) + "\n\n"@ + (if proxy_type == "socks5"@ {
        "[Socks5]\n"@
    } else {
        "[HTTP]\n"@
    }) + "BindAddress = 127.0.0.1:"@ + decimal(port as nat) + "\n"@
}

/// Checks the request and renders the wireproxy configuration. The port must
/// be at least 1024, the proxy type `socks5` or `http`, and the profile a valid
/// WireGuard profile; the first failing check gives the error.
pub fn render_wireproxy_config(
    proxy_type: &str,
    port: u16,
    config_content: &str,
    generated_at: &str,
) -> (r: Result<String, ConfigError>)
    ensures
        match r {
            Ok(s) => {
                &&& port >= 1024
                &&& is_supported_proxy_type(proxy_type@)
                &&& wg_config_of(config_content@) is Some
                &&& s@ == rendered_config(proxy_type@, port, config_content@, generated_at@)
            },
            Err(ConfigError::PortOutOfRange) => port < 1024,
            Err(ConfigError::InvalidProxyType(t)) => {
                &&& port >= 1024
                &&& !is_supported_proxy_type(proxy_type@)
                &&& t@ == proxy_type@
            },
            Err(ConfigError::InvalidWireGuardConfig) => {
                &&& port >= 1024
                &&& is_supported_proxy_type(proxy_type@)
                &&& wg_config_of(config_content@) is None
            },
        },
{
    if port < 1024 {
        return Err(ConfigError::PortOutOfRange);
    }
    let pt = chars_of(proxy_type);
    let is_socks = chars_eq_str(&pt, "socks5");
    if !is_socks && !chars_eq_str(&pt, "http") {
        return Err(ConfigError::InvalidProxyType(string_from_chars(&pt)));
    }
    if parse_wg_config(config_content).is_none() {
        return Err(ConfigError::InvalidWireGuardConfig);
    }
    let cc = chars_of(config_content);
    let (a, b) = trim_span(&cc, 0, cc.len());
    assert(cc@.subrange(0, cc@.len() as int) =~= cc@);
    let body = copy_span(&cc, a, b);
    let mut out: Vec<char> = Vec::new();
    push_str(&mut out, "# GeneratedAt: ");
    push_str(&mut out, generated_at);
    push_str(&mut out, "\n# ProxyType: ");
    push_chars(&mut out, &pt);
    push_str(&mut out, "\n# Port: ");
    push_decimal(&mut out, port as u64);
    push_str(&mut out, "\n\n");
    push_chars(&mut out, &body);
    push_str(&mut out, "\n\n");
    if is_socks {
        push_str(&mut out, "[Socks5]\n");
    } else {
        push_str(&mut out, "[HTTP]\n");
    }
    push_str(&mut out, "BindAddress = 127.0.0.1:");
    push_decimal(&mut out, port as u64);
    push_str(&mut out, "\n");
    assert(out@ =~= rendered_config(proxy_type@, port, config_content@, generated_at@));
    Ok(string_from_chars(&out))
}

// ---------------------------------------------------------------------------
// What a generated configuration carries back
// ---------------------------------------------------------------------------

/// A line that sets a metadata value.
pub open spec fn is_meta_line(line: Seq<char>) -> bool {
    let t = trim(line);
    starts_with(t, "# GeneratedAt:"@) || starts_with(t, "# ProxyType:"@) || starts_with(t, "# Port:"@)
}

/// No line of `text` sets a metadata value.
pub open spec fn no_meta_lines(text: Seq<char>) -> bool
    decreases text.len(),
{
    let k = lead_len(text, '\n');
    if k < text.len() {
        !is_meta_line(text.take(k as int)) && no_meta_lines(text.skip(k as int + 1))
    } else {
        !is_meta_line(text)
    }
}

proof fn lemma_fold_no_meta(st: MetaScan, text: Seq<char>)
    requires
        no_meta_lines(text),
    ensures
        fold_lines(st, text, meta_line_fn()) == st,
    decreases text.len(),
{
    let k = lead_len(text, '\n');
    if k < text.len() {
        lemma_fold_no_meta(st, text.skip(k as int + 1));
    }
}

/// The digits of a number hold no newline and do not start or end in whitespace.
proof fn lemma_decimal_plain(n: nat)
    ensures
        !decimal(n).contains('\n'),
        decimal(n).len() > 0,
        !is_ws(decimal(n)[0]),
        !is_ws(decimal(n).last()),
{
    lemma_decimal_facts(n);
    let d = decimal(n);
    assert(all_digits(d));
    assert forall|i: int| 0 <= i < d.len() implies d[i] != '\n' && !is_ws(d[i]) by {
        assert(crate::text::is_digit(d[i]));
    }
}

/// A text that starts and ends with a character other than whitespace is its own trim.
proof fn lemma_trim_plain(s: Seq<char>)
    requires
        s.len() > 0,
        !is_ws(s[0]),
        !is_ws(s.last()),
    ensures
        trim(s) == s,
{
    assert(trim_start(s) == s);
    assert(trim_end(s) == s);
}

proof fn lemma_meta_generated_at(st: MetaScan, ga: Seq<char>)
    ensures
        meta_line(st, "# GeneratedAt: "@ + ga) == (MetaScan { generated_at: trim(ga), ..st }),
{
    reveal_strlit("# GeneratedAt: ");
    reveal_strlit("# GeneratedAt:");
    let p = "# GeneratedAt: "@;
    let q = "# GeneratedAt:"@;
    let line = p + ga;
    assert(line[0] == '#');
    assert(trim_start(line) == line);
    assert(p.drop_last() =~= q);
    assert(trim_end(q) == q);
    assert(trim_end(p) == q);
    lemma_trim_end_concat(p, ga);
    let te = trim_end(ga);
    let t = trim(line);
    lemma_trim_after_trim_end(ga);
    if te.len() > 0 {
        assert(t == p + te);
        assert(t.take(14) =~= q);
        assert(t.skip(14) =~= seq![' '] + te);
        assert((seq![' '] + te).drop_first() =~= te);
        assert(trim_start(seq![' '] + te) == trim_start(te));
    } else {
        crate::text::lemma_trim_end_shape(ga);
        crate::text::lemma_trim_all_ws(ga);
        assert(t == q);
        assert(t.take(14) =~= q);
        assert(t.skip(14) =~= Seq::<char>::empty());
        assert(trim(ga) =~= Seq::<char>::empty());
    }
}

proof fn lemma_meta_proxy_type(st: MetaScan, pt: Seq<char>)
    requires
        is_supported_proxy_type(pt),
    ensures
        meta_line(st, "# ProxyType: "@ + pt) == (MetaScan { proxy_type: pt, ..st }),
{
    reveal_strlit("# ProxyType: ");
    reveal_strlit("# ProxyType:");
    reveal_strlit("# GeneratedAt:");
    reveal_strlit("socks5");
    reveal_strlit("http");
    let p = "# ProxyType: "@;
    let line = p + pt;
    assert(line[0] == '#');
    assert(line.last() == pt.last());
    lemma_trim_plain(line);
    let t = trim(line);
    assert(t[2] == 'P');
    assert(!starts_with(t, "# GeneratedAt:"@)) by {
        if starts_with(t, "# GeneratedAt:"@) {
            assert(t.take(14)[2] == "# GeneratedAt:"@[2]);
        }
    }
    assert(t.take(12) =~= "# ProxyType:"@);
    assert(t.skip(12) =~= seq![' '] + pt);
    assert((seq![' '] + pt).drop_first() =~= pt);
    assert(trim_start(seq![' '] + pt) == trim_start(pt));
    lemma_trim_plain(pt);
}

proof fn lemma_meta_port(st: MetaScan, port: u16)
    ensures
        meta_line(st, "# Port: "@ + decimal(port as nat)) == (MetaScan { port, ..st }),
{
    reveal_strlit("# Port: ");
    reveal_strlit("# Port:");
    reveal_strlit("# ProxyType:");
    reveal_strlit("# GeneratedAt:");
    let d = decimal(port as nat);
    lemma_decimal_plain(port as nat);
    let p = "# Port: "@;
    let line = p + d;
    assert(line[0] == '#');
    assert(line.last() == d.last());
    lemma_trim_plain(line);
    let t = trim(line);
    assert(t[2] == 'P' && t[3] == 'o');
    assert(!starts_with(t, "# GeneratedAt:"@)) by {
        if starts_with(t, "# GeneratedAt:"@) {
            assert(t.take(14)[2] == "# GeneratedAt:"@[2]);
        }
    }
    assert(!starts_with(t, "# ProxyType:"@)) by {
        if starts_with(t, "# ProxyType:"@) {
            assert(t.take(12)[3] == "# ProxyType:"@[3]);
        }
    }
    assert(t.take(7) =~= "# Port:"@);
    assert(t.skip(7) =~= seq![' '] + d);
    assert((seq![' '] + d).drop_first() =~= d);
    assert(trim_start(seq![' '] + d) == trim_start(d));
    lemma_trim_plain(d);
    lemma_parse_decimal(port as nat, 65535);
}

/// A line whose trimmed text does not start with `#` sets nothing.
proof fn lemma_not_meta(line: Seq<char>)
    requires
        trim(line).len() == 0 || trim(line)[0] != '#',
    ensures
        !is_meta_line(line),
{
    reveal_strlit("# GeneratedAt:");
    reveal_strlit("# ProxyType:");
    reveal_strlit("# Port:");
    let t = trim(line);
    if starts_with(t, "# GeneratedAt:"@) {
        assert(t.take(14)[0] == t[0]);
    }
    if starts_with(t, "# ProxyType:"@) {
        assert(t.take(12)[0] == t[0]);
    }
    if starts_with(t, "# Port:"@) {
        assert(t.take(7)[0] == t[0]);
    }
}

/// The lines of a rendered configuration, one by one.
proof fn lemma_rendered_lines(proxy_type: Seq<char>, port: u16, config_content: Seq<char>, generated_at: Seq<char>)
    requires
        is_supported_proxy_type(proxy_type),
    ensures
        ({
            let nl = seq!['\n'];
            let e = Seq::<char>::empty();
            let d = decimal(port as nat);
            let sec = if proxy_type == "socks5"@ { "[Socks5]"@ } else { "[HTTP]"@ };
            rendered_config(proxy_type, port, config_content, generated_at) == ("# GeneratedAt: "@ + generated_at) + (nl + (
            ("# ProxyType: "@ + proxy_type) + (nl + (("# Port: "@ + d) + (nl + (e + (nl + (trim(config_content) + (nl + (
            e + (nl + (sec + (nl + (("BindAddress = 127.0.0.1:"@ + d) + (nl + e)))))))))))))))
        }),
{
    reveal_strlit("\n# ProxyType: ");
    reveal_strlit("# ProxyType: ");
    reveal_strlit("\n# Port: ");
    reveal_strlit("# Port: ");
    reveal_strlit("\n\n");
    reveal_strlit("[Socks5]\n");
    reveal_strlit("[Socks5]");
    reveal_strlit("[HTTP]\n");
    reveal_strlit("[HTTP]");
    reveal_strlit("\n");
    let nl = seq!['\n'];
    assert("\n# ProxyType: "@ =~= nl + "# ProxyType: "@);
    assert("\n# Port: "@ =~= nl + "# Port: "@);
    assert("\n\n"@ =~= nl + nl);
    assert("[Socks5]\n"@ =~= "[Socks5]"@ + nl);
    assert("[HTTP]\n"@ =~= "[HTTP]"@ + nl);
    assert("\n"@ =~= nl);
    let d = decimal(port as nat);
    let sec = if proxy_type == "socks5"@ { "[Socks5]"@ } else { "[HTTP]"@ };
    let e = Seq::<char>::empty();
    let r = rendered_config(proxy_type, port, config_content, generated_at);
    assert(r =~= ("# GeneratedAt: "@ + generated_at) + (nl + (
            ("# ProxyType: "@ + proxy_type) + (nl + (("# Port: "@ + d) + (nl + (e + (nl + (trim(config_content) + (nl + (
            e + (nl + (sec + (nl + (("BindAddress = 127.0.0.1:"@ + d) + (nl + e))))))))))))))));
}

/// A rendered configuration carries its metadata back: reading its header
/// gives the timestamp (trimmed), the proxy type and the port it was rendered
/// with, when the timestamp is a single line and no line of the profile sets
/// a metadata value itself.
pub proof fn lemma_rendered_metadata_round_trip(
    proxy_type: Seq<char>,
    port: u16,
    config_content: Seq<char>,
    generated_at: Seq<char>,
)
    requires
        is_supported_proxy_type(proxy_type),
        !generated_at.contains('\n'),
        no_meta_lines(trim(config_content)),
    ensures
        meta_of(rendered_config(proxy_type, port, config_content, generated_at)) == (MetaScan {
            generated_at: trim(generated_at),
            proxy_type,
            port,
        }),
{
    reveal_strlit("# GeneratedAt: ");
    reveal_strlit("# ProxyType: ");
    reveal_strlit("# Port: ");
    reveal_strlit("[Socks5]");
    reveal_strlit("[HTTP]");
    reveal_strlit("BindAddress = 127.0.0.1:");
    reveal_strlit("socks5");
    reveal_strlit("http");
    let f = meta_line_fn();
    let nl = seq!['\n'];
    let e = Seq::<char>::empty();
    let d = decimal(port as nat);
    let sec = if proxy_type == "socks5"@ { "[Socks5]"@ } else { "[HTTP]"@ };
    let a1 = "# GeneratedAt: "@ + generated_at;
    let a2 = "# ProxyType: "@ + proxy_type;
    let a3 = "# Port: "@ + d;
    let a7 = "BindAddress = 127.0.0.1:"@ + d;
    let body = trim(config_content);
    lemma_rendered_lines(proxy_type, port, config_content, generated_at);
    lemma_decimal_plain(port as nat);
    // no line but the body spans a newline
    assert(!"# GeneratedAt: "@.contains('\n'));
    assert(!"# ProxyType: "@.contains('\n'));
    assert(!"# Port: "@.contains('\n'));
    assert(!"BindAddress = 127.0.0.1:"@.contains('\n'));
    assert(!sec.contains('\n'));
    assert(!proxy_type.contains('\n'));
    assert(!e.contains('\n'));
    lemma_concat_lacks("# GeneratedAt: "@, generated_at, '\n');
    lemma_concat_lacks("# ProxyType: "@, proxy_type, '\n');
    lemma_concat_lacks("# Port: "@, d, '\n');
    lemma_concat_lacks("BindAddress = 127.0.0.1:"@, d, '\n');
    // the values of the three header lines
    let s0 = meta_start();
    let s1 = MetaScan { generated_at: trim(generated_at), ..s0 };
    let s2 = MetaScan { proxy_type, ..s1 };
    let s3 = MetaScan { port, ..s2 };
    lemma_meta_generated_at(s0, generated_at);
    lemma_meta_proxy_type(s1, proxy_type);
    lemma_meta_port(s2, port);
    // the lines after the header set nothing
    assert(trim(e) =~= e);
    lemma_not_meta(e);
    assert(sec[0] == '[' && sec.last() == ']');
    lemma_trim_plain(sec);
    lemma_not_meta(sec);
    assert(a7[0] == 'B' && a7.last() == d.last());
    lemma_trim_plain(a7);
    lemma_not_meta(a7);
    let r8 = a7 + (nl + e);
    let r7 = sec + (nl + r8);
    let r6 = e + (nl + r7);
    let r5 = body + (nl + r6);
    let r4 = e + (nl + r5);
    let r3 = a3 + (nl + r4);
    let r2 = a2 + (nl + r3);
    let r1 = a1 + (nl + r2);
    lemma_fold_lines_front(s0, a1, r2, f);
    lemma_fold_lines_front(s1, a2, r3, f);
    lemma_fold_lines_front(s2, a3, r4, f);
    lemma_fold_lines_front(s3, e, r5, f);
    lemma_fold_lines_concat(s3, body, r6, f);
    lemma_fold_no_meta(s3, body);
    lemma_fold_lines_front(s3, e, r7, f);
    lemma_fold_lines_front(s3, sec, r8, f);
    lemma_fold_lines_front(s3, a7, e, f);
    assert(lead_len(e, '\n') == 0);
    assert(fold_lines(s3, e, f) == f(s3, e));
}

proof fn lemma_meta_any_proxy_type(st: MetaScan, pt: Seq<char>)
    ensures
        meta_line(st, "# ProxyType: "@ + pt) == (MetaScan { proxy_type: trim(pt), ..st }),
{
    reveal_strlit("# ProxyType: ");
    reveal_strlit("# ProxyType:");
    reveal_strlit("# GeneratedAt:");
    let p = "# ProxyType: "@;
    let q = "# ProxyType:"@;
    let line = p + pt;
    assert(line[0] == '#');
    assert(trim_start(line) == line);
    assert(p.drop_last() =~= q);
    assert(trim_end(q) == q);
    assert(trim_end(p) == q);
    lemma_trim_end_concat(p, pt);
    let te = trim_end(pt);
    let t = trim(line);
    lemma_trim_after_trim_end(pt);
    assert(!starts_with(t, "# GeneratedAt:"@)) by {
        if starts_with(t, "# GeneratedAt:"@) {
            assert(t.take(14)[2] == "# GeneratedAt:"@[2]);
            assert(t[2] == 'P');
        }
    }
    if te.len() > 0 {
        assert(t == p + te);
        assert(t.take(12) =~= q);
        assert(t.skip(12) =~= seq![' '] + te);
        assert((seq![' '] + te).drop_first() =~= te);
        assert(trim_start(seq![' '] + te) == trim_start(te));
    } else {
        crate::text::lemma_trim_end_shape(pt);
        crate::text::lemma_trim_all_ws(pt);
        assert(t == q);
        assert(t.take(12) =~= q);
        assert(t.skip(12) =~= Seq::<char>::empty());
        assert(trim(pt) =~= Seq::<char>::empty());
    }
}

/// The metadata header a generated configuration starts with.
pub open spec fn header_text(generated_at: Seq<char>, proxy_type: Seq<char>, port: u16) -> Seq<char> {
    "# GeneratedAt: "@ + generated_at + "\n# ProxyType: "@ + proxy_type + "\n# Port: "@ + decimal(
        port as nat,
    ) + "\n\n"@
}

/// Reading the metadata of a header followed by any text gives back the
/// header's timestamp and proxy type (trimmed) and its port, when the
/// timestamp and the proxy type are single lines and no line of the text sets
/// a metadata value itself.
pub proof fn lemma_header_round_trip(generated_at: Seq<char>, proxy_type: Seq<char>, port: u16, body: Seq<char>)
    requires
        !generated_at.contains('\n'),
        !proxy_type.contains('\n'),
        no_meta_lines(body),
    ensures
        meta_of(header_text(generated_at, proxy_type, port) + body) == (MetaScan {
            generated_at: trim(generated_at),
            proxy_type: trim(proxy_type),
            port,
        }),
{
    reveal_strlit("# GeneratedAt: ");
    reveal_strlit("\n# ProxyType: ");
    reveal_strlit("# ProxyType: ");
    reveal_strlit("\n# Port: ");
    reveal_strlit("# Port: ");
    reveal_strlit("\n\n");
    let f = meta_line_fn();
    let nl = seq!['\n'];
    let e = Seq::<char>::empty();
    let d = decimal(port as nat);
    let a1 = "# GeneratedAt: "@ + generated_at;
    let a2 = "# ProxyType: "@ + proxy_type;
    let a3 = "# Port: "@ + d;
    assert("\n# ProxyType: "@ =~= nl + "# ProxyType: "@);
    assert("\n# Port: "@ =~= nl + "# Port: "@);
    assert("\n\n"@ =~= nl + nl);
    let r4 = e + (nl + body);
    let r3 = a3 + (nl + r4);
    let r2 = a2 + (nl + r3);
    assert(header_text(generated_at, proxy_type, port) + body =~= a1 + (nl + r2));
    lemma_decimal_plain(port as nat);
    assert(!"# GeneratedAt: "@.contains('\n'));
    assert(!"# ProxyType: "@.contains('\n'));
    assert(!"# Port: "@.contains('\n'));
    assert(!e.contains('\n'));
    lemma_concat_lacks("# GeneratedAt: "@, generated_at, '\n');
    lemma_concat_lacks("# ProxyType: "@, proxy_type, '\n');
    lemma_concat_lacks("# Port: "@, d, '\n');
    let s0 = meta_start();
    let s1 = MetaScan { generated_at: trim(generated_at), ..s0 };
    let s2 = MetaScan { proxy_type: trim(proxy_type), ..s1 };
    let s3 = MetaScan { port, ..s2 };
    lemma_meta_generated_at(s0, generated_at);
    lemma_meta_any_proxy_type(s1, proxy_type);
    lemma_meta_port(s2, port);
    assert(trim(e) =~= e);
    lemma_not_meta(e);
    lemma_fold_lines_front(s0, a1, r2, f);
    lemma_fold_lines_front(s1, a2, r3, f);
    lemma_fold_lines_front(s2, a3, r4, f);
    lemma_fold_lines_front(s3, e, body, f);
    lemma_fold_no_meta(s3, body);
}

/// Trimming a text that starts with whitespace other than a newline, or
/// dropping a leading newline, keeps its lines free of metadata.
proof fn lemma_no_meta_drop_front(s: Seq<char>)
    requires
        s.len() > 0,
        is_ws(s[0]),
        no_meta_lines(s),
    ensures
        no_meta_lines(s.drop_first()),
{
    let d = s.drop_first();
    let c = s[0];
    if c == '\n' {
        assert(lead_len(s, '\n') == 0);
        assert(s.skip(1) =~= d);
    } else {
        let k = lead_len(s, '\n') as int;
        assert(k == 1 + lead_len(d, '\n'));
        crate::text::lemma_lead_len_facts(s, '\n');
        if k < s.len() {
            let x = d.take(k - 1);
            assert(s.take(k) =~= seq![c] + x);
            assert((seq![c] + x).drop_first() =~= x);
            assert(trim_start(seq![c] + x) == trim_start(x));
            assert(s.skip(k + 1) =~= d.skip(k));
        } else {
            assert(s =~= seq![c] + d);
            assert((seq![c] + d).drop_first() =~= d);
            assert(trim_start(s) == trim_start(d));
        }
    }
}

proof fn lemma_no_meta_trim_start(s: Seq<char>)
    requires
        no_meta_lines(s),
    ensures
        no_meta_lines(trim_start(s)),
    decreases s.len(),
{
    if s.len() > 0 && is_ws(s[0]) {
        lemma_no_meta_drop_front(s);
        lemma_no_meta_trim_start(s.drop_first());
    }
}

/// Dropping trailing whitespace keeps a text's lines free of metadata.
proof fn lemma_no_meta_drop_back(s: Seq<char>)
    requires
        s.len() > 0,
        is_ws(s.last()),
        no_meta_lines(s),
    ensures
        no_meta_lines(s.drop_last()),
    decreases s.len(),
{
    let dl = s.drop_last();
    let k = lead_len(s, '\n') as int;
    crate::text::lemma_lead_len_facts(s, '\n');
    let a = s.take(k);
    assert forall|j: int| 0 <= j < a.len() implies a[j] != '\n' by {
        assert(a[j] == s[j]);
    }
    if k < s.len() - 1 {
        let rest = s.subrange(k, s.len() - 1);
        assert(dl =~= a + rest);
        assert(rest[0] == '\n');
        assert(lead_len(rest, '\n') == 0);
        crate::text::lemma_lead_len_concat(a, rest, '\n');
        assert(dl.take(k) =~= a);
        let tail = s.skip(k + 1);
        assert(dl.skip(k + 1) =~= tail.drop_last());
        assert(tail.last() == s.last());
        lemma_no_meta_drop_back(tail);
    } else if k == s.len() - 1 {
        assert(dl =~= a);
        assert(a + Seq::<char>::empty() =~= a);
        crate::text::lemma_lead_len_concat(a, Seq::<char>::empty(), '\n');
    } else {
        assert forall|j: int| 0 <= j < dl.len() implies dl[j] != '\n' by {
            assert(dl[j] == s[j]);
        }
        assert(dl + Seq::<char>::empty() =~= dl);
        crate::text::lemma_lead_len_concat(dl, Seq::<char>::empty(), '\n');
        let b = seq![s.last()];
        assert(s =~= dl + b);
        crate::text::lemma_trim_all_ws(b);
        crate::text::lemma_trim_start_concat(dl, b);
        if trim_start(dl).len() > 0 {
            crate::text::lemma_trim_end_concat(trim_start(dl), b);
        } else {
            assert(trim_start(s).len() == 0);
            assert(trim(s) =~= Seq::<char>::empty());
            assert(trim(dl) =~= Seq::<char>::empty());
        }
        assert(trim(s) == trim(dl));
    }
}

proof fn lemma_no_meta_trim_end(s: Seq<char>)
    requires
        no_meta_lines(s),
    ensures
        no_meta_lines(trim_end(s)),
    decreases s.len(),
{
    if s.len() > 0 && is_ws(s.last()) {
        lemma_no_meta_drop_back(s);
        lemma_no_meta_trim_end(s.drop_last());
    }
}

/// A text whose lines set no metadata value still has none once trimmed.
proof fn lemma_no_meta_trim(s: Seq<char>)
    requires
        no_meta_lines(s),
    ensures
        no_meta_lines(trim(s)),
{
    lemma_no_meta_trim_start(s);
    lemma_no_meta_trim_end(trim_start(s));
}

/// A generated configuration carries its metadata back: reading the header
/// of the configuration rendered for a profile gives the timestamp
/// (trimmed), the proxy type and the port it was rendered with, when the
/// timestamp is a single line and no line of the profile, once trimmed,
/// starts like a metadata line.
pub proof fn lemma_generated_config_round_trip(
    proxy_type: Seq<char>,
    port: u16,
    config_content: Seq<char>,
    generated_at: Seq<char>,
)
    requires
        is_supported_proxy_type(proxy_type),
        !generated_at.contains('\n'),
        no_meta_lines(config_content),
    ensures
        meta_of(rendered_config(proxy_type, port, config_content, generated_at)) == (MetaScan {
            generated_at: trim(generated_at),
            proxy_type,
            port,
        }),
{
    lemma_no_meta_trim(config_content);
    lemma_rendered_metadata_round_trip(proxy_type, port, config_content, generated_at);
}

} // verus!
