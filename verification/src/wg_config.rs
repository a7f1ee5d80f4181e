//! WireGuard profile parsing.

use vstd::prelude::*;
use crate::text::{
    chars_eq_str, chars_of, find_char, fold_lines, lemma_fold_lines_concat, lemma_fold_lines_front,
    lemma_fold_lines_step, lowercase_span, next_index_of, remove_all, span_string, spec_lowercase,
    trim, trim_span, without_all,
};

verus! {

/// A `[Interface]` or `[Peer]` setting that the profile reader keeps.
#[derive(Clone, Copy, Debug, PartialEq, Eq)]
pub enum WgField {
    PrivateKey,
    Address,
    Dns,
    PublicKey,
    Endpoint,
    AllowedIps,
}

/// The settings of a WireGuard profile that WirePort shows and checks.
#[derive(Debug)]
pub struct WgConfig {
    pub address: String,
    pub dns: String,
    pub endpoint: String,
    pub allowed_ips: String,
}

/// The field a `key = value` line sets, given the lowercased section name and
/// the lowercased key.
pub open spec fn wg_field(section: Seq<char>, key: Seq<char>) -> Option<WgField> {
    if section == "interface"@ {
        if key == "privatekey"@ {
            Some(WgField::PrivateKey)
        } else if key == "address"@ {
            Some(WgField::Address)
        } else if key == "dns"@ {
            Some(WgField::Dns)
        } else {
            None
        }
    } else if section == "peer"@ {
        if key == "publickey"@ {
            Some(WgField::PublicKey)
        } else if key == "endpoint"@ {
            Some(WgField::Endpoint)
        } else if key == "allowedips"@ {
            Some(WgField::AllowedIps)
        } else {
            None
        }
    } else {
        None
    }
}

/// What the reader has gathered after some lines: the current section
/// (lowercased) and the latest value of each setting.
pub struct WgScan {
    pub section: Seq<char>,
    pub private_key: Option<Seq<char>>,
    pub address: Option<Seq<char>>,
    pub dns: Seq<char>,
    pub public_key: Option<Seq<char>>,
    pub endpoint: Option<Seq<char>>,
    pub allowed_ips: Option<Seq<char>>,
}

pub open spec fn wg_scan_start() -> WgScan {
    WgScan {
        section: Seq::empty(),
        private_key: None,
        address: None,
        dns: Seq::empty(),
        public_key: None,
        endpoint: None,
        allowed_ips: None,
    }
}

pub open spec fn wg_set(st: WgScan, f: WgField, val: Seq<char>) -> WgScan {
    match f {
        WgField::PrivateKey => WgScan { private_key: Some(val), ..st },
        WgField::Address => WgScan { address: Some(val), ..st },
        WgField::Dns => WgScan { dns: val, ..st },
        WgField::PublicKey => WgScan { public_key: Some(val), ..st },
        WgField::Endpoint => WgScan { endpoint: Some(val), ..st },
        WgField::AllowedIps => WgScan { allowed_ips: Some(val), ..st },
    }
}

/// One line of a profile. Blank lines and lines starting with `#` or `;` are
/// skipped; `[name]` opens a section; `key = value` sets a field of the
/// current section (keys and section names compare case-insensitively);
/// anything else is ignored.
pub open spec fn wg_line(st: WgScan, line: Seq<char>) -> WgScan {
    let t = trim(line);
    if t.len() == 0 || t[0] == '#' || t[0] == ';' {
        st
    } else if t[0] == '[' && t.last() == ']' {
        WgScan { section: spec_lowercase(trim(t.subrange(1, t.len() - 1))), ..st }
    } else {
        match find_char(t, '=') {
            Some(i) => match wg_field(st.section, spec_lowercase(trim(t.take(i)))) {
                Some(f) => wg_set(st, f, trim(t.skip(i + 1))),
                None => st,
            },
            None => st,
        }
    }
}

/// `wg_line` as a value, for folding over lines.
pub open spec fn wg_line_fn() -> spec_fn(WgScan, Seq<char>) -> WgScan {
    |st: WgScan, l: Seq<char>| wg_line(st, l)
}

/// The profile read from `content`: address, DNS (empty when absent),
/// endpoint and allowed IPs, present only when the private key, address,
/// public key, endpoint and allowed IPs are all set.
pub open spec fn wg_config_of(content: Seq<char>) -> Option<
    (Seq<char>, Seq<char>, Seq<char>, Seq<char>),
> {
    let st = fold_lines(wg_scan_start(), content, wg_line_fn());
    if st.private_key is Some && st.address is Some && st.public_key is Some
        && st.endpoint is Some && st.allowed_ips is Some {
        Some((st.address->0, st.dns, st.endpoint->0, st.allowed_ips->0))
    } else {
        None
    }
}

/// The field set by a line with the lowercased key `key` in the section whose
/// lowercased name is `section`.
pub fn wg_field_for(section: &Vec<char>, key: &Vec<char>) -> (r: Option<WgField>)
    ensures
        r == wg_field(section@, key@),
{
    if chars_eq_str(section, "interface") {
        if chars_eq_str(key, "privatekey") {
            Some(WgField::PrivateKey)
        } else if chars_eq_str(key, "address") {
            Some(WgField::Address)
        } else if chars_eq_str(key, "dns") {
            Some(WgField::Dns)
        } else {
            None
        }
    } else if chars_eq_str(section, "peer") {
        if chars_eq_str(key, "publickey") {
            Some(WgField::PublicKey)
        } else if chars_eq_str(key, "endpoint") {
            Some(WgField::Endpoint)
        } else if chars_eq_str(key, "allowedips") {
            Some(WgField::AllowedIps)
        } else {
            None
        }
    } else {
        None
    }
}

/// Reader state: spans `[lo, hi)` into the content's characters.
struct ScanState {
    section: Vec<char>,
    private_key: Option<(usize, usize)>,
    address: Option<(usize, usize)>,
    dns: (usize, usize),
    public_key: Option<(usize, usize)>,
    endpoint: Option<(usize, usize)>,
    allowed_ips: Option<(usize, usize)>,
}

spec fn span_ok(sp: (usize, usize), n: nat) -> bool {
    sp.0 <= sp.1 <= n
}

spec fn opt_span_ok(o: Option<(usize, usize)>, n: nat) -> bool {
    match o {
        Some(sp) => span_ok(sp, n),
        None => true,
    }
}

spec fn span_of(v: Seq<char>, sp: (usize, usize)) -> Seq<char> {
    v.subrange(sp.0 as int, sp.1 as int)
}

spec fn opt_span_of(v: Seq<char>, o: Option<(usize, usize)>) -> Option<Seq<char>> {
    match o {
        Some(sp) => Some(span_of(v, sp)),
        None => None,
    }
}

impl ScanState {
    spec fn ok(&self, n: nat) -> bool {
        &&& opt_span_ok(self.private_key, n)
        &&& opt_span_ok(self.address, n)
        &&& span_ok(self.dns, n)
        &&& opt_span_ok(self.public_key, n)
        &&& opt_span_ok(self.endpoint, n)
        &&& opt_span_ok(self.allowed_ips, n)
    }

    spec fn scan(&self, v: Seq<char>) -> WgScan {
        WgScan {
            section: self.section@,
            private_key: opt_span_of(v, self.private_key),
            address: opt_span_of(v, self.address),
            dns: span_of(v, self.dns),
            public_key: opt_span_of(v, self.public_key),
            endpoint: opt_span_of(v, self.endpoint),
            allowed_ips: opt_span_of(v, self.allowed_ips),
        }
    }
}

/// Reads the line `[lo, hi)` of `v` into `st`.
fn scan_line(v: &Vec<char>, lo: usize, hi: usize, st: &mut ScanState)
    requires
        lo <= hi <= v.len(),
        old(st).ok(v@.len()),
    ensures
        final(st).ok(v@.len()),
        final(st).scan(v@) == wg_line(old(st).scan(v@), v@.subrange(lo as int, hi as int)),
{
    let ghost line = v@.subrange(lo as int, hi as int);
    let (a, b) = trim_span(v, lo, hi);
    let ghost t = v@.subrange(a as int, b as int);
    assert(t == trim(line));
    if a == b || v[a] == '#' || v[a] == ';' {
        return;
    }
    assert(t[0] == v@[a as int] && t.last() == v@[b - 1]);
    if v[a] == '[' && v[b - 1] == ']' {
        assert(b - a >= 2);
        let (c, d) = trim_span(v, a + 1, b - 1);
        assert(t.subrange(1, t.len() - 1) =~= v@.subrange(a + 1, b - 1));
        st.section = lowercase_span(v, c, d);
        return;
    }
    let e = next_index_of(v, a, b, '=');
    assert(find_char(t, '=') == if e < b { Some((e - a) as int) } else { None::<int> });
    if e == b {
        return;
    }
    assert(t.take(e - a) =~= v@.subrange(a as int, e as int));
    assert(t.skip(e - a + 1) =~= v@.subrange(e + 1, b as int));
    let (ka, kb) = trim_span(v, a, e);
    let key = lowercase_span(v, ka, kb);
    let (va, vb) = trim_span(v, e + 1, b);
    match wg_field_for(&st.section, &key) {
        Some(WgField::PrivateKey) => st.private_key = Some((va, vb)),
        Some(WgField::Address) => st.address = Some((va, vb)),
        Some(WgField::Dns) => st.dns = (va, vb),
        Some(WgField::PublicKey) => st.public_key = Some((va, vb)),
        Some(WgField::Endpoint) => st.endpoint = Some((va, vb)),
        Some(WgField::AllowedIps) => st.allowed_ips = Some((va, vb)),
        None => {},
    }
}

/// Reads a WireGuard profile. Returns the address, DNS, endpoint and allowed
/// IPs when the profile sets a private key, an address, a public key, an
/// endpoint and allowed IPs; `None` otherwise.
pub fn parse_wg_config(content: &str) -> (r: Option<WgConfig>)
    ensures
        match r {
            Some(c) => wg_config_of(content@) == Some(
                (c.address@, c.dns@, c.endpoint@, c.allowed_ips@),
            ),
            None => wg_config_of(content@) is None,
        },
{
    let v = chars_of(content);
    let mut st = ScanState {
        section: Vec::new(),
        private_key: None,
        address: None,
        dns: (0, 0),
        public_key: None,
        endpoint: None,
        allowed_ips: None,
    };
    assert(st.scan(v@) =~= wg_scan_start()) by {
        assert(span_of(v@, (0, 0)) =~= Seq::<char>::empty());
    }
    assert(v@.skip(0) =~= v@);
    let mut pos: usize = 0;
    loop
        invariant_except_break
            fold_lines(wg_scan_start(), v@, wg_line_fn()) == fold_lines(
                st.scan(v@),
                v@.skip(pos as int),
                wg_line_fn(),
            ),
        invariant
            pos <= v.len(),
            st.ok(v@.len()),
        ensures
            fold_lines(wg_scan_start(), v@, wg_line_fn()) == st.scan(v@),
        decreases v.len() - pos,
    {
        let e = next_index_of(&v, pos, v.len(), '\n');
        let ghost before = st.scan(v@);
        scan_line(&v, pos, e, &mut st);
        proof {
            lemma_fold_lines_step(before, v@, pos as int, e as int, wg_line_fn());
        }
        if e == v.len() {
            break;
        }
        pos = e + 1;
    }
    let ghost fin = st.scan(v@);
    if st.private_key.is_some() && st.address.is_some() && st.public_key.is_some()
        && st.endpoint.is_some() && st.allowed_ips.is_some() {
        let (aa, ab) = st.address.unwrap();
        let (ea, eb) = st.endpoint.unwrap();
        let (ia, ib) = st.allowed_ips.unwrap();
        let (da, db) = st.dns;
        Some(
            WgConfig {
                address: span_string(&v, aa, ab),
                dns: span_string(&v, da, db),
                endpoint: span_string(&v, ea, eb),
                allowed_ips: span_string(&v, ia, ib),
            },
        )
    } else {
        None
    }
}

/// A WireGuard profile chosen for import: its name, the settings shown to the
/// user, where it came from and its full text.
#[derive(Debug)]
pub struct ParseResult {
    pub name: String,
    pub endpoint: String,
    pub dns: String,
    pub address: String,
    pub allowed_ips: String,
    pub source_path: String,
    pub config_content: String,
}

/// The name given to an imported profile: its file name without `.conf`, or
/// "unnamed" when the file name is not known.
pub open spec fn profile_name_of(file_name: Option<Seq<char>>) -> Seq<char> {
    match file_name {
        Some(n) => without_all(n, ".conf"@),
        None => "unnamed"@,
    }
}

/// The name given to a profile imported from a file with the given name.
pub fn profile_name_from_file(file_name: Option<&str>) -> (r: String)
    ensures
        r@ == profile_name_of(match file_name {
            Some(n) => Some(n@),
            None => None,
        }),
{
    match file_name {
        Some(n) => remove_all(n, ".conf"),
        None => "unnamed".to_owned(),
    }
}

/// Checks a profile chosen for import: a valid WireGuard profile gives its
/// name and settings, anything else the error "Invalid WireGuard configuration".
pub fn import_profile(file_name: Option<&str>, source_path: String, content: String) -> (r: Result<
    ParseResult,
    String,
>)
    ensures
        match r {
            Ok(p) => {
                &&& wg_config_of(content@) == Some((p.address@, p.dns@, p.endpoint@, p.allowed_ips@))
                &&& p.name@ == profile_name_of(match file_name {
                    Some(n) => Some(n@),
                    None => None,
                })
                &&& p.source_path@ == source_path@
                &&& p.config_content@ == content@
            },
            Err(e) => wg_config_of(content@) is None && e@ == "Invalid WireGuard configuration"@,
        },
{
    let name = profile_name_from_file(file_name);
    match parse_wg_config(content.as_str()) {
        Some(c) => Ok(
            ParseResult {
                name,
                endpoint: c.endpoint,
                dns: c.dns,
                address: c.address,
                allowed_ips: c.allowed_ips,
                source_path,
                config_content: content,
            },
        ),
        None => Err("Invalid WireGuard configuration".to_owned()),
    }
}

/// Comment and blank lines do not change the profile read: putting one
/// between two parts of a profile gives the same settings as leaving it out.
pub proof fn lemma_comment_lines_ignored(before: Seq<char>, line: Seq<char>, after: Seq<char>)
    requires
        !line.contains('\n'),
        trim(line).len() == 0 || trim(line)[0] == '#' || trim(line)[0] == ';',
    ensures
        wg_config_of(before + (seq!['\n'] + (line + (seq!['\n'] + after)))) == wg_config_of(
            before + (seq!['\n'] + after),
        ),
{
    let f = wg_line_fn();
    let st0 = wg_scan_start();
    lemma_fold_lines_concat(st0, before, line + (seq!['\n'] + after), f);
    lemma_fold_lines_front(fold_lines(st0, before, f), line, after, f);
    lemma_fold_lines_concat(st0, before, after, f);
}

} // verus!
