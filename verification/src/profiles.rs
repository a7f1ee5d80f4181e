//! Saved profiles as the tray and the connect action read them: lookup by id,
//! the defaults of missing settings, and the checks made before connecting.

use vstd::prelude::*;
use crate::text::{chars_eq_str, chars_of, push_str, string_from_chars};

verus! {

/// What a saved profile holds of the settings read here; a setting that is
/// missing or of the wrong kind is `None`.
#[derive(Clone, Debug)]
pub struct ProfileRecord {
    pub id: Option<String>,
    pub name: Option<String>,
    pub proxy_type: Option<String>,
    pub port: Option<u64>,
}

/// A profile's display settings, defaults filled in.
#[derive(Debug)]
pub struct ProfileInfo {
    pub name: String,
    pub proxy_type: String,
    pub port: u16,
}

pub open spec fn has_id(r: ProfileRecord, id: Seq<char>) -> bool {
    r.id matches Some(s) && s@ == id
}

/// `i` is the index of the first record with the given id.
pub open spec fn is_first_profile(rs: Seq<ProfileRecord>, id: Seq<char>, i: int) -> bool {
    &&& 0 <= i < rs.len()
    &&& has_id(rs[i], id)
    &&& forall|j: int| 0 <= j < i ==> !has_id(#[trigger] rs[j], id)
}

/// No record has the given id.
pub open spec fn no_profile(rs: Seq<ProfileRecord>, id: Seq<char>) -> bool {
    forall|j: int| 0 <= j < rs.len() ==> !has_id(#[trigger] rs[j], id)
}

/// A port as the profile stores it, cut to 16 bits.
pub open spec fn port_bits(p: u64) -> u16 {
    (p % 65536) as u16
}

/// The display settings of a record: an unnamed profile is "Unnamed", the
/// proxy type defaults to `socks5` and the port to 1080.
pub open spec fn info_of(r: ProfileRecord) -> (Seq<char>, Seq<char>, u16) {
    (
        match r.name {
            Some(n) => n@,
            None => "Unnamed"@,
        },
        match r.proxy_type {
            Some(t) => t@,
            None => "socks5"@,
        },
        match r.port {
            Some(p) => port_bits(p),
            None => 1080,
        },
    )
}

pub open spec fn info_view(i: ProfileInfo) -> (Seq<char>, Seq<char>, u16) {
    (i.name@, i.proxy_type@, i.port)
}

fn some_eq(s: &Option<String>, id: &str) -> (r: bool)
    ensures
        r == (s matches Some(x) && x@ == id@),
{
    match s {
        Some(x) => {
            let v = chars_of(x.as_str());
            chars_eq_str(&v, id)
        },
        None => false,
    }
}

/// Index of the first record with the given id.
pub fn find_profile(records: &Vec<ProfileRecord>, id: &str) -> (r: Option<usize>)
    ensures
        match r {
            Some(i) => is_first_profile(records@, id@, i as int),
            None => no_profile(records@, id@),
        },
{
    let mut i: usize = 0;
    while i < records.len()
        invariant
            i <= records@.len(),
            forall|j: int| 0 <= j < i ==> !has_id(#[trigger] records@[j], id@),
        decreases records@.len() - i,
    {
        if some_eq(&records[i].id, id) {
            return Some(i);
        }
        i = i + 1;
    }
    None
}

fn text_or(s: &Option<String>, default: &str) -> (r: String)
    ensures
        r@ == match s {
            Some(x) => x@,
            None => default@,
        },
{
    match s {
        Some(x) => x.clone(),
        None => default.to_owned(),
    }
}

/// The display settings of one record, defaults filled in.
pub fn profile_info(record: &ProfileRecord) -> (r: ProfileInfo)
    ensures
        info_view(r) == info_of(*record),
{
    let port: u16 = match record.port {
        Some(p) => (p % 65536) as u16,
        None => 1080,
    };
    ProfileInfo {
        name: text_or(&record.name, "Unnamed"),
        proxy_type: text_or(&record.proxy_type, "socks5"),
        port,
    }
}

/// The display settings of the first profile with the given id, if any.
pub fn find_profile_info(records: &Vec<ProfileRecord>, id: &str) -> (r: Option<ProfileInfo>)
    ensures
        no_profile(records@, id@) ==> r is None,
        forall|i: int|
            is_first_profile(records@, id@, i) ==> (r matches Some(info) && info_view(info)
                == info_of(#[trigger] records@[i])),
{
    match find_profile(records, id) {
        Some(i) => Some(profile_info(&records[i])),
        None => None,
    }
}

/// `r` is the port to connect with for profile `id` among `rs`: an error
/// when no profile has the id, or when the first that has it has no port.
pub open spec fn connect_port_is(rs: Seq<ProfileRecord>, id: Seq<char>, r: Result<u16, String>) -> bool {
    &&& no_profile(rs, id) ==> (r matches Err(e) && e@ == "Profile not found: "@ + id)
    &&& forall|i: int|
        is_first_profile(rs, id, i) ==> match (#[trigger] rs[i]).port {
            Some(p) => r == Ok::<u16, String>(port_bits(p)),
            None => r matches Err(e) && e@ == "Port not found in profile"@,
        }
}

/// The proxy port of the profile to connect: an error when no profile has the
/// id, or when it has no port.
pub fn connect_port(records: &Vec<ProfileRecord>, profile_id: &str) -> (r: Result<u16, String>)
    ensures
        connect_port_is(records@, profile_id@, r),
{
    match find_profile(records, profile_id) {
        None => {
            let mut out: Vec<char> = Vec::new();
            push_str(&mut out, "Profile not found: ");
            push_str(&mut out, profile_id);
            Err(string_from_chars(&out))
        },
        Some(i) => match records[i].port {
            Some(p) => Ok((p % 65536) as u16),
            None => Err("Port not found in profile".to_owned()),
        },
    }
}

/// What the tray's connect action does.
#[derive(Debug)]
pub enum ConnectGate {
    /// No profile is selected.
    NoSelection,
    /// A profile already runs.
    AlreadyRunning,
    /// Go on with this profile.
    Proceed(String),
}

/// Whether the tray's connect action goes on: a profile must be selected and
/// none may be running.
pub fn connect_gate(selected: Option<String>, any_running: bool) -> (g: ConnectGate)
    ensures
        match selected {
            None => g is NoSelection,
            Some(id) => if any_running {
                g is AlreadyRunning
            } else {
                g matches ConnectGate::Proceed(p) && p@ == id@
            },
        },
{
    match selected {
        None => ConnectGate::NoSelection,
        Some(id) => if any_running {
            ConnectGate::AlreadyRunning
        } else {
            ConnectGate::Proceed(id)
        },
    }
}

pub open spec fn opt_view(o: Option<String>) -> Option<Seq<char>> {
    match o {
        Some(s) => Some(s@),
        None => None,
    }
}

/// The content of a record.
pub open spec fn record_view(p: ProfileRecord) -> (Option<Seq<char>>, Option<Seq<char>>, Option<Seq<char>>, Option<u64>) {
    (opt_view(p.id), opt_view(p.name), opt_view(p.proxy_type), p.port)
}

pub open spec fn records_view(v: Seq<ProfileRecord>) -> Seq<(Option<Seq<char>>, Option<Seq<char>>, Option<Seq<char>>, Option<u64>)> {
    v.map_values(|p: ProfileRecord| record_view(p))
}

/// Name for reading the text of `profiles.json` with
/// `serde_json::from_str::<Value>`: the parser's error message, `None` when
/// the text is JSON but not an array, or for each element its string `id`,
/// `name` and `proxyType` and its unsigned `port`, each absent when missing or
/// of another kind.
pub uninterp spec fn spec_saved_profiles(text: Seq<char>) -> Result<
    Option<Seq<(Option<Seq<char>>, Option<Seq<char>>, Option<Seq<char>>, Option<u64>)>>,
    Seq<char>,
>;

/// `serde_json::from_str::<Value>` on the text of `profiles.json`, with the
/// settings read here picked from each element of the array
/// (`get(..).and_then(Value::as_str)` / `Value::as_u64`).
#[verifier::external_body]
fn saved_profiles(text: &str) -> (r: Result<Option<Vec<ProfileRecord>>, String>)
    ensures
        match r {
            Ok(Some(v)) => spec_saved_profiles(text@) matches Ok(Some(rs)) && rs == records_view(v@),
            Ok(None) => spec_saved_profiles(text@) matches Ok(None),
            Err(e) => spec_saved_profiles(text@) matches Err(m) && m == e@,
        },
{
    match serde_json::from_str::<serde_json::Value>(text) {
        Err(e) => Err(e.to_string()),
        Ok(v) => Ok(v.as_array().map(|a| a.iter().map(|p| ProfileRecord {
            id: p.get("id").and_then(serde_json::Value::as_str).map(str::to_string),
            name: p.get("name").and_then(serde_json::Value::as_str).map(str::to_string),
            proxy_type: p.get("proxyType").and_then(serde_json::Value::as_str).map(str::to_string),
            port: p.get("port").and_then(serde_json::Value::as_u64),
        }).collect())),
    }
}

/// The saved profiles in the text of `profiles.json`; none when the text is
/// not JSON or not an array.
pub fn profiles_or_empty(text: &str) -> (r: Vec<ProfileRecord>)
    ensures
        match spec_saved_profiles(text@) {
            Ok(Some(rs)) => records_view(r@) == rs,
            _ => r@.len() == 0,
        },
{
    match saved_profiles(text) {
        Ok(Some(v)) => v,
        _ => Vec::new(),
    }
}

/// The proxy port of the profile to connect, read from the text of
/// `profiles.json`: the parser's error, an error when the text is not an
/// array, else as `connect_port` over the saved profiles.
pub fn connect_port_from_text(text: &str, profile_id: &str) -> (r: Result<u16, String>)
    ensures
        match spec_saved_profiles(text@) {
            Err(e) => r matches Err(m) && m@ == "Failed to parse profiles: "@ + e,
            Ok(None) => r matches Err(m) && m@ == "Invalid profiles format"@,
            Ok(Some(rs)) => exists|records: Seq<ProfileRecord>|
                records_view(records) == rs && #[trigger] connect_port_is(records, profile_id@, r),
        },
{
    match saved_profiles(text) {
        Err(e) => {
            let mut out: Vec<char> = Vec::new();
            push_str(&mut out, "Failed to parse profiles: ");
            push_str(&mut out, e.as_str());
            Err(string_from_chars(&out))
        },
        Ok(None) => Err("Invalid profiles format".to_owned()),
        Ok(Some(records)) => {
            let r = connect_port(&records, profile_id);
            assert(connect_port_is(records@, profile_id@, r));
            r
        },
    }
}

/// Name for parsing `text` with `serde_json::from_str::<Value>`, setting the
/// field `key` of the element `index` of the array to the string `value`
/// (`v[index][key] = Value::from(value)`), and writing it back compactly
/// (`Value`'s `Display`, as `serde_json::to_string`).
pub uninterp spec fn spec_with_string_field(text: Seq<char>, index: usize, key: Seq<char>, value: Seq<char>) -> Seq<char>;

/// Sets the field `key` of the element `index` of the JSON array `text` to the
/// string `value` and gives the new text. The element has an `id` string, so
/// it is an object and the assignment cannot panic.
#[verifier::external_body]
fn with_string_field(text: &str, index: usize, key: &str, value: &str) -> (r: String)
    requires
        spec_saved_profiles(text@) matches Ok(Some(rs)) && index < rs.len() && rs[index as int].0 is Some,
    ensures
        r@ == spec_with_string_field(text@, index, key@, value@),
{
    let mut v: serde_json::Value = serde_json::from_str(text).unwrap();
    v[index][key] = serde_json::Value::from(value);
    v.to_string()
}

/// The text of `profiles.json` with the first profile of the given id marked
/// as last connected at `stamp`: the parser's error; `None` when the text is
/// not an array or no profile has the id (nothing to write).
pub fn mark_last_connected(text: &str, profile_id: &str, stamp: &str) -> (r: Result<Option<String>, String>)
    ensures
        match spec_saved_profiles(text@) {
            Err(e) => r matches Err(m) && m@ == "Failed to parse profiles: "@ + e,
            Ok(None) => r matches Ok(None),
            Ok(Some(rs)) => exists|records: Seq<ProfileRecord>|
                #[trigger] records_view(records) == rs && (no_profile(records, profile_id@) ==> r matches Ok(None))
                    && forall|i: int|
                    is_first_profile(records, profile_id@, i) ==> (r matches Ok(Some(t)) && t@
                        == spec_with_string_field(text@, i as usize, "lastConnectedAt"@, stamp@)),
        },
{
    match saved_profiles(text) {
        Err(e) => {
            let mut out: Vec<char> = Vec::new();
            push_str(&mut out, "Failed to parse profiles: ");
            push_str(&mut out, e.as_str());
            Err(string_from_chars(&out))
        },
        Ok(None) => Ok(None),
        Ok(Some(records)) => {
            let ghost rs = records_view(records@);
            match find_profile(&records, profile_id) {
                None => Ok(None),
                Some(i) => {
                    assert(rs[i as int] == record_view(records@[i as int]));
                    let t = with_string_field(text, i, "lastConnectedAt", stamp);
                    proof {
                        assert forall|j: int| is_first_profile(records@, profile_id@, j) implies j == i by {
                            if j < i {
                                assert(!has_id(records@[j], profile_id@));
                            }
                            if j > i {
                                assert(!has_id(records@[i as int], profile_id@));
                            }
                        }
                    }
                    Ok(Some(t))
                },
            }
        },
    }
}

} // verus!
