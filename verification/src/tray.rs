//! The texts and switches of the tray menu.

use vstd::prelude::*;
use crate::profiles::ProfileInfo;
use crate::text::{chars_of, contains, decimal, push_decimal, push_str, str_contains, string_from_chars};

verus! {

/// The status line of the tray menu for a status word.
pub open spec fn tray_status_text(status: Seq<char>) -> Seq<char> {
    if contains(status, "Connected"@) {
        "🟢 Connected"@
    } else if contains(status, "Error"@) {
        "🟡 Error"@
    } else {
        "🔴 Disconnected"@
    }
}

/// The address of a local proxy, such as `socks5://127.0.0.1:1080`.
pub open spec fn proxy_address(proxy_type: Seq<char>, port: u16) -> Seq<char> {
    proxy_type + "://127.0.0.1:"@ + decimal(port as nat)
}

pub open spec fn profile_line(profile: Option<ProfileInfo>) -> Seq<char> {
    "Current Profile: "@ + match profile {
        Some(p) => p.name@,
        None => "None"@,
    }
}

pub open spec fn proxy_line(profile: Option<ProfileInfo>) -> Seq<char> {
    "Proxy: "@ + match profile {
        Some(p) => proxy_address(p.proxy_type@, p.port),
        None => "None"@,
    }
}

/// The variable part of the tray menu.
#[derive(Debug)]
pub struct TrayMenu {
    pub status_label: String,
    pub profile_label: String,
    pub proxy_label: String,
    pub connect_enabled: bool,
    pub disconnect_enabled: bool,
}

/// The tray menu for a status word ("Connected", "Error", "Disconnected")
/// and the profile shown, if any: connecting is offered exactly when the
/// status is not a connected one, disconnecting exactly when it is.
pub fn tray_menu(status: &str, profile: &Option<ProfileInfo>) -> (m: TrayMenu)
    ensures
        m.status_label@ == tray_status_text(status@),
        m.disconnect_enabled == contains(status@, "Connected"@),
        m.connect_enabled == !m.disconnect_enabled,
        m.profile_label@ == profile_line(*profile),
        m.proxy_label@ == proxy_line(*profile),
{
    let s = chars_of(status);
    let connected = str_contains(&s, "Connected");
    let label = if connected {
        "🟢 Connected"
    } else if str_contains(&s, "Error") {
        "🟡 Error"
    } else {
        "🔴 Disconnected"
    };
    let mut p: Vec<char> = Vec::new();
    push_str(&mut p, "Current Profile: ");
    let mut x: Vec<char> = Vec::new();
    push_str(&mut x, "Proxy: ");
    match profile {
        Some(info) => {
            push_str(&mut p, info.name.as_str());
            push_str(&mut x, info.proxy_type.as_str());
            push_str(&mut x, "://127.0.0.1:");
            push_decimal(&mut x, info.port as u64);
        },
        None => {
            push_str(&mut p, "None");
            push_str(&mut x, "None");
        },
    }
    assert(p@ =~= profile_line(*profile));
    assert(x@ =~= proxy_line(*profile));
    TrayMenu {
        status_label: label.to_owned(),
        profile_label: string_from_chars(&p),
        proxy_label: string_from_chars(&x),
        connect_enabled: !connected,
        disconnect_enabled: connected,
    }
}

/// The profile the tray shows: the running one, else the selected one.
pub fn tray_profile_id(running: Option<String>, selected: Option<String>) -> (r: Option<String>)
    ensures
        r == (if running is Some {
            running
        } else {
            selected
        }),
{
    match running {
        Some(id) => Some(id),
        None => selected,
    }
}

/// The status word for the tray after the selection changed: connected
/// exactly when some profile runs.
pub fn running_status(any_running: bool) -> (r: &'static str)
    ensures
        r@ == (if any_running {
            "Connected"@
        } else {
            "Disconnected"@
        }),
{
    if any_running {
        "Connected"
    } else {
        "Disconnected"
    }
}

} // verus!
