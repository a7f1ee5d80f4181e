//! The user's application settings and what they switch.

use vstd::prelude::*;
use crate::logs::{LogBook, LogLine};

verus! {

/// The application settings: the wireproxy binary to run (blank for the
/// bundled one), whether the dock icon is hidden and whether logging is off.
/// The two switches may be absent from a saved file.
#[derive(Clone, Debug)]
pub struct AppSettings {
    wireproxy_binary_path: String,
    hide_dock_icon: Option<bool>,
    disable_logs: Option<bool>,
}

/// The content of the settings.
pub struct SettingsView {
    pub wireproxy_binary_path: Seq<char>,
    pub hide_dock_icon: Option<bool>,
    pub disable_logs: Option<bool>,
}

impl View for AppSettings {
    type V = SettingsView;

    closed spec fn view(&self) -> SettingsView {
        SettingsView {
            wireproxy_binary_path: self.wireproxy_binary_path@,
            hide_dock_icon: self.hide_dock_icon,
            disable_logs: self.disable_logs,
        }
    }
}

/// A switch that is absent counts as off.
pub open spec fn switched_on(s: Option<bool>) -> bool {
    s == Some(true)
}

impl AppSettings {
    pub fn new(wireproxy_binary_path: String, hide_dock_icon: Option<bool>, disable_logs: Option<bool>) -> (r: Self)
        ensures
            r@ == (SettingsView { wireproxy_binary_path: wireproxy_binary_path@, hide_dock_icon, disable_logs }),
    {
        AppSettings { wireproxy_binary_path, hide_dock_icon, disable_logs }
    }

    /// The settings used when none were saved: the bundled binary, the dock
    /// icon shown, logging on.
    pub fn default_settings() -> (r: Self)
        ensures
            r@ == (SettingsView {
                wireproxy_binary_path: Seq::empty(),
                hide_dock_icon: Some(false),
                disable_logs: Some(false),
            }),
    {
        AppSettings { wireproxy_binary_path: String::new(), hide_dock_icon: Some(false), disable_logs: Some(false) }
    }

    pub fn wireproxy_binary_path(&self) -> (r: &str)
        ensures
            r@ == self@.wireproxy_binary_path,
    {
        self.wireproxy_binary_path.as_str()
    }

    pub fn hide_dock_icon(&self) -> (r: Option<bool>)
        ensures
            r == self@.hide_dock_icon,
    {
        self.hide_dock_icon
    }

    pub fn disable_logs(&self) -> (r: Option<bool>)
        ensures
            r == self@.disable_logs,
    {
        self.disable_logs
    }

    /// Whether the dock icon is hidden (absent means shown).
    pub fn dock_hidden(&self) -> (r: bool)
        ensures
            r == switched_on(self@.hide_dock_icon),
    {
        match self.hide_dock_icon {
            Some(b) => b,
            None => false,
        }
    }

    /// Whether logging is off (absent means on).
    pub fn logs_disabled(&self) -> (r: bool)
        ensures
            r == switched_on(self@.disable_logs),
    {
        match self.disable_logs {
            Some(b) => b,
            None => false,
        }
    }

    /// A copy of the settings.
    pub fn duplicate(&self) -> (r: Self)
        ensures
            r@ == self@,
    {
        AppSettings {
            wireproxy_binary_path: self.wireproxy_binary_path.clone(),
            hide_dock_icon: self.hide_dock_icon,
            disable_logs: self.disable_logs,
        }
    }
}

/// Applies saved settings to the logs: returns whether logging is now off,
/// and when it is, every profile's log is emptied. Worker counts stay.
pub fn apply_log_setting(book: &mut LogBook, settings: &AppSettings) -> (disabled: bool)
    ensures
        disabled == switched_on(settings@.disable_logs),
        disabled ==> forall|id: Seq<char>| #[trigger] final(book).log_of(id) == Seq::<LogLine>::empty(),
        !disabled ==> forall|id: Seq<char>| #[trigger] final(book).log_of(id) == old(book).log_of(id),
        forall|id: Seq<char>| #[trigger] final(book).counts_of(id) == old(book).counts_of(id),
{
    let disabled = settings.logs_disabled();
    if disabled {
        book.clear_all_logs();
    }
    disabled
}

} // verus!
