//! Decisions around the wireproxy child process: the checks made before it
//! is started, the status reported for it, and the messages written when it
//! exits on its own.

use vstd::prelude::*;
use crate::text::{
    chars_of, push_signed_decimal, push_str, signed_decimal, span_string, string_from_chars, trim,
    trim_span,
};

verus! {

/// Whether a wireproxy binary path was configured (it is not blank).
pub fn binary_path_given(binary_path: &str) -> (r: bool)
    ensures
        r == (trim(binary_path@).len() > 0),
{
    let v = chars_of(binary_path);
    let (a, b) = trim_span(&v, 0, v.len());
    assert(v@.subrange(0, v@.len() as int) =~= v@);
    a < b
}

/// The local proxy port must not be a privileged one.
pub fn check_port(port: u16) -> (r: Result<(), String>)
    ensures
        r is Ok <==> port >= 1024,
        r matches Err(e) ==> e@ == "Port must be between 1024 and 65535"@,
{
    if port < 1024 {
        Err("Port must be between 1024 and 65535".to_owned())
    } else {
        Ok(())
    }
}

/// Why a start is refused before the process table is looked at, checking in
/// order: the binary must exist, then the generated configuration, then the
/// port must not be a privileged one.
pub open spec fn precheck_text(binary: Seq<char>, binary_found: bool, config: Seq<char>, config_found: bool, port: u16) -> Option<Seq<char>> {
    if !binary_found {
        Some("WireProxy binary not found at: "@ + binary)
    } else if !config_found {
        Some("Configuration file not found at: "@ + config)
    } else if port < 1024 {
        Some("Port must be between 1024 and 65535"@)
    } else {
        None
    }
}

/// The error that refuses a start, given where the binary and the
/// configuration were looked for, whether each was found as a file, and the
/// port; `None` when the start may go on.
pub fn start_precheck(binary: &str, binary_found: bool, config: &str, config_found: bool, port: u16) -> (r: Option<String>)
    ensures
        match precheck_text(binary@, binary_found, config@, config_found, port) {
            Some(t) => r matches Some(m) && m@ == t,
            None => r is None,
        },
{
    let mut out: Vec<char> = Vec::new();
    if !binary_found {
        push_str(&mut out, "WireProxy binary not found at: ");
        push_str(&mut out, binary);
        Some(string_from_chars(&out))
    } else if !config_found {
        push_str(&mut out, "Configuration file not found at: ");
        push_str(&mut out, config);
        Some(string_from_chars(&out))
    } else {
        match check_port(port) {
            Err(e) => Some(e),
            Ok(()) => None,
        }
    }
}

/// Why a profile may not start while the profiles in `running` run: only one
/// profile runs at a time.
pub open spec fn running_conflict_text(running: Seq<Seq<char>>, id: Seq<char>) -> Option<Seq<char>> {
    if running.len() == 0 {
        None
    } else if running.contains(id) {
        Some("This profile is already running"@)
    } else {
        Some("Another profile is already running. Only one profile can run at a time in V1."@)
    }
}

pub open spec fn ids_of(v: Seq<String>) -> Seq<Seq<char>> {
    v.map_values(|s: String| s@)
}

/// The error that refuses to start `profile_id` while the profiles in
/// `running` (those still alive) run, if any.
pub fn running_conflict(running: &Vec<String>, profile_id: &String) -> (r: Option<String>)
    ensures
        match running_conflict_text(ids_of(running@), profile_id@) {
            Some(t) => r matches Some(s) && s@ == t,
            None => r is None,
        },
{
    if running.len() == 0 {
        return None;
    }
    let ghost ids = ids_of(running@);
    let mut i: usize = 0;
    while i < running.len()
        invariant
            i <= running@.len(),
            ids == ids_of(running@),
            forall|j: int| 0 <= j < i ==> ids[j] != profile_id@,
        decreases running@.len() - i,
    {
        if running[i] == *profile_id {
            assert(ids[i as int] == profile_id@);
            return Some("This profile is already running".to_owned());
        }
        i = i + 1;
    }
    assert(!ids.contains(profile_id@));
    Some("Another profile is already running. Only one profile can run at a time in V1.".to_owned())
}

/// What is known of a child process when its status is asked.
#[derive(Clone, Copy, Debug, PartialEq, Eq)]
pub enum ProcessState {
    /// It has not exited.
    Running,
    /// It has exited; `true` when it exited successfully.
    Exited(bool),
    /// Its status could not be read.
    CheckFailed,
}

pub open spec fn status_label(state: Option<ProcessState>) -> Seq<char> {
    match state {
        None => "stopped"@,
        Some(ProcessState::Running) => "running"@,
        Some(ProcessState::Exited(true)) => "stopped"@,
        Some(ProcessState::Exited(false)) => "error"@,
        Some(ProcessState::CheckFailed) => "error"@,
    }
}

/// The status of a profile given the state of its process (`None` when no
/// process was started for it).
pub fn profile_status_label(state: Option<ProcessState>) -> (r: &'static str)
    ensures
        r@ == status_label(state),
{
    match state {
        None => "stopped",
        Some(ProcessState::Running) => "running",
        Some(ProcessState::Exited(ok)) => if ok {
            "stopped"
        } else {
            "error"
        },
        Some(ProcessState::CheckFailed) => "error",
    }
}

/// An exit code as text; `unknown` when the process had none.
pub open spec fn exit_code_text(code: Option<i32>) -> Seq<char> {
    match code {
        Some(c) => signed_decimal(c as int),
        None => "unknown"@,
    }
}

/// The log message for a process that exited on its own.
pub open spec fn unexpected_exit_text(code: Option<i32>) -> Seq<char> {
    "WireProxy exited unexpectedly (exit code: "@ + exit_code_text(code) + ")"@
}

/// The log message for a process that exited on its own with `code`.
pub fn unexpected_exit_message(code: Option<i32>) -> (r: String)
    ensures
        r@ == unexpected_exit_text(code),
{
    let mut out: Vec<char> = Vec::new();
    push_str(&mut out, "WireProxy exited unexpectedly (exit code: ");
    match code {
        Some(c) => push_signed_decimal(&mut out, c as i64),
        None => push_str(&mut out, "unknown"),
    }
    push_str(&mut out, ")");
    assert(out@ =~= unexpected_exit_text(code));
    string_from_chars(&out)
}

/// The error of a start whose process exited at once: what it wrote on
/// stderr (trimmed), or its exit status when it wrote nothing.
pub open spec fn early_exit_text(stderr_content: Seq<char>, status: Seq<char>) -> Seq<char> {
    if trim(stderr_content).len() == 0 {
        "WireProxy exited immediately with status: "@ + status
    } else {
        "WireProxy failed to start: "@ + trim(stderr_content)
    }
}

/// The error of a start whose process exited at once, given what it wrote on
/// stderr and its exit status as text.
pub fn early_exit_error(stderr_content: &str, status: &str) -> (r: String)
    ensures
        r@ == early_exit_text(stderr_content@, status@),
{
    let v = chars_of(stderr_content);
    let (a, b) = trim_span(&v, 0, v.len());
    assert(v@.subrange(0, v@.len() as int) =~= v@);
    let mut out: Vec<char> = Vec::new();
    if a == b {
        push_str(&mut out, "WireProxy exited immediately with status: ");
        push_str(&mut out, status);
    } else {
        push_str(&mut out, "WireProxy failed to start: ");
        let t = span_string(&v, a, b);
        push_str(&mut out, t.as_str());
    }
    assert(out@ =~= early_exit_text(stderr_content@, status@));
    string_from_chars(&out)
}

} // verus!
