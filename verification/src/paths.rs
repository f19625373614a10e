//! The monitor's well-known per-user paths, derived from the home
//! directory.  The caller looks the home directory up and does the file
//! I/O; these functions only spell the paths.

use vstd::prelude::*;

use crate::strutil::str_append;

verus! {

/// The configuration directory under a home directory.
pub fn get_config_dir(home: &str) -> (r: String)
    ensures
        r@ == home@ + "/.eocc"@,
{
    str_append(home, "/.eocc")
}

/// The directory the hook script writes its event log into.
pub fn get_log_dir(home: &str) -> (r: String)
    ensures
        r@ == home@ + "/.eocc"@ + "/logs"@,
{
    let dir = get_config_dir(home);
    str_append(dir.as_str(), "/logs")
}

/// The event log file the drain pipeline rotates and consumes.
pub fn get_events_file(home: &str) -> (r: String)
    ensures
        r@ == home@ + "/.eocc"@ + "/logs"@ + "/events.jsonl"@,
{
    let dir = get_log_dir(home);
    str_append(dir.as_str(), "/events.jsonl")
}

/// The settings file of the monitor.
pub fn get_settings_file(home: &str) -> (r: String)
    ensures
        r@ == home@ + "/.eocc"@ + "/settings.json"@,
{
    let dir = get_config_dir(home);
    str_append(dir.as_str(), "/settings.json")
}

} // verus!
