//! The service's own settings, passed explicitly into every component.
use vstd::prelude::*;

verus! {

/// Where per-event databases live, and under which path events are mounted
/// on the broker. The transport's connection settings stay outside the core.
#[derive(Debug, Clone)]
pub struct Config {
    pub data_dir: String,
    pub events_mount_point: String,
}

impl Default for Config {
    /// The defaults the service starts with when no file overrides them.
    fn default() -> (c: Config)
        ensures
            c.data_dir@ == "/tmp/qxeventd"@,
            c.events_mount_point@ == "test/qx/event"@,
    {
        Config {
            data_dir: <String as vstd::string::StringExecFns>::from_str("/tmp/qxeventd"),
            events_mount_point: <String as vstd::string::StringExecFns>::from_str("test/qx/event"),
        }
    }
}

} // verus!
