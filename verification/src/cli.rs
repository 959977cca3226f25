//! How a mount is set up.

use vstd::prelude::*;

verus! {

/// The settings of a mount. Paths that are handed to the operating system are bytes; the
/// mountpoint is held as it is shown.
#[derive(Clone, Debug, PartialEq, Eq)]
pub struct Cli {
    pub mountpoint: String,
    pub nats_url: String,
    pub nats_creds_file: Option<String>,
    pub mount_name: String,
    pub cache_dir: Option<Vec<u8>>,
    pub timeout_ms: u64,
    pub duplicate_window_ms: u64,
    pub queue_capacity: usize,
    pub foreground: bool,
}

impl Cli {
    /// How long the storage may take, in milliseconds.
    pub fn timeout(&self) -> (millis: u64)
        ensures
            millis == self.timeout_ms,
    {
        self.timeout_ms
    }

    /// How long a stream knows a message again, in milliseconds.
    pub fn stream_duplicate_window(&self) -> (millis: u64)
        ensures
            millis == self.duplicate_window_ms,
    {
        self.duplicate_window_ms
    }
}

} // verus!
