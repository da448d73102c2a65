//! Server configuration.
use vstd::prelude::*;
use crate::paths::{join_path};
use crate::text::{chars_of, decimal, push_char, push_decimal, push_str, string_from_chars};

verus! {

/// Server configuration: the data directory, the host, and the two ports.
#[derive(Debug)]
pub struct Config {
    /// Data directory to serve (default: ./file_dock_data)
    pub data_dir: Option<String>,
    /// Server host
    pub host: String,
    /// Web UI port
    pub port: u16,
    /// WebDAV port (separate from web UI)
    pub webdav_port: u16,
}

/// `host:port`.
pub open spec fn bind_address(host: Seq<char>, port: u16) -> Seq<char> {
    host + seq![':'] + decimal(port as nat)
}

fn host_and_port(host: &str, port: u16) -> (s: String)
    ensures
        s@ == bind_address(host@, port),
{
    let mut s = String::new();
    push_str(&mut s, host);
    push_char(&mut s, ':');
    push_decimal(&mut s, port as u64);
    s
}

/// The name of the data directory made when none is given.
pub open spec fn default_dir_name() -> Seq<char> {
    "file_dock_data"@
}

impl Config {
    /// Where the web UI listens.
    pub fn web_bind_address(&self) -> (s: String)
        ensures
            s@ == bind_address(self.host@, self.port),
    {
        host_and_port(self.host.as_str(), self.port)
    }

    /// Where the WebDAV server listens.
    pub fn webdav_bind_address(&self) -> (s: String)
        ensures
            s@ == bind_address(self.host@, self.webdav_port),
    {
        host_and_port(self.host.as_str(), self.webdav_port)
    }

    /// The data directory to use: the configured one, else `file_dock_data`
    /// under `current_dir` (the working directory, `.` when it is unknown).
    pub fn data_dir_in(&self, current_dir: &str) -> (d: String)
        ensures
            match self.data_dir {
                Some(dir) => d@ == dir@,
                None => d@ == join_path(current_dir@, default_dir_name()),
            },
    {
        match &self.data_dir {
            Some(dir) => dir.clone(),
            None => {
                let base = chars_of(current_dir);
                let name = chars_of("file_dock_data");
                string_from_chars(&crate::paths::join_chars(&base, &name))
            },
        }
    }
}

} // verus!
