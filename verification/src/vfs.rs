//! The records that the file system hands out.
use vstd::prelude::*;
use crate::clock::{chrono_can_hold, date_time, date_time_text, in_chrono_range};

verus! {

/// An instant: whole seconds since the Unix epoch (negative before it) and
/// the nanoseconds after that second.
#[derive(Clone, Copy, PartialEq, Eq, Structural, Debug)]
pub struct Timestamp {
    pub secs: i64,
    pub nanos: u32,
}

impl Timestamp {
    /// The nanoseconds are below one second.
    pub open spec fn wf(self) -> bool {
        self.nanos < 1_000_000_000
    }

    /// The Unix epoch.
    pub fn epoch() -> (t: Timestamp)
        ensures
            t.secs == 0 && t.nanos == 0,
    {
        Timestamp { secs: 0, nanos: 0 }
    }
}

/// File permissions (simplified).
#[derive(Clone, Copy, PartialEq, Eq, Structural, Debug)]
pub struct FilePermissions {
    pub readable: bool,
    pub writable: bool,
    pub executable: bool,
}

/// File metadata.
#[derive(Debug)]
pub struct FileMetadata {
    pub name: String,
    pub path: String,
    pub is_dir: bool,
    pub size: u64,
    pub modified: Timestamp,
    pub created: Option<Timestamp>,
    pub accessed: Option<Timestamp>,
    pub permissions: Option<FilePermissions>,
}

/// Directory entry.
#[derive(Debug)]
pub struct FileEntry {
    pub name: String,
    pub path: String,
    pub is_dir: bool,
    pub size: u64,
    pub modified: Timestamp,
    pub created: Option<Timestamp>,
}

/// Directory statistics.
#[derive(Clone, Copy, PartialEq, Eq, Structural, Debug)]
pub struct DirStats {
    pub total_files: u64,
    pub total_dirs: u64,
    pub total_size: u64,
}

/// Search result.
#[derive(Debug)]
pub struct SearchResult {
    pub path: String,
    pub name: String,
    pub is_dir: bool,
    pub size: u64,
    pub modified: Timestamp,
}

/// The permissions reported for a file: always readable, writable unless
/// read-only, never executable.
pub fn permissions_from(readonly: bool) -> (p: FilePermissions)
    ensures
        p.readable,
        p.writable == !readonly,
        !p.executable,
{
    FilePermissions { readable: true, writable: !readonly, executable: false }
}

impl DirStats {
    /// No files, no directories, no bytes.
    pub fn empty() -> (s: DirStats)
        ensures
            s.total_files == 0 && s.total_dirs == 0 && s.total_size == 0,
    {
        DirStats { total_files: 0, total_dirs: 0, total_size: 0 }
    }

    /// Counts one more directory.
    pub fn count_dir(&mut self)
        requires
            old(self).total_dirs < u64::MAX,
        ensures
            final(self).total_dirs == old(self).total_dirs + 1,
            final(self).total_files == old(self).total_files,
            final(self).total_size == old(self).total_size,
    {
        self.total_dirs = self.total_dirs + 1;
    }

    /// Counts one more file of `len` bytes.
    pub fn count_file(&mut self, len: u64)
        requires
            old(self).total_files < u64::MAX,
            old(self).total_size + len <= u64::MAX,
        ensures
            final(self).total_files == old(self).total_files + 1,
            final(self).total_size == old(self).total_size + len,
            final(self).total_dirs == old(self).total_dirs,
    {
        self.total_files = self.total_files + 1;
        self.total_size = self.total_size + len;
    }
}

/// Counting an entry keeps every total within `u64`.
pub open spec fn can_count(s: DirStats, is_dir: bool, len: u64) -> bool {
    if is_dir {
        s.total_dirs < u64::MAX
    } else {
        s.total_files < u64::MAX && s.total_size + len <= u64::MAX
    }
}

impl DirStats {
    /// Whether counting an entry keeps every total within `u64`.
    pub fn fits(&self, is_dir: bool, len: u64) -> (b: bool)
        ensures
            b == can_count(*self, is_dir, len),
    {
        if is_dir {
            self.total_dirs < u64::MAX
        } else {
            self.total_files < u64::MAX && len <= u64::MAX - self.total_size
        }
    }

    /// Counts one entry found while adding up a directory: a directory is
    /// counted and walked into; a file is counted with its length.
    pub fn count_entry(&mut self, is_dir: bool, len: u64) -> (descend: bool)
        requires
            can_count(*old(self), is_dir, len),
        ensures
            descend == is_dir,
            is_dir ==> final(self).total_dirs == old(self).total_dirs + 1 && final(self).total_files
                == old(self).total_files && final(self).total_size == old(self).total_size,
            !is_dir ==> final(self).total_files == old(self).total_files + 1
                && final(self).total_size == old(self).total_size + len
                && final(self).total_dirs == old(self).total_dirs,
    {
        if is_dir {
            self.count_dir();
        } else {
            self.count_file(len);
        }
        is_dir
    }
}

/// The instant that the date-time text of `t` is written for: the epoch for
/// instants before it or beyond what `chrono` holds, `t` otherwise.
pub open spec fn shown_instant(t: Timestamp) -> (i64, u32) {
    if t.secs < 0 || !in_chrono_range(t.secs) {
        (0, 0)
    } else {
        (t.secs, t.nanos)
    }
}

/// `t` written as `yyyy-MM-ddTHH:mm:ssZ` (UTC); instants before the epoch or
/// beyond what `chrono` holds are written as the epoch.
pub fn format_time(t: Timestamp) -> (s: String)
    requires
        t.wf(),
    ensures
        s@ == date_time_text(shown_instant(t).0, shown_instant(t).1),
{
    if t.secs < 0 || !chrono_can_hold(t.secs) {
        date_time(0, 0)
    } else {
        date_time(t.secs, t.nanos)
    }
}

/// `format_time` of the instant, if there is one.
pub fn format_optional_time(t: Option<Timestamp>) -> (s: Option<String>)
    requires
        t matches Some(u) ==> u.wf(),
    ensures
        match t {
            Some(u) => s matches Some(v) && v@ == date_time_text(
                shown_instant(u).0,
                shown_instant(u).1,
            ),
            None => s is None,
        },
{
    match t {
        Some(u) => Some(format_time(u)),
        None => None,
    }
}

} // verus!
