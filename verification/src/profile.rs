//! The write-only profile sink a finished task is assembled into.

use vstd::prelude::*;

verus! {

/// One thread of the assembled profile.
#[derive(Clone, Copy, PartialEq, Eq, Debug)]
pub struct ProfileThread {
    pub thread_act: u64,
    pub is_main: bool,
    pub start_time: u64,
    pub end_time: Option<u64>,
    pub last_sample: Option<u64>,
}

/// One library of the assembled profile, with its mapped address range
/// `[start_avma, end_avma)`.
#[derive(Debug)]
pub struct LibEntry {
    pub name: String,
    pub path: String,
    pub uuid: u128,
    pub arch: String,
    pub start_avma: u64,
    pub end_avma: u64,
}

/// A profile under assembly: identification, the threads and libraries
/// added so far, the total duration once known, and nested profiles of
/// subprocesses.
#[derive(Debug)]
pub struct ProfileBuilder {
    pub start_time: u64,
    pub name: String,
    pub pid: u32,
    pub interval: u64,
    pub threads: Vec<ProfileThread>,
    pub end_time: Option<u64>,
    pub libs: Vec<LibEntry>,
    pub subprocesses: Vec<ProfileBuilder>,
}

impl ProfileBuilder {
    /// An empty profile with the given identification.
    pub fn new(start_time: u64, name: String, pid: u32, interval: u64) -> (r: Self)
        ensures
            r.start_time == start_time,
            r.name == name,
            r.pid == pid,
            r.interval == interval,
            r.threads@ == Seq::<ProfileThread>::empty(),
            r.end_time is None,
            r.libs@ == Seq::<LibEntry>::empty(),
            r.subprocesses@ == Seq::<ProfileBuilder>::empty(),
    {
        ProfileBuilder {
            start_time,
            name,
            pid,
            interval,
            threads: Vec::new(),
            end_time: None,
            libs: Vec::new(),
            subprocesses: Vec::new(),
        }
    }

    /// Appends one thread.
    pub fn add_thread(&mut self, t: ProfileThread)
        ensures
            *final(self) == (ProfileBuilder { threads: final (self).threads, ..*old(self) }),
            final(self).threads@ == old(self).threads@.push(t),
    {
        self.threads.push(t);
    }

    /// Records the profile's total duration.
    pub fn set_end_time(&mut self, duration: u64)
        ensures
            *final(self) == (ProfileBuilder { end_time: Some(duration), ..*old(self) }),
    {
        self.end_time = Some(duration);
    }

    /// Appends one library with its address range.
    pub fn add_lib(&mut self, entry: LibEntry)
        ensures
            *final(self) == (ProfileBuilder { libs: final (self).libs, ..*old(self) }),
            final(self).libs@ == old(self).libs@.push(entry),
    {
        self.libs.push(entry);
    }

    /// Attaches the profile of a subprocess.
    pub fn add_subprocess(&mut self, child: ProfileBuilder)
        ensures
            *final(self) == (ProfileBuilder { subprocesses: final (self).subprocesses, ..*old(self) }),
            final(self).subprocesses@ == old(self).subprocesses@.push(child),
    {
        self.subprocesses.push(child);
    }
}

} // verus!
