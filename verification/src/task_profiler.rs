//! Tracking a profiled task over time: the lifecycle of its threads,
//! the modules it loads, and the hand-off of the accumulated state into
//! a profile.
//!
//! The sampler is driven from outside: each tick hands in the module
//! deltas the tracker reported and, per enumerated thread handle, the
//! outcome of the platform's work on that thread. The bookkeeping —
//! which threads are live, which have died, which modules are known —
//! is done here.

use vstd::prelude::*;

use crate::profile::LibEntry;
use crate::profile::ProfileBuilder;
use crate::profile::ProfileThread;
use crate::text::file_name_of;
use crate::text::join_with_spaces;
use crate::text::spec_file_name;
use crate::text::spec_join_spaces;

verus! {

/// The kernel error conditions the sampler distinguishes.
#[derive(Clone, Copy, PartialEq, Eq, Structural, Debug)]
pub enum KernelError {
    InvalidArgument,
    MachSendInvalidDest,
    Terminated,
    Other,
}

/// A loaded module: path, identification, mapped range and whether it
/// is the executable image itself. Identification may be unknown.
#[derive(Debug)]
pub struct DyldInfo {
    pub file: String,
    pub uuid: Option<u128>,
    pub address: u64,
    pub vmsize: u64,
    pub arch: Option<String>,
    pub is_executable: bool,
}

/// A module's mapped range must fit the address space.
pub open spec fn lib_wf(l: DyldInfo) -> bool {
    l.address + l.vmsize <= u64::MAX
}

impl Clone for DyldInfo {
    fn clone(&self) -> (r: Self)
        ensures
            r == *self,
    {
        DyldInfo {
            file: self.file.clone(),
            uuid: self.uuid,
            address: self.address,
            vmsize: self.vmsize,
            arch: match &self.arch {
                Some(a) => Some(a.clone()),
                None => None,
            },
            is_executable: self.is_executable,
        }
    }
}

/// One change the module tracker reports.
#[derive(Debug)]
pub enum Modification {
    Added(DyldInfo),
    Removed(DyldInfo),
}

/// The bookkeeping for one profiled thread.
#[derive(Clone, Copy, PartialEq, Eq, Debug)]
pub struct ThreadProfiler {
    pub thread_act: u64,
    pub is_main: bool,
    pub start_time: u64,
    pub end_time: Option<u64>,
    pub last_sample: Option<u64>,
}

impl ThreadProfiler {
    /// A fresh sampler for one thread handle.
    pub fn new(thread_act: u64, start_time: u64, is_main: bool) -> (r: Self)
        ensures
            r == spec_new_thread(thread_act, start_time, is_main),
    {
        ThreadProfiler { thread_act, is_main, start_time, end_time: None, last_sample: None }
    }

    /// Records that the thread was sampled at `now`.
    pub fn sample(&mut self, now: u64)
        ensures
            *final(self) == spec_sampled_thread(*old(self), now),
    {
        self.last_sample = Some(now);
    }

    /// Records that the thread was seen dead at `now`.
    pub fn notify_dead(&mut self, now: u64)
        ensures
            *final(self) == spec_dead_thread(*old(self), now),
    {
        self.end_time = Some(now);
    }

    /// The thread as it appears in the assembled profile.
    pub fn into_profile_thread(self) -> (r: ProfileThread)
        ensures
            r == spec_profile_thread(self),
    {
        ProfileThread {
            thread_act: self.thread_act,
            is_main: self.is_main,
            start_time: self.start_time,
            end_time: self.end_time,
            last_sample: self.last_sample,
        }
    }
}

/// A fresh thread sampler's state.
pub open spec fn spec_new_thread(thread_act: u64, start_time: u64, is_main: bool) -> ThreadProfiler {
    ThreadProfiler { thread_act, is_main, start_time, end_time: None, last_sample: None }
}

/// A thread sampler after being sampled at `now`.
pub open spec fn spec_sampled_thread(t: ThreadProfiler, now: u64) -> ThreadProfiler {
    ThreadProfiler { last_sample: Some(now), ..t }
}

/// A thread sampler after its thread was seen dead at `now`.
pub open spec fn spec_dead_thread(t: ThreadProfiler, now: u64) -> ThreadProfiler {
    ThreadProfiler { end_time: Some(now), ..t }
}

/// The profile entry a thread sampler turns into.
pub open spec fn spec_profile_thread(t: ThreadProfiler) -> ProfileThread {
    ProfileThread {
        thread_act: t.thread_act,
        is_main: t.is_main,
        start_time: t.start_time,
        end_time: t.end_time,
        last_sample: t.last_sample,
    }
}

/// Whether some tracked thread carries the handle.
pub open spec fn handle_in(threads: Seq<ThreadProfiler>, h: u64) -> bool {
    exists|i: int| 0 <= i < threads.len() && threads[i].thread_act == h
}

/// Whether the tracked threads carry pairwise distinct handles.
pub open spec fn handles_unique(threads: Seq<ThreadProfiler>) -> bool {
    forall|i: int, j: int|
        0 <= i < j < threads.len() ==> threads[i].thread_act != threads[j].thread_act
}

/// The index of the first tracked thread with the handle, at `k` or
/// later, if any.
pub open spec fn spec_find_handle_from(threads: Seq<ThreadProfiler>, h: u64, k: int) -> Option<int>
    decreases threads.len() - k,
{
    if k < 0 || k >= threads.len() {
        None
    } else if threads[k].thread_act == h {
        Some(k)
    } else {
        spec_find_handle_from(threads, h, k + 1)
    }
}

/// The index of the first tracked thread with the handle, if any.
pub open spec fn spec_find_handle(threads: Seq<ThreadProfiler>, h: u64) -> Option<int> {
    spec_find_handle_from(threads, h, 0)
}

/// What a found index means, and what a miss means.
pub proof fn lemma_find_handle_from_props(threads: Seq<ThreadProfiler>, h: u64, k: int)
    requires
        0 <= k,
    ensures
        match spec_find_handle_from(threads, h, k) {
            Some(i) => k <= i < threads.len() && threads[i].thread_act == h,
            None => forall|j: int| k <= j < threads.len() ==> threads[j].thread_act != h,
        },
    decreases threads.len() - k,
{
    if k < threads.len() {
        lemma_find_handle_from_props(threads, h, k + 1);
    }
}

/// The tracked threads after inserting `t`: an existing thread with the
/// same handle is replaced, otherwise `t` is appended.
pub open spec fn spec_upsert(threads: Seq<ThreadProfiler>, t: ThreadProfiler) -> Seq<ThreadProfiler> {
    match spec_find_handle(threads, t.thread_act) {
        Some(i) => threads.update(i, t),
        None => threads.push(t),
    }
}

/// Upserting keeps handles unique and adds at most one handle.
pub proof fn lemma_upsert_props(threads: Seq<ThreadProfiler>, t: ThreadProfiler)
    requires
        handles_unique(threads),
    ensures
        handles_unique(spec_upsert(threads, t)),
        forall|h: u64|
            #[trigger] handle_in(spec_upsert(threads, t), h) ==> handle_in(threads, h) || h
                == t.thread_act,
{
    lemma_find_handle_from_props(threads, t.thread_act, 0);
    let r = spec_upsert(threads, t);
    match spec_find_handle(threads, t.thread_act) {
        Some(i) => {
            assert(forall|x: int| 0 <= x < r.len() ==> r[x].thread_act == threads[x].thread_act);
            assert forall|h: u64| #[trigger] handle_in(r, h) implies handle_in(threads, h) by {
                let j = choose|j: int| 0 <= j < r.len() && r[j].thread_act == h;
                assert(threads[j].thread_act == h);
            }
        },
        None => {
            assert forall|h: u64| #[trigger] handle_in(r, h) implies handle_in(threads, h) || h
                == t.thread_act by {
                let j = choose|j: int| 0 <= j < r.len() && r[j].thread_act == h;
                if j < threads.len() {
                    assert(threads[j].thread_act == h);
                }
            }
        },
    }
}

fn upsert_thread(threads: &mut Vec<ThreadProfiler>, t: ThreadProfiler)
    ensures
        final(threads)@ == spec_upsert(old(threads)@, t),
{
    match find_handle(threads, t.thread_act) {
        Some(i) => {
            proof {
                lemma_find_handle_from_props(threads@, t.thread_act, 0);
            }
            threads[i] = t;
        },
        None => {
            threads.push(t);
        },
    }
}

/// One thread handle of the initial enumeration, and whether a sampler
/// could be set up for it.
#[derive(Clone, Copy, PartialEq, Eq, Debug)]
pub struct ThreadSpawn {
    pub thread_act: u64,
    pub profileable: bool,
}

/// The initial live set: one fresh sampler per profileable handle, the
/// first enumerated handle flagged as the main thread.
pub open spec fn spec_initial_threads_from(
    spawns: Seq<ThreadSpawn>,
    now: u64,
    k: int,
    acc: Seq<ThreadProfiler>,
) -> Seq<ThreadProfiler>
    decreases spawns.len() - k,
{
    if k < 0 || k >= spawns.len() {
        acc
    } else {
        let acc2 = if spawns[k].profileable {
            spec_upsert(acc, spec_new_thread(spawns[k].thread_act, now, k == 0))
        } else {
            acc
        };
        spec_initial_threads_from(spawns, now, k + 1, acc2)
    }
}

proof fn lemma_initial_threads_unique(
    spawns: Seq<ThreadSpawn>,
    now: u64,
    k: int,
    acc: Seq<ThreadProfiler>,
)
    requires
        handles_unique(acc),
        0 <= k,
    ensures
        handles_unique(spec_initial_threads_from(spawns, now, k, acc)),
    decreases spawns.len() - k,
{
    if k < spawns.len() {
        if spawns[k].profileable {
            lemma_upsert_props(acc, spec_new_thread(spawns[k].thread_act, now, k == 0));
            lemma_initial_threads_unique(
                spawns,
                now,
                k + 1,
                spec_upsert(acc, spec_new_thread(spawns[k].thread_act, now, k == 0)),
            );
        } else {
            lemma_initial_threads_unique(spawns, now, k + 1, acc);
        }
    }
}

/// Whether a command line was derived as the adaptor and the stripping
/// rule produce it: absent when the query failed; otherwise the same
/// words with the directory prefix stripped from the first.
pub open spec fn stripped_cmdline_ok(raw: Option<Vec<String>>, out: Option<Vec<String>>) -> bool {
    match raw {
        None => out is None,
        Some(r) => match out {
            Some(o) => o@.len() == r@.len() && (forall|i: int| 1 <= i < r@.len() ==> o@[i] == r@[i])
                && (r@.len() > 0 ==> o@[0]@ == spec_file_name(r@[0]@)),
            None => false,
        },
    }
}

fn find_handle(threads: &Vec<ThreadProfiler>, h: u64) -> (r: Option<usize>)
    ensures
        match r {
            Some(i) => spec_find_handle(threads@, h) == Some(i as int),
            None => spec_find_handle(threads@, h) is None,
        },
{
    let n = threads.len();
    let mut k: usize = 0;
    while k < n
        invariant
            n == threads@.len(),
            0 <= k <= n,
            spec_find_handle(threads@, h) == spec_find_handle_from(threads@, h, k as int),
        decreases n - k,
    {
        if threads[k].thread_act == h {
            return Some(k);
        }
        k = k + 1;
    }
    None
}

/// Whether an added module is well-formed; removals carry no demand.
pub open spec fn delta_wf(m: Modification) -> bool {
    match m {
        Modification::Added(l) => lib_wf(l),
        Modification::Removed(_) => true,
    }
}

/// The known modules and the executable image after applying the
/// tracker's deltas in order: an added module is appended, and becomes
/// the executable image if it is executable and none is known yet;
/// removals are deliberately ignored.
pub open spec fn spec_apply_deltas(
    libs: Seq<DyldInfo>,
    exe: Option<DyldInfo>,
    ds: Seq<Modification>,
) -> (Seq<DyldInfo>, Option<DyldInfo>)
    decreases ds.len(),
{
    if ds.len() == 0 {
        (libs, exe)
    } else {
        match ds[0] {
            Modification::Added(lib) => {
                let exe2 = if exe is None && lib.is_executable {
                    Some(lib)
                } else {
                    exe
                };
                spec_apply_deltas(libs.push(lib), exe2, ds.drop_first())
            },
            Modification::Removed(_) => spec_apply_deltas(libs, exe, ds.drop_first()),
        }
    }
}

proof fn lemma_apply_deltas_wf(libs: Seq<DyldInfo>, exe: Option<DyldInfo>, ds: Seq<Modification>)
    requires
        forall|i: int| 0 <= i < libs.len() ==> lib_wf(#[trigger] libs[i]),
        forall|i: int| 0 <= i < ds.len() ==> delta_wf(#[trigger] ds[i]),
    ensures
        forall|i: int|
            0 <= i < spec_apply_deltas(libs, exe, ds).0.len() ==> lib_wf(
                #[trigger] spec_apply_deltas(libs, exe, ds).0[i],
            ),
    decreases ds.len(),
{
    if ds.len() > 0 {
        assert forall|i: int| 0 <= i < ds.drop_first().len() implies delta_wf(
            #[trigger] ds.drop_first()[i],
        ) by {
            assert(ds.drop_first()[i] == ds[i + 1]);
            assert(delta_wf(ds[i + 1]));
        }
        assert(delta_wf(ds[0]));
        match ds[0] {
            Modification::Added(lib) => {
                let exe2 = if exe is None && lib.is_executable {
                    Some(lib)
                } else {
                    exe
                };
                assert(lib_wf(lib));
                assert(forall|i: int|
                    0 <= i < libs.push(lib).len() ==> lib_wf(#[trigger] libs.push(lib)[i]));
                lemma_apply_deltas_wf(libs.push(lib), exe2, ds.drop_first());
                assert(spec_apply_deltas(libs, exe, ds) == spec_apply_deltas(
                    libs.push(lib),
                    exe2,
                    ds.drop_first(),
                ));
            },
            Modification::Removed(_) => {
                lemma_apply_deltas_wf(libs, exe, ds.drop_first());
                assert(spec_apply_deltas(libs, exe, ds) == spec_apply_deltas(
                    libs,
                    exe,
                    ds.drop_first(),
                ));
            },
        }
    }
}

/// How setting up a sampler for a newly seen thread handle went.
#[derive(Clone, Copy, PartialEq, Eq, Debug)]
pub enum SpawnOutcome {
    Started,
    NotProfileable,
    Failed(KernelError),
}

/// What the platform reported for one enumerated thread handle in one
/// tick: how setting up a sampler went, where the handle is new, and
/// what sampling the thread returned — still alive, exited, or an
/// error.
#[derive(Clone, Copy, PartialEq, Eq, Debug)]
pub struct ThreadTick {
    pub thread_act: u64,
    pub spawn: SpawnOutcome,
    pub sample: Result<bool, KernelError>,
}

/// The live set and the still-alive handles after one enumerated
/// handle is processed: a known handle's sampler records the sample; a
/// new profileable handle gets a sampler (never flagged main) which
/// records it; a thread that reported alive joins the still-alive
/// handles; an error aborts the tick.
pub open spec fn spec_tick_step(
    live: Seq<ThreadProfiler>,
    now_live: Seq<u64>,
    t: ThreadTick,
    now: u64,
    start_time: u64,
) -> (Seq<ThreadProfiler>, Seq<u64>, Option<KernelError>) {
    match spec_find_handle(live, t.thread_act) {
        Some(i) => {
            let live2 = live.update(i, spec_sampled_thread(live[i], now));
            match t.sample {
                Ok(alive) => (
                    live2,
                    if alive {
                        now_live.push(t.thread_act)
                    } else {
                        now_live
                    },
                    None,
                ),
                Err(e) => (live2, now_live, Some(e)),
            }
        },
        None => match t.spawn {
            SpawnOutcome::NotProfileable => (live, now_live, None),
            SpawnOutcome::Failed(e) => (live, now_live, Some(e)),
            SpawnOutcome::Started => {
                let nt = spec_sampled_thread(spec_new_thread(t.thread_act, start_time, false), now);
                let live2 = live.push(nt);
                match t.sample {
                    Ok(alive) => (
                        live2,
                        if alive {
                            now_live.push(t.thread_act)
                        } else {
                            now_live
                        },
                        None,
                    ),
                    Err(e) => (live2, now_live, Some(e)),
                }
            },
        },
    }
}

/// The thread loop of one tick, from enumerated handle `k` on: handles
/// are processed in enumeration order until all are done or one aborts
/// with an error.
pub open spec fn spec_tick_threads(
    live: Seq<ThreadProfiler>,
    now_live: Seq<u64>,
    ticks: Seq<ThreadTick>,
    k: int,
    now: u64,
    start_time: u64,
) -> (Seq<ThreadProfiler>, Seq<u64>, Option<KernelError>)
    decreases ticks.len() - k,
{
    if k < 0 || k >= ticks.len() {
        (live, now_live, None)
    } else {
        let (l2, s2, e) = spec_tick_step(live, now_live, ticks[k], now, start_time);
        if e is Some {
            (l2, s2, e)
        } else {
            spec_tick_threads(l2, s2, ticks, k + 1, now, start_time)
        }
    }
}

/// The handles of the tracked threads, in order.
pub open spec fn handles_of(threads: Seq<ThreadProfiler>) -> Seq<u64> {
    threads.map_values(|t: ThreadProfiler| t.thread_act)
}

/// Splits the live set after a tick: a thread whose handle was live
/// before the tick but did not report alive during it has died; it is
/// marked dead at `now`. All others stay, in order.
pub open spec fn spec_partition_dead(
    live: Seq<ThreadProfiler>,
    prev: Seq<u64>,
    now_live: Seq<u64>,
    now: u64,
) -> (Seq<ThreadProfiler>, Seq<ThreadProfiler>)
    decreases live.len(),
{
    if live.len() == 0 {
        (Seq::empty(), Seq::empty())
    } else {
        let (rl, rd) = spec_partition_dead(live.drop_first(), prev, now_live, now);
        let h = live[0].thread_act;
        if prev.contains(h) && !now_live.contains(h) {
            (rl, seq![spec_dead_thread(live[0], now)] + rd)
        } else {
            (seq![live[0]] + rl, rd)
        }
    }
}

/// How a tick's error reaches the driver: a dead message destination
/// or a terminated task means the process is gone — the tick reports
/// "no longer alive" — and every other error is passed on.
pub open spec fn spec_sample_verdict(e: KernelError) -> Result<bool, KernelError> {
    match e {
        KernelError::MachSendInvalidDest => Ok(false),
        KernelError::Terminated => Ok(false),
        _ => Err(e),
    }
}

/// A thread-enumeration failure with "invalid argument" means the task
/// is gone and counts as termination; other errors stand as they are.
pub open spec fn spec_enum_error(e: KernelError) -> KernelError {
    if e == KernelError::InvalidArgument {
        KernelError::Terminated
    } else {
        e
    }
}

fn sample_verdict(e: KernelError) -> (r: Result<bool, KernelError>)
    ensures
        r == spec_sample_verdict(e),
{
    match e {
        KernelError::MachSendInvalidDest => Ok(false),
        KernelError::Terminated => Ok(false),
        _ => Err(e),
    }
}

fn contains_handle(v: &Vec<u64>, h: u64) -> (r: bool)
    ensures
        r == v@.contains(h),
{
    let n = v.len();
    let mut i: usize = 0;
    while i < n
        invariant
            n == v@.len(),
            0 <= i <= n,
            forall|j: int| 0 <= j < i ==> v@[j] != h,
        decreases n - i,
    {
        if v[i] == h {
            return true;
        }
        i = i + 1;
    }
    false
}

/// How one tick's thread events transform the task state: the fold
/// over the enumerated handles, then — if no error aborted the loop —
/// the move of threads that were live before the tick but did not
/// report alive into the dead list, marked dead at `now`.
pub open spec fn sample_threads_rel(
    pre: TaskProfiler,
    post: TaskProfiler,
    now: u64,
    ticks: Seq<ThreadTick>,
    r: Result<bool, KernelError>,
) -> bool {
    let (live2, now_live, abort) = spec_tick_threads(
        pre.live_threads@,
        Seq::<u64>::empty(),
        ticks,
        0,
        now,
        pre.start_time,
    );
    match abort {
        Some(e) => post.live_threads@ == live2 && post.dead_threads@ == pre.dead_threads@ && r
            == spec_sample_verdict(e),
        None => {
            let (kept, nd) = spec_partition_dead(live2, handles_of(pre.live_threads@), now_live, now);
            post.live_threads@ == kept && post.dead_threads@ == pre.dead_threads@ + nd && r == Ok::<
                bool,
                KernelError,
            >(true)
        },
    }
}

/// One tick step keeps handles unique and introduces at most the
/// stepped handle; live handles are never dropped by a step.
pub proof fn lemma_tick_step_handles(
    live: Seq<ThreadProfiler>,
    now_live: Seq<u64>,
    t: ThreadTick,
    now: u64,
    start_time: u64,
)
    requires
        handles_unique(live),
    ensures
        ({
            let (l2, s2, e) = spec_tick_step(live, now_live, t, now, start_time);
            &&& handles_unique(l2)
            &&& forall|h: u64|
                #[trigger] handle_in(l2, h) ==> handle_in(live, h) || h == t.thread_act
        }),
{
    lemma_find_handle_from_props(live, t.thread_act, 0);
    let (l2, s2, e) = spec_tick_step(live, now_live, t, now, start_time);
    match spec_find_handle(live, t.thread_act) {
        Some(i) => {
            let lu = live.update(i, spec_sampled_thread(live[i], now));
            assert(forall|x: int| 0 <= x < lu.len() ==> lu[x].thread_act == live[x].thread_act);
            assert forall|h: u64| #[trigger] handle_in(lu, h) implies handle_in(live, h) by {
                let j = choose|j: int| 0 <= j < lu.len() && lu[j].thread_act == h;
                assert(live[j].thread_act == h);
            }
        },
        None => {
            match t.spawn {
                SpawnOutcome::Started => {
                    let nt = spec_sampled_thread(
                        spec_new_thread(t.thread_act, start_time, false),
                        now,
                    );
                    let lp = live.push(nt);
                    assert(forall|x: int| 0 <= x < live.len() ==> lp[x] == live[x]);
                    assert(lp[live.len() as int].thread_act == t.thread_act);
                    assert forall|h: u64| #[trigger] handle_in(lp, h) implies handle_in(live, h)
                        || h == t.thread_act by {
                        let j = choose|j: int| 0 <= j < lp.len() && lp[j].thread_act == h;
                        if j < live.len() {
                            assert(live[j].thread_act == h);
                        }
                    }
                },
                _ => {},
            }
        },
    }
}

/// The whole thread loop keeps handles unique, and every handle of the
/// resulting live set was live before or was enumerated in the tick.
pub proof fn lemma_tick_threads_handles(
    live: Seq<ThreadProfiler>,
    now_live: Seq<u64>,
    ticks: Seq<ThreadTick>,
    k: int,
    now: u64,
    start_time: u64,
)
    requires
        handles_unique(live),
        0 <= k,
    ensures
        ({
            let (live2, s2, e) = spec_tick_threads(live, now_live, ticks, k, now, start_time);
            &&& handles_unique(live2)
            &&& forall|h: u64|
                #[trigger] handle_in(live2, h) ==> handle_in(live, h) || exists|i: int|
                    k <= i < ticks.len() && ticks[i].thread_act == h
        }),
    decreases ticks.len() - k,
{
    if k >= ticks.len() {
    } else {
        lemma_tick_step_handles(live, now_live, ticks[k], now, start_time);
        let (l2, s2, e) = spec_tick_step(live, now_live, ticks[k], now, start_time);
        if e is Some {
        } else {
            lemma_tick_threads_handles(l2, s2, ticks, k + 1, now, start_time);
            let (live2, s3, e2) = spec_tick_threads(l2, s2, ticks, k + 1, now, start_time);
            assert forall|h: u64| #[trigger] handle_in(live2, h) implies handle_in(live, h)
                || exists|i: int| k <= i < ticks.len() && ticks[i].thread_act == h by {
                if !handle_in(live, h) {
                    if handle_in(l2, h) {
                        assert(h == ticks[k].thread_act);
                        assert(k <= k < ticks.len() && ticks[k].thread_act == h);
                    } else {
                        let i = choose|i: int| k + 1 <= i < ticks.len() && ticks[i].thread_act == h;
                        assert(k <= i < ticks.len() && ticks[i].thread_act == h);
                    }
                }
            }
        }
    }
}

/// What the dead-collection split guarantees: both halves keep their
/// order and draw from the live set, they share no handle, no thread is
/// lost, the dead half is exactly the threads that were live before but
/// not seen alive — each marked dead at `now` — and the kept half keeps
/// handles unique.
pub proof fn lemma_partition_props(
    live: Seq<ThreadProfiler>,
    prev: Seq<u64>,
    now_live: Seq<u64>,
    now: u64,
)
    requires
        handles_unique(live),
    ensures
        ({
            let (kept, nd) = spec_partition_dead(live, prev, now_live, now);
            &&& handles_unique(kept)
            &&& forall|h: u64| #[trigger] handle_in(kept, h) ==> handle_in(live, h)
            &&& forall|h: u64| #[trigger] handle_in(nd, h) ==> handle_in(live, h)
            &&& forall|h: u64| !(#[trigger] handle_in(kept, h) && handle_in(nd, h))
            &&& forall|h: u64|
                #[trigger] handle_in(live, h) ==> handle_in(kept, h) || handle_in(nd, h)
            &&& forall|i: int| 0 <= i < nd.len() ==> (#[trigger] nd[i]).end_time == Some(now)
        }),
    decreases live.len(),
{
    if live.len() == 0 {
    } else {
        let tail = live.drop_first();
        assert(forall|x: int| 0 <= x < tail.len() ==> tail[x] == live[x + 1]);
        assert forall|h: u64| #[trigger] handle_in(tail, h) implies handle_in(live, h) by {
            let j = choose|j: int| 0 <= j < tail.len() && tail[j].thread_act == h;
            assert(live[j + 1].thread_act == h);
        }
        lemma_partition_props(tail, prev, now_live, now);
        let (rl, rd) = spec_partition_dead(tail, prev, now_live, now);
        let (kept, nd) = spec_partition_dead(live, prev, now_live, now);
        let h0 = live[0].thread_act;
        assert(!handle_in(tail, h0)) by {
            if handle_in(tail, h0) {
                let j = choose|j: int| 0 <= j < tail.len() && tail[j].thread_act == h0;
                assert(live[j + 1].thread_act == h0);
                assert(live[0].thread_act == live[j + 1].thread_act);
                assert(false);
            }
        }
        if prev.contains(h0) && !now_live.contains(h0) {
            assert(nd == seq![spec_dead_thread(live[0], now)] + rd);
            assert forall|h: u64| #[trigger] handle_in(nd, h) implies handle_in(live, h) by {
                let j = choose|j: int| 0 <= j < nd.len() && nd[j].thread_act == h;
                if j == 0 {
                    assert(live[0].thread_act == h);
                } else {
                    assert(rd[j - 1].thread_act == h);
                    assert(handle_in(rd, h));
                }
            }
            assert forall|h: u64| #[trigger] handle_in(live, h) implies handle_in(kept, h)
                || handle_in(nd, h) by {
                let j = choose|j: int| 0 <= j < live.len() && live[j].thread_act == h;
                if j == 0 {
                    assert(nd[0].thread_act == h);
                } else {
                    assert(tail[j - 1].thread_act == h);
                    assert(handle_in(tail, h));
                    if handle_in(rd, h) {
                        let x = choose|x: int| 0 <= x < rd.len() && rd[x].thread_act == h;
                        assert(nd[x + 1].thread_act == h);
                    }
                }
            }
            assert forall|h: u64| !(#[trigger] handle_in(kept, h) && handle_in(nd, h)) by {
                if handle_in(kept, h) && handle_in(nd, h) {
                    let j = choose|j: int| 0 <= j < nd.len() && nd[j].thread_act == h;
                    if j == 0 {
                        assert(handle_in(kept, h0));
                    } else {
                        assert(rd[j - 1].thread_act == h);
                        assert(handle_in(rd, h));
                    }
                }
            }
        } else {
            assert(kept == seq![live[0]] + rl);
            assert(kept[0] == live[0]);
            assert forall|h: u64| #[trigger] handle_in(kept, h) implies handle_in(live, h) by {
                let j = choose|j: int| 0 <= j < kept.len() && kept[j].thread_act == h;
                if j == 0 {
                    assert(live[0].thread_act == h);
                } else {
                    assert(rl[j - 1].thread_act == h);
                    assert(handle_in(rl, h));
                }
            }
            assert forall|h: u64| #[trigger] handle_in(live, h) implies handle_in(kept, h)
                || handle_in(nd, h) by {
                let j = choose|j: int| 0 <= j < live.len() && live[j].thread_act == h;
                if j == 0 {
                    assert(kept[0].thread_act == h);
                } else {
                    assert(tail[j - 1].thread_act == h);
                    assert(handle_in(tail, h));
                    if handle_in(rl, h) {
                        let x = choose|x: int| 0 <= x < rl.len() && rl[x].thread_act == h;
                        assert(kept[x + 1].thread_act == h);
                    }
                }
            }
            assert forall|h: u64| !(#[trigger] handle_in(kept, h) && handle_in(nd, h)) by {
                if handle_in(kept, h) && handle_in(nd, h) {
                    let j = choose|j: int| 0 <= j < kept.len() && kept[j].thread_act == h;
                    if j == 0 {
                        assert(handle_in(nd, h0));
                    } else {
                        assert(rl[j - 1].thread_act == h);
                        assert(handle_in(rl, h));
                    }
                }
            }
            assert(handles_unique(kept)) by {
                assert forall|a: int, b: int|
                    0 <= a < b < kept.len() implies kept[a].thread_act != kept[b].thread_act by {
                    if a == 0 {
                        assert(kept[b] == rl[b - 1]);
                        assert(handle_in(rl, rl[b - 1].thread_act));
                        assert(handle_in(tail, rl[b - 1].thread_act));
                    } else {
                        assert(kept[a] == rl[a - 1]);
                        assert(kept[b] == rl[b - 1]);
                    }
                }
            }
        }
    }
}

/// The state of one profiled task.
#[derive(Debug)]
pub struct TaskProfiler {
    pub task: u64,
    pub pid: u32,
    pub interval: u64,
    pub start_time: u64,
    pub end_time: Option<u64>,
    pub live_threads: Vec<ThreadProfiler>,
    pub dead_threads: Vec<ThreadProfiler>,
    pub libs: Vec<DyldInfo>,
    pub commandline: Option<Vec<String>>,
    pub executable_lib: Option<DyldInfo>,
    pub command_name: String,
}

impl TaskProfiler {
    /// Well-formedness: live threads carry distinct handles, every known
    /// module's range fits the address space, and the end time, once
    /// set, does not precede the start time.
    pub open spec fn wf(self) -> bool {
        &&& handles_unique(self.live_threads@)
        &&& forall|i: int| 0 <= i < self.libs@.len() ==> lib_wf(#[trigger] self.libs@[i])
        &&& match self.end_time {
            Some(e) => e >= self.start_time,
            None => true,
        }
    }

    /// Attaches to a task: derives the command line from the adaptor's
    /// answer (absent when the query failed, else with the directory
    /// prefix stripped from the first word), and sets up one sampler
    /// per profileable initial thread, the first enumerated thread
    /// flagged as main.
    pub fn new(
        task: u64,
        pid: u32,
        now: u64,
        command_name: &str,
        interval: u64,
        raw_commandline: Option<Vec<String>>,
        initial_threads: Vec<ThreadSpawn>,
    ) -> (r: Self)
        ensures
            r.wf(),
            r.task == task,
            r.pid == pid,
            r.interval == interval,
            r.start_time == now,
            r.end_time is None,
            r.live_threads@ == spec_initial_threads_from(
                initial_threads@,
                now,
                0,
                Seq::<ThreadProfiler>::empty(),
            ),
            r.dead_threads@ == Seq::<ThreadProfiler>::empty(),
            r.libs@ == Seq::<DyldInfo>::empty(),
            stripped_cmdline_ok(raw_commandline, r.commandline),
            r.executable_lib is None,
            r.command_name@ == command_name@,
    {
        let commandline = match raw_commandline {
            Some(mut cmds) => {
                if cmds.len() > 0 {
                    // Strip off the directory part of the first word.
                    let stripped = file_name_of(cmds[0].as_str());
                    cmds[0] = stripped;
                }
                Some(cmds)
            },
            None => None,
        };
        let n = initial_threads.len();
        let mut live_threads: Vec<ThreadProfiler> = Vec::new();
        let mut i: usize = 0;
        while i < n
            invariant
                n == initial_threads@.len(),
                0 <= i <= n,
                handles_unique(live_threads@),
                spec_initial_threads_from(
                    initial_threads@,
                    now,
                    0,
                    Seq::<ThreadProfiler>::empty(),
                ) == spec_initial_threads_from(initial_threads@, now, i as int, live_threads@),
            decreases n - i,
        {
            let spawn = initial_threads[i];
            // Pretend that the first thread is the main thread. Might not be true.
            let is_main = i == 0;
            if spawn.profileable {
                let thread = ThreadProfiler::new(spawn.thread_act, now, is_main);
                proof {
                    lemma_upsert_props(live_threads@, thread);
                }
                upsert_thread(&mut live_threads, thread);
            }
            i = i + 1;
        }
        TaskProfiler {
            task,
            pid,
            interval,
            start_time: now,
            end_time: None,
            live_threads,
            dead_threads: Vec::new(),
            libs: Vec::new(),
            command_name: command_name.to_owned(),
            commandline,
            executable_lib: None,
        }
    }

    /// One tick: applies the tracker's module deltas, then processes
    /// the enumerated threads — known handles are re-sampled, new
    /// profileable handles get samplers, and threads that vanished are
    /// moved to the dead list. Returns whether the task is still alive:
    /// a failed enumeration with "invalid argument", a dead message
    /// destination or a terminated task yields `Ok(false)`; any other
    /// platform error is passed on unchanged.
    #[verifier::loop_isolation(false)]
    pub fn sample(
        &mut self,
        now: u64,
        deltas: Result<Vec<Modification>, KernelError>,
        threads: Result<Vec<ThreadTick>, KernelError>,
    ) -> (r: Result<bool, KernelError>)
        requires
            old(self).wf(),
            match deltas {
                Ok(ds) => forall|i: int| 0 <= i < ds@.len() ==> delta_wf(#[trigger] ds@[i]),
                Err(_) => true,
            },
        ensures
            final(self).wf(),
            final(self).task == old(self).task,
            final(self).pid == old(self).pid,
            final(self).interval == old(self).interval,
            final(self).start_time == old(self).start_time,
            final(self).end_time == old(self).end_time,
            final(self).command_name == old(self).command_name,
            final(self).commandline == old(self).commandline,
            ({
                let ds = match deltas {
                    Ok(d) => d@,
                    Err(_) => Seq::<Modification>::empty(),
                };
                (final(self).libs@, final(self).executable_lib) == spec_apply_deltas(
                    old(self).libs@,
                    old(self).executable_lib,
                    ds,
                )
            }),
            match threads {
                Err(e) => final(self).live_threads@ == old(self).live_threads@
                    && final(self).dead_threads@ == old(self).dead_threads@
                    && r == spec_sample_verdict(spec_enum_error(e)),
                Ok(ticks) => sample_threads_rel(*old(self), *final(self), now, ticks@, r),
            },
    {
        let ghost pre = *old(self);
        // Check for newly loaded libraries first; a failed delta query
        // counts as an empty delta.
        let ds: Vec<Modification> = match deltas {
            Ok(d) => d,
            Err(_) => Vec::new(),
        };
        let ghost dss = ds@;
        let nd = ds.len();
        let mut di: usize = 0;
        proof {
            assert(dss.skip(0) =~= dss);
        }
        while di < nd
            invariant
                nd == ds@.len(),
                dss == ds@,
                0 <= di <= nd,
                forall|i: int| 0 <= i < dss.len() ==> delta_wf(#[trigger] dss[i]),
                spec_apply_deltas(pre.libs@, pre.executable_lib, dss) == spec_apply_deltas(
                    self.libs@,
                    self.executable_lib,
                    dss.skip(di as int),
                ),
                forall|i: int| 0 <= i < self.libs@.len() ==> lib_wf(#[trigger] self.libs@[i]),
                self.task == pre.task,
                self.pid == pre.pid,
                self.interval == pre.interval,
                self.start_time == pre.start_time,
                self.end_time == pre.end_time,
                self.live_threads == pre.live_threads,
                self.dead_threads == pre.dead_threads,
                self.commandline == pre.commandline,
                self.command_name == pre.command_name,
            decreases nd - di,
        {
            proof {
                assert(dss.skip(di as int)[0] == dss[di as int]);
                assert(dss.skip(di as int).drop_first() =~= dss.skip(di as int + 1));
            }
            match &ds[di] {
                Modification::Added(lib) => {
                    if self.executable_lib.is_none() && lib.is_executable {
                        self.executable_lib = Some(lib.clone());
                    }
                    self.libs.push(lib.clone());
                },
                Modification::Removed(_) => {
                    // Ignore, and hope that the address ranges won't be
                    // reused by other libraries during the recording.
                },
            }
            di = di + 1;
        }
        proof {
            assert(dss.skip(nd as int) =~= Seq::<Modification>::empty());
        }
        let ghost libs_fin = self.libs@;
        let ghost exe_fin = self.executable_lib;

        // Enumerate threads; a failed enumeration with "invalid
        // argument" means the task is gone.
        let ticks: Vec<ThreadTick> = match threads {
            Ok(t) => t,
            Err(e) => {
                let mapped = if e == KernelError::InvalidArgument {
                    KernelError::Terminated
                } else {
                    e
                };
                return sample_verdict(mapped);
            },
        };

        // The handles that were live before this tick.
        let mut prev_handles: Vec<u64> = Vec::new();
        let npl = self.live_threads.len();
        let mut pi: usize = 0;
        while pi < npl
            invariant
                npl == self.live_threads@.len(),
                0 <= pi <= npl,
                self.live_threads == pre.live_threads,
                prev_handles@.len() == pi,
                forall|j: int|
                    0 <= j < pi ==> prev_handles@[j] == handles_of(pre.live_threads@)[j],
            decreases npl - pi,
        {
            prev_handles.push(self.live_threads[pi].thread_act);
            pi = pi + 1;
        }
        proof {
            assert(prev_handles@ =~= handles_of(pre.live_threads@));
        }

        // Process each enumerated thread in order.
        let mut now_live: Vec<u64> = Vec::new();
        let ntk = ticks.len();
        let mut ti: usize = 0;
        while ti < ntk
            invariant
                ntk == ticks@.len(),
                0 <= ti <= ntk,
                handles_unique(self.live_threads@),
                spec_tick_threads(
                    pre.live_threads@,
                    Seq::<u64>::empty(),
                    ticks@,
                    0,
                    now,
                    pre.start_time,
                ) == spec_tick_threads(
                    self.live_threads@,
                    now_live@,
                    ticks@,
                    ti as int,
                    now,
                    pre.start_time,
                ),
                self.libs@ == libs_fin,
                self.executable_lib == exe_fin,
                forall|i: int| 0 <= i < self.libs@.len() ==> lib_wf(#[trigger] self.libs@[i]),
                self.task == pre.task,
                self.pid == pre.pid,
                self.interval == pre.interval,
                self.start_time == pre.start_time,
                self.end_time == pre.end_time,
                self.dead_threads == pre.dead_threads,
                self.commandline == pre.commandline,
                self.command_name == pre.command_name,
            decreases ntk - ti,
        {
            let t = ticks[ti];
            proof {
                lemma_tick_step_handles(self.live_threads@, now_live@, t, now, pre.start_time);
            }
            match find_handle(&self.live_threads, t.thread_act) {
                Some(i) => {
                    proof {
                        lemma_find_handle_from_props(self.live_threads@, t.thread_act, 0);
                    }
                    let mut th = self.live_threads[i];
                    th.sample(now);
                    self.live_threads[i] = th;
                    match t.sample {
                        Ok(alive) => {
                            if alive {
                                now_live.push(t.thread_act);
                            }
                        },
                        Err(e) => {
                            return sample_verdict(e);
                        },
                    }
                },
                None => {
                    match t.spawn {
                        SpawnOutcome::NotProfileable => {},
                        SpawnOutcome::Failed(e) => {
                            return sample_verdict(e);
                        },
                        SpawnOutcome::Started => {
                            let mut th = ThreadProfiler::new(t.thread_act, self.start_time, false);
                            th.sample(now);
                            self.live_threads.push(th);
                            match t.sample {
                                Ok(alive) => {
                                    if alive {
                                        now_live.push(t.thread_act);
                                    }
                                },
                                Err(e) => {
                                    return sample_verdict(e);
                                },
                            }
                        },
                    }
                },
            }
            ti = ti + 1;
        }

        // Move the threads that were live before the tick but were not
        // seen alive during it into the dead list.
        let ghost live2 = self.live_threads@;
        let ghost nlv = now_live@;
        let mut kept: Vec<ThreadProfiler> = Vec::new();
        let mut newly_dead: Vec<ThreadProfiler> = Vec::new();
        let nl = self.live_threads.len();
        let mut li: usize = 0;
        proof {
            assert(live2.skip(0) =~= live2);
        }
        while li < nl
            invariant
                nl == self.live_threads@.len(),
                self.live_threads@ == live2,
                now_live@ == nlv,
                0 <= li <= nl,
                prev_handles@ == handles_of(pre.live_threads@),
                spec_partition_dead(live2, prev_handles@, nlv, now).0 == kept@
                    + spec_partition_dead(live2.skip(li as int), prev_handles@, nlv, now).0,
                spec_partition_dead(live2, prev_handles@, nlv, now).1 == newly_dead@
                    + spec_partition_dead(live2.skip(li as int), prev_handles@, nlv, now).1,
            decreases nl - li,
        {
            proof {
                assert(live2.skip(li as int)[0] == live2[li as int]);
                assert(live2.skip(li as int).drop_first() =~= live2.skip(li as int + 1));
            }
            let th = self.live_threads[li];
            let h = th.thread_act;
            let ghost kb = kept@;
            let ghost db = newly_dead@;
            let ghost tail_kept = spec_partition_dead(
                live2.skip(li as int + 1),
                prev_handles@,
                nlv,
                now,
            ).0;
            let ghost tail_dead = spec_partition_dead(
                live2.skip(li as int + 1),
                prev_handles@,
                nlv,
                now,
            ).1;
            if contains_handle(&prev_handles, h) && !contains_handle(&now_live, h) {
                let mut d = th;
                d.notify_dead(now);
                newly_dead.push(d);
                proof {
                    assert(newly_dead@ =~= db + seq![d]);
                    assert(db + (seq![d] + tail_dead) =~= (db + seq![d]) + tail_dead);
                }
            } else {
                kept.push(th);
                proof {
                    assert(kept@ =~= kb + seq![th]);
                    assert(kb + (seq![th] + tail_kept) =~= (kb + seq![th]) + tail_kept);
                }
            }
            li = li + 1;
        }
        proof {
            assert(live2.skip(nl as int) =~= Seq::<ThreadProfiler>::empty());
            assert(kept@ + Seq::<ThreadProfiler>::empty() =~= kept@);
            assert(newly_dead@ + Seq::<ThreadProfiler>::empty() =~= newly_dead@);
            lemma_partition_props(live2, prev_handles@, nlv, now);
        }
        self.live_threads = kept;
        let nnd = newly_dead.len();
        let mut qi: usize = 0;
        proof {
            assert(newly_dead@.take(0) =~= Seq::<ThreadProfiler>::empty());
            assert(pre.dead_threads@ + Seq::<ThreadProfiler>::empty() =~= pre.dead_threads@);
        }
        while qi < nnd
            invariant
                nnd == newly_dead@.len(),
                0 <= qi <= nnd,
                self.dead_threads@ == pre.dead_threads@ + newly_dead@.take(qi as int),
                self.live_threads@ == spec_partition_dead(live2, prev_handles@, nlv, now).0,
                self.libs@ == libs_fin,
                self.executable_lib == exe_fin,
                forall|i: int| 0 <= i < self.libs@.len() ==> lib_wf(#[trigger] self.libs@[i]),
                handles_unique(self.live_threads@),
                self.task == pre.task,
                self.pid == pre.pid,
                self.interval == pre.interval,
                self.start_time == pre.start_time,
                self.end_time == pre.end_time,
                self.commandline == pre.commandline,
                self.command_name == pre.command_name,
            decreases nnd - qi,
        {
            self.dead_threads.push(newly_dead[qi]);
            proof {
                assert(newly_dead@.take(qi as int + 1) =~= newly_dead@.take(qi as int).push(
                    newly_dead@[qi as int],
                ));
                assert(pre.dead_threads@ + newly_dead@.take(qi as int + 1) =~= (pre.dead_threads@
                    + newly_dead@.take(qi as int)).push(newly_dead@[qi as int]));
            }
            qi = qi + 1;
        }
        proof {
            assert(newly_dead@.take(nnd as int) =~= newly_dead@);
        }
        Ok(true)
    }

    /// The process is known gone: every live sampler is marked dead at
    /// `end_time` and moved to the dead list in order, and the end time
    /// is recorded. The platform layer releases the module tracker's
    /// mapping alongside this call.
    #[verifier::loop_isolation(false)]
    pub fn notify_dead(&mut self, end_time: u64)
        requires
            old(self).wf(),
            end_time >= old(self).start_time,
        ensures
            final(self).wf(),
            final(self).live_threads@ == Seq::<ThreadProfiler>::empty(),
            final(self).dead_threads@ == old(self).dead_threads@ + old(
                self,
            ).live_threads@.map_values(|t: ThreadProfiler| spec_dead_thread(t, end_time)),
            final(self).end_time == Some(end_time),
            final(self).task == old(self).task,
            final(self).pid == old(self).pid,
            final(self).interval == old(self).interval,
            final(self).start_time == old(self).start_time,
            final(self).libs == old(self).libs,
            final(self).commandline == old(self).commandline,
            final(self).executable_lib == old(self).executable_lib,
            final(self).command_name == old(self).command_name,
    {
        let ghost pre = *old(self);
        let ghost died = pre.live_threads@.map_values(
            |t: ThreadProfiler| spec_dead_thread(t, end_time),
        );
        let n = self.live_threads.len();
        let mut i: usize = 0;
        proof {
            assert(pre.dead_threads@ + died.take(0) =~= pre.dead_threads@);
        }
        while i < n
            invariant
                n == pre.live_threads@.len(),
                0 <= i <= n,
                self.live_threads == pre.live_threads,
                self.dead_threads@ == pre.dead_threads@ + died.take(i as int),
                self.task == pre.task,
                self.pid == pre.pid,
                self.interval == pre.interval,
                self.start_time == pre.start_time,
                self.end_time == pre.end_time,
                self.libs == pre.libs,
                self.commandline == pre.commandline,
                self.executable_lib == pre.executable_lib,
                self.command_name == pre.command_name,
            decreases n - i,
        {
            let mut th = self.live_threads[i];
            th.notify_dead(end_time);
            self.dead_threads.push(th);
            proof {
                assert(died.take(i as int + 1) =~= died.take(i as int).push(died[i as int]));
                assert(pre.dead_threads@ + died.take(i as int + 1) =~= (pre.dead_threads@
                    + died.take(i as int)).push(died[i as int]));
            }
            i = i + 1;
        }
        self.live_threads = Vec::new();
        self.end_time = Some(end_time);
        proof {
            assert(died.take(n as int) =~= died);
        }
    }
}

proof fn lemma_handle_in_concat(a: Seq<ThreadProfiler>, b: Seq<ThreadProfiler>, h: u64)
    ensures
        handle_in(a + b, h) <==> handle_in(a, h) || handle_in(b, h),
{
    if handle_in(a + b, h) {
        let j = choose|j: int| 0 <= j < (a + b).len() && (a + b)[j].thread_act == h;
        if j < a.len() {
            assert(a[j].thread_act == h);
        } else {
            assert(b[j - a.len()].thread_act == h);
        }
    }
    if handle_in(a, h) {
        let j = choose|j: int| 0 <= j < a.len() && a[j].thread_act == h;
        assert((a + b)[j].thread_act == h);
    }
    if handle_in(b, h) {
        let j = choose|j: int| 0 <= j < b.len() && b[j].thread_act == h;
        assert((a + b)[a.len() + j].thread_act == h);
    }
}

/// No handle is both live and dead.
pub open spec fn live_dead_disjoint(pf: TaskProfiler) -> bool {
    forall|h: u64| !(#[trigger] handle_in(pf.live_threads@, h) && handle_in(pf.dead_threads@, h))
}

/// Whether a tick enumerates no handle that already died — thread
/// handles are assumed not to be recycled within one session.
pub open spec fn no_dead_handle_enumerated(pf: TaskProfiler, ticks: Seq<ThreadTick>) -> bool {
    forall|i: int|
        0 <= i < ticks.len() ==> !handle_in(pf.dead_threads@, (#[trigger] ticks[i]).thread_act)
}

/// After a tick on a state whose live and dead threads share no handle,
/// and whose enumeration brings no recycled dead handle, live and dead
/// threads still share no handle — whether or not the tick aborted.
pub proof fn lemma_sample_keeps_disjoint(
    pre: TaskProfiler,
    post: TaskProfiler,
    now: u64,
    ticks: Seq<ThreadTick>,
    r: Result<bool, KernelError>,
)
    requires
        pre.wf(),
        live_dead_disjoint(pre),
        no_dead_handle_enumerated(pre, ticks),
        sample_threads_rel(pre, post, now, ticks, r),
    ensures
        live_dead_disjoint(post),
{
    lemma_tick_threads_handles(pre.live_threads@, Seq::<u64>::empty(), ticks, 0, now, pre.start_time);
    let (live2, now_live, abort) = spec_tick_threads(
        pre.live_threads@,
        Seq::<u64>::empty(),
        ticks,
        0,
        now,
        pre.start_time,
    );
    match abort {
        Some(_) => {
            assert forall|h: u64| !(#[trigger] handle_in(post.live_threads@, h) && handle_in(
                post.dead_threads@,
                h,
            )) by {
                if handle_in(live2, h) && handle_in(pre.dead_threads@, h) {
                    assert(!handle_in(pre.live_threads@, h));
                }
            }
        },
        None => {
            lemma_partition_props(live2, handles_of(pre.live_threads@), now_live, now);
            let (kept, nd) = spec_partition_dead(live2, handles_of(pre.live_threads@), now_live, now);
            assert forall|h: u64| !(#[trigger] handle_in(post.live_threads@, h) && handle_in(
                post.dead_threads@,
                h,
            )) by {
                lemma_handle_in_concat(pre.dead_threads@, nd, h);
                if handle_in(kept, h) && handle_in(pre.dead_threads@, h) {
                    assert(handle_in(live2, h));
                    assert(!handle_in(pre.live_threads@, h));
                }
            }
        },
    }
}

/// A handle that has died never returns: after any further tick it is
/// still absent from the live threads and still on the dead list.
pub proof fn lemma_dead_handle_stays_dead(
    pre: TaskProfiler,
    post: TaskProfiler,
    now: u64,
    ticks: Seq<ThreadTick>,
    r: Result<bool, KernelError>,
    h: u64,
)
    requires
        pre.wf(),
        live_dead_disjoint(pre),
        no_dead_handle_enumerated(pre, ticks),
        sample_threads_rel(pre, post, now, ticks, r),
        handle_in(pre.dead_threads@, h),
    ensures
        !handle_in(post.live_threads@, h),
        handle_in(post.dead_threads@, h),
{
    lemma_sample_keeps_disjoint(pre, post, now, ticks, r);
    lemma_tick_threads_handles(pre.live_threads@, Seq::<u64>::empty(), ticks, 0, now, pre.start_time);
    let (live2, now_live, abort) = spec_tick_threads(
        pre.live_threads@,
        Seq::<u64>::empty(),
        ticks,
        0,
        now,
        pre.start_time,
    );
    match abort {
        Some(_) => {
            if handle_in(live2, h) {
                assert(!handle_in(pre.live_threads@, h));
            }
        },
        None => {
            lemma_partition_props(live2, handles_of(pre.live_threads@), now_live, now);
            let (kept, nd) = spec_partition_dead(live2, handles_of(pre.live_threads@), now_live, now);
            lemma_handle_in_concat(pre.dead_threads@, nd, h);
            if handle_in(kept, h) {
                assert(handle_in(live2, h));
                assert(!handle_in(pre.live_threads@, h));
            }
        },
    }
}

/// An observed module reaches the assembled profile exactly when both
/// its UUID and its architecture are known.
pub proof fn lemma_lib_in_profile_iff(libs: Seq<DyldInfo>, l: DyldInfo)
    ensures
        spec_kept_libs(libs).contains(l) <==> libs.contains(l) && l.uuid is Some && l.arch is Some,
    decreases libs.len(),
{
    if libs.len() == 0 {
    } else {
        let tail = libs.drop_first();
        lemma_lib_in_profile_iff(tail, l);
        let kt = spec_kept_libs(tail);
        let kl = spec_kept_libs(libs);
        assert(libs.contains(l) <==> (l == libs[0] || tail.contains(l))) by {
            if libs.contains(l) {
                let i = choose|i: int| 0 <= i < libs.len() && libs[i] == l;
                if i > 0 {
                    assert(tail[i - 1] == l);
                }
            }
            if tail.contains(l) {
                let i = choose|i: int| 0 <= i < tail.len() && tail[i] == l;
                assert(libs[i + 1] == l);
            }
            if l == libs[0] {
                assert(libs[0] == l);
            }
        }
        if libs[0].uuid is Some && libs[0].arch is Some {
            assert(kl == seq![libs[0]] + kt);
            assert(kl.contains(l) <==> (l == libs[0] || kt.contains(l))) by {
                if kl.contains(l) {
                    let i = choose|i: int| 0 <= i < kl.len() && kl[i] == l;
                    if i > 0 {
                        assert(kt[i - 1] == l);
                    }
                }
                if kt.contains(l) {
                    let i = choose|i: int| 0 <= i < kt.len() && kt[i] == l;
                    assert(kl[i + 1] == l);
                }
                if l == libs[0] {
                    assert(kl[0] == l);
                }
            }
        } else {
            assert(kl == kt);
        }
    }
}

/// `notify_dead` followed by `into_profile` is well-defined and loses
/// no thread: the resulting profile lists one entry per thread the task
/// ever tracked — the already dead ones first, then the formerly live
/// ones marked dead at the end time — and a handle appears among the
/// profile's threads exactly when the task tracked it.
pub proof fn lemma_profile_after_notify_dead(
    pre: TaskProfiler,
    post: TaskProfiler,
    end_time: u64,
    r: ProfileBuilder,
)
    requires
        post.live_threads@ == Seq::<ThreadProfiler>::empty(),
        post.dead_threads@ == pre.dead_threads@ + pre.live_threads@.map_values(
            |t: ThreadProfiler| spec_dead_thread(t, end_time),
        ),
        profile_of(r, post),
    ensures
        r.threads@.len() == pre.dead_threads@.len() + pre.live_threads@.len(),
        forall|i: int|
            0 <= i < pre.dead_threads@.len() ==> r.threads@[i] == spec_profile_thread(
                pre.dead_threads@[i],
            ),
        forall|i: int|
            0 <= i < pre.live_threads@.len() ==> r.threads@[pre.dead_threads@.len() + i]
                == spec_profile_thread(spec_dead_thread(pre.live_threads@[i], end_time)),
        forall|h: u64|
            (handle_in(pre.live_threads@, h) || handle_in(pre.dead_threads@, h)) <==> exists|i: int|
                0 <= i < r.threads@.len() && (#[trigger] r.threads@[i]).thread_act == h,
{
    let all = (post.live_threads@ + post.dead_threads@).map_values(
        |t: ThreadProfiler| spec_profile_thread(t),
    );
    assert(post.live_threads@ + post.dead_threads@ =~= post.dead_threads@);
    assert(r.threads@ == all);
    assert forall|h: u64|
        (handle_in(pre.live_threads@, h) || handle_in(pre.dead_threads@, h)) implies exists|i: int|
        0 <= i < r.threads@.len() && (#[trigger] r.threads@[i]).thread_act == h by {
        if handle_in(pre.dead_threads@, h) {
            let j = choose|j: int|
                0 <= j < pre.dead_threads@.len() && pre.dead_threads@[j].thread_act == h;
            assert(r.threads@[j].thread_act == h);
        } else {
            let j = choose|j: int|
                0 <= j < pre.live_threads@.len() && pre.live_threads@[j].thread_act == h;
            assert(r.threads@[pre.dead_threads@.len() + j].thread_act == h);
        }
    }
    assert forall|h: u64|
        (exists|i: int|
            0 <= i < r.threads@.len() && (#[trigger] r.threads@[i]).thread_act == h) implies (
    handle_in(pre.live_threads@, h) || handle_in(pre.dead_threads@, h)) by {
        let i = choose|i: int| 0 <= i < r.threads@.len() && r.threads@[i].thread_act == h;
        if i < pre.dead_threads@.len() {
            assert(pre.dead_threads@[i].thread_act == h);
        } else {
            assert(pre.live_threads@[i - pre.dead_threads@.len()].thread_act == h);
        }
    }
}

/// The display name of the task's profile: the command line joined
/// with spaces; else the executable image's file name; else the
/// user-supplied command name.
pub open spec fn spec_profile_name(pf: TaskProfiler) -> Seq<char> {
    match pf.commandline {
        Some(cmds) => spec_join_spaces(cmds@),
        None => match pf.executable_lib {
            Some(l) => spec_file_name(l.file@),
            None => pf.command_name@,
        },
    }
}

/// The modules that reach the profile: those whose UUID and
/// architecture are both known, in order of observation.
pub open spec fn spec_kept_libs(libs: Seq<DyldInfo>) -> Seq<DyldInfo>
    decreases libs.len(),
{
    if libs.len() == 0 {
        Seq::empty()
    } else {
        let rest = spec_kept_libs(libs.drop_first());
        if libs[0].uuid is Some && libs[0].arch is Some {
            seq![libs[0]] + rest
        } else {
            rest
        }
    }
}

proof fn lemma_kept_libs_push(libs: Seq<DyldInfo>, x: DyldInfo)
    ensures
        spec_kept_libs(libs.push(x)) == spec_kept_libs(libs) + (if x.uuid is Some
            && x.arch is Some {
            seq![x]
        } else {
            Seq::<DyldInfo>::empty()
        }),
    decreases libs.len(),
{
    let tail = if x.uuid is Some && x.arch is Some {
        seq![x]
    } else {
        Seq::<DyldInfo>::empty()
    };
    if libs.len() == 0 {
        assert(libs.push(x).len() == 1);
        assert(libs.push(x)[0] == x);
        assert(libs.push(x).drop_first() =~= Seq::<DyldInfo>::empty());
        assert(spec_kept_libs(Seq::<DyldInfo>::empty()) == Seq::<DyldInfo>::empty());
        assert(spec_kept_libs(libs) == Seq::<DyldInfo>::empty());
        if x.uuid is Some && x.arch is Some {
            assert(spec_kept_libs(libs.push(x)) == seq![x] + spec_kept_libs(
                libs.push(x).drop_first(),
            ));
            assert(seq![x] + Seq::<DyldInfo>::empty() =~= seq![x]);
            assert(Seq::<DyldInfo>::empty() + seq![x] =~= seq![x]);
        } else {
            assert(spec_kept_libs(libs.push(x)) == spec_kept_libs(libs.push(x).drop_first()));
            assert(Seq::<DyldInfo>::empty() + Seq::<DyldInfo>::empty() =~= Seq::<
                DyldInfo,
            >::empty());
        }
    } else {
        assert(libs.push(x)[0] == libs[0]);
        assert(libs.push(x).drop_first() =~= libs.drop_first().push(x));
        lemma_kept_libs_push(libs.drop_first(), x);
        if libs[0].uuid is Some && libs[0].arch is Some {
            assert(spec_kept_libs(libs.push(x)) == seq![libs[0]] + (spec_kept_libs(
                libs.drop_first(),
            ) + tail));
            assert(seq![libs[0]] + (spec_kept_libs(libs.drop_first()) + tail) =~= (seq![libs[0]]
                + spec_kept_libs(libs.drop_first())) + tail);
        } else {
            assert(spec_kept_libs(libs.push(x)) == spec_kept_libs(libs.drop_first()) + tail);
            assert(spec_kept_libs(libs) == spec_kept_libs(libs.drop_first()));
        }
    }
}

/// Whether a profile library entry presents the module: the file-name
/// portion as display name, the full path, the identification, and the
/// mapped address range.
pub open spec fn lib_entry_of(e: LibEntry, l: DyldInfo) -> bool {
    &&& e.name@ == spec_file_name(l.file@)
    &&& e.path@ == l.file@
    &&& l.uuid == Some(e.uuid)
    &&& match l.arch {
        Some(a) => e.arch@ == a@,
        None => false,
    }
    &&& e.start_avma == l.address
    &&& e.end_avma == l.address + l.vmsize
}

/// Whether `r` is the profile assembled from the task state `pf`,
/// subprocesses aside: identification and timing carried over, one
/// profile thread per tracked thread — live first, then dead, in order
/// — and exactly the modules with known UUID and architecture.
pub open spec fn profile_of(r: ProfileBuilder, pf: TaskProfiler) -> bool {
    &&& r.start_time == pf.start_time
    &&& r.pid == pf.pid
    &&& r.interval == pf.interval
    &&& r.name@ == spec_profile_name(pf)
    &&& r.threads@ == (pf.live_threads@ + pf.dead_threads@).map_values(
        |t: ThreadProfiler| spec_profile_thread(t),
    )
    &&& r.end_time == (match pf.end_time {
        Some(e) => Some((e - pf.start_time) as u64),
        None => None::<u64>,
    })
    &&& r.libs@.len() == spec_kept_libs(pf.libs@).len()
    &&& forall|i: int|
        0 <= i < r.libs@.len() ==> lib_entry_of(#[trigger] r.libs@[i], spec_kept_libs(pf.libs@)[i])
}

impl TaskProfiler {
    /// The task's own profile, with no subprocesses attached.
    #[verifier::loop_isolation(false)]
    fn base_profile(self) -> (r: ProfileBuilder)
        requires
            self.wf(),
        ensures
            profile_of(r, self),
            r.subprocesses@.len() == 0,
    {
        let name: String = match &self.commandline {
            Some(cmds) => join_with_spaces(cmds),
            None => match &self.executable_lib {
                Some(l) => file_name_of(l.file.as_str()),
                None => self.command_name.clone(),
            },
        };
        let mut b = ProfileBuilder::new(self.start_time, name, self.pid, self.interval);

        let ghost all_threads = (self.live_threads@ + self.dead_threads@).map_values(
            |t: ThreadProfiler| spec_profile_thread(t),
        );
        let nl = self.live_threads.len();
        let mut i: usize = 0;
        while i < nl
            invariant
                nl == self.live_threads@.len(),
                0 <= i <= nl,
                b.threads@ == all_threads.take(i as int),
                b.start_time == self.start_time,
                b.pid == self.pid,
                b.interval == self.interval,
                b.name@ == spec_profile_name(self),
                b.end_time is None,
                b.libs@.len() == 0,
                b.subprocesses@.len() == 0,
            decreases nl - i,
        {
            proof {
                assert((self.live_threads@ + self.dead_threads@)[i as int]
                    == self.live_threads@[i as int]);
                assert(all_threads.take(i as int + 1) =~= all_threads.take(i as int).push(
                    all_threads[i as int],
                ));
            }
            b.add_thread(self.live_threads[i].into_profile_thread());
            i = i + 1;
        }
        let ndd = self.dead_threads.len();
        let mut j: usize = 0;
        while j < ndd
            invariant
                ndd == self.dead_threads@.len(),
                nl == self.live_threads@.len(),
                0 <= j <= ndd,
                b.threads@ == all_threads.take(nl as int + j as int),
                b.start_time == self.start_time,
                b.pid == self.pid,
                b.interval == self.interval,
                b.name@ == spec_profile_name(self),
                b.end_time is None,
                b.libs@.len() == 0,
                b.subprocesses@.len() == 0,
            decreases ndd - j,
        {
            proof {
                assert((self.live_threads@ + self.dead_threads@)[nl as int + j as int]
                    == self.dead_threads@[j as int]);
                assert(all_threads.take(nl as int + j as int + 1) =~= all_threads.take(nl as int + j as int).push(
                    all_threads[nl as int + j as int],
                ));
            }
            b.add_thread(self.dead_threads[j].into_profile_thread());
            j = j + 1;
        }
        proof {
            assert(all_threads.take(nl as int + ndd as int) =~= all_threads);
        }

        if let Some(e) = self.end_time {
            b.set_end_time(e - self.start_time);
        }

        let ghost kept = spec_kept_libs(self.libs@);
        let nlb = self.libs.len();
        let mut k: usize = 0;
        proof {
            assert(self.libs@.take(0) =~= Seq::<DyldInfo>::empty());
        }
        while k < nlb
            invariant
                nlb == self.libs@.len(),
                0 <= k <= nlb,
                b.libs@.len() == spec_kept_libs(self.libs@.take(k as int)).len(),
                forall|x: int|
                    0 <= x < b.libs@.len() ==> lib_entry_of(
                        #[trigger] b.libs@[x],
                        spec_kept_libs(self.libs@.take(k as int))[x],
                    ),
                b.threads@ == all_threads,
                b.start_time == self.start_time,
                b.pid == self.pid,
                b.interval == self.interval,
                b.name@ == spec_profile_name(self),
                b.end_time == (match self.end_time {
                    Some(e) => Some((e - self.start_time) as u64),
                    None => None::<u64>,
                }),
                b.subprocesses@.len() == 0,
            decreases nlb - k,
        {
            proof {
                assert(self.libs@.take(k as int + 1) =~= self.libs@.take(k as int).push(
                    self.libs@[k as int],
                ));
                lemma_kept_libs_push(self.libs@.take(k as int), self.libs@[k as int]);
            }
            let lib = &self.libs[k];
            let keep = match (&lib.uuid, &lib.arch) {
                (Some(_), Some(_)) => true,
                _ => false,
            };
            if keep {
                let uuid = match &lib.uuid {
                    Some(u) => *u,
                    None => unreached(),
                };
                let arch = match &lib.arch {
                    Some(a) => a.clone(),
                    None => unreached(),
                };
                let entry = LibEntry {
                    name: file_name_of(lib.file.as_str()),
                    path: lib.file.clone(),
                    uuid,
                    arch,
                    start_avma: lib.address,
                    end_avma: lib.address + lib.vmsize,
                };
                let ghost nkept = spec_kept_libs(self.libs@.take(k as int + 1));
                b.add_lib(entry);
                proof {
                    assert(nkept =~= spec_kept_libs(self.libs@.take(k as int)) + seq![
                        self.libs@[k as int],
                    ]);
                    assert(nkept[nkept.len() - 1] == self.libs@[k as int]);
                }
            }
            k = k + 1;
        }
        proof {
            assert(self.libs@.take(nlb as int) =~= self.libs@);
        }
        b
    }

    /// Consumes the task state into its profile: identification and
    /// display name, every thread ever tracked (live first, then dead),
    /// the duration when the end is known, every module with known UUID
    /// and architecture, and one nested profile per subprocess.
    #[verifier::loop_isolation(false)]
    pub fn into_profile(self, subtasks: Vec<TaskProfiler>) -> (r: ProfileBuilder)
        requires
            self.wf(),
            forall|i: int| 0 <= i < subtasks@.len() ==> (#[trigger] subtasks@[i]).wf(),
        ensures
            profile_of(r, self),
            r.subprocesses@.len() == subtasks@.len(),
            forall|i: int|
                0 <= i < subtasks@.len() ==> profile_of(
                    #[trigger] r.subprocesses@[i],
                    subtasks@[i],
                ) && r.subprocesses@[i].subprocesses@.len() == 0,
    {
        let ghost subs0 = subtasks@;
        let mut b = self.base_profile();
        let mut subtasks = subtasks;
        let ghost mut done: int = 0;
        while subtasks.len() > 0
            invariant
                0 <= done <= subs0.len(),
                subtasks@ == subs0.skip(done),
                b.subprocesses@.len() == done,
                forall|i: int|
                    0 <= i < done ==> profile_of(#[trigger] b.subprocesses@[i], subs0[i])
                        && b.subprocesses@[i].subprocesses@.len() == 0,
                profile_of(b, self),
            decreases subtasks@.len(),
        {
            proof {
                assert(subs0.skip(done)[0] == subs0[done]);
                assert(subs0.skip(done).subrange(1, subs0.skip(done).len() as int) =~= subs0.skip(
                    done + 1,
                ));
            }
            let st = subtasks.remove(0);
            let child = st.base_profile();
            b.add_subprocess(child);
            proof {
                done = done + 1;
            }
        }
        proof {
            assert(subs0.skip(done).len() == 0);
            assert(done == subs0.len());
        }
        b
    }
}

} // verus!

