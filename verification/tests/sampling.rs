use perfrecord::addr2line::Addr2LineContext;
use perfrecord::addr2line::FileEntry;
use perfrecord::addr2line::ModuleDebugInfo;
use perfrecord::addr2line::ProcSym;
use perfrecord::addr2line::Symbol;
use perfrecord::task_profiler::DyldInfo;
use perfrecord::task_profiler::KernelError;
use perfrecord::task_profiler::Modification;
use perfrecord::task_profiler::SpawnOutcome;
use perfrecord::task_profiler::TaskProfiler;
use perfrecord::task_profiler::ThreadSpawn;
use perfrecord::task_profiler::ThreadTick;
use perfrecord::text::file_name_of;
use perfrecord::text::join_with_spaces;

const T1: u64 = 101;
const T2: u64 = 202;

fn alive(handle: u64) -> ThreadTick {
    ThreadTick { thread_act: handle, spawn: SpawnOutcome::Started, sample: Ok(true) }
}

fn fresh_task() -> TaskProfiler {
    TaskProfiler::new(
        1,
        10,
        0,
        "cmd",
        10,
        Some(vec!["/usr/bin/app".to_string(), "--flag".to_string()]),
        vec![ThreadSpawn { thread_act: T1, profileable: true }],
    )
}

fn lib(file: &str, uuid: Option<u128>, arch: Option<&str>, executable: bool) -> DyldInfo {
    DyldInfo {
        file: file.to_string(),
        uuid,
        address: 0x10000,
        vmsize: 0x4000,
        arch: arch.map(|a| a.to_string()),
        is_executable: executable,
    }
}

#[test]
fn construction_strips_command_path_and_flags_main_thread() {
    let task = fresh_task();
    let cmds = task.commandline.as_ref().unwrap();
    assert_eq!(cmds[0], "app");
    assert_eq!(cmds[1], "--flag");
    assert_eq!(task.live_threads.len(), 1);
    assert_eq!(task.live_threads[0].thread_act, T1);
    assert!(task.live_threads[0].is_main);
    assert!(task.dead_threads.is_empty());
    assert!(task.libs.is_empty());
}

#[test]
fn new_thread_appears_in_live_set() {
    // Tick 1: enumeration returns the known thread and a new one.
    let mut task = fresh_task();
    let r = task.sample(1, Ok(vec![]), Ok(vec![alive(T1), alive(T2)]));
    assert_eq!(r, Ok(true));
    assert_eq!(task.live_threads.len(), 2);
    assert_eq!(task.live_threads[0].thread_act, T1);
    assert!(task.live_threads[0].is_main);
    assert_eq!(task.live_threads[1].thread_act, T2);
    assert!(!task.live_threads[1].is_main);
    assert!(task.dead_threads.is_empty());
}

#[test]
fn vanished_thread_moves_to_dead_list() {
    // Tick 2: the first thread no longer shows up in the enumeration.
    let mut task = fresh_task();
    assert_eq!(task.sample(1, Ok(vec![]), Ok(vec![alive(T1), alive(T2)])), Ok(true));
    assert_eq!(task.sample(2, Ok(vec![]), Ok(vec![alive(T2)])), Ok(true));
    assert_eq!(task.live_threads.len(), 1);
    assert_eq!(task.live_threads[0].thread_act, T2);
    assert_eq!(task.dead_threads.len(), 1);
    assert_eq!(task.dead_threads[0].thread_act, T1);
    assert_eq!(task.dead_threads[0].end_time, Some(2));
    // No handle is both live and dead.
    for d in &task.dead_threads {
        assert!(task.live_threads.iter().all(|l| l.thread_act != d.thread_act));
    }
}

#[test]
fn failed_enumeration_ends_the_session() {
    // Tick 3: enumeration fails with "invalid argument"; the driver then
    // declares the task dead and assembles the profile.
    let mut task = fresh_task();
    assert_eq!(task.sample(1, Ok(vec![]), Ok(vec![alive(T1), alive(T2)])), Ok(true));
    assert_eq!(task.sample(2, Ok(vec![]), Ok(vec![alive(T2)])), Ok(true));
    let r = task.sample(3, Ok(vec![]), Err(KernelError::InvalidArgument));
    assert_eq!(r, Ok(false));
    task.notify_dead(3);
    assert!(task.live_threads.is_empty());
    let profile = task.into_profile(vec![]);
    assert_eq!(profile.end_time, Some(3));
    assert_eq!(profile.threads.len(), 2);
    let mut handles: Vec<u64> = profile.threads.iter().map(|t| t.thread_act).collect();
    handles.sort();
    assert_eq!(handles, vec![T1, T2]);
    assert!(profile.threads.iter().all(|t| t.end_time.is_some()));
}

#[test]
fn thread_sample_errors_translate_like_the_kernel() {
    let mut task = fresh_task();
    let gone = ThreadTick {
        thread_act: T1,
        spawn: SpawnOutcome::Started,
        sample: Err(KernelError::MachSendInvalidDest),
    };
    assert_eq!(task.sample(1, Ok(vec![]), Ok(vec![gone])), Ok(false));

    let mut task2 = fresh_task();
    let broken = ThreadTick {
        thread_act: T1,
        spawn: SpawnOutcome::Started,
        sample: Err(KernelError::Other),
    };
    assert_eq!(task2.sample(1, Ok(vec![]), Ok(vec![broken])), Err(KernelError::Other));
}

#[test]
fn unprofileable_thread_is_skipped() {
    let mut task = fresh_task();
    let shy = ThreadTick {
        thread_act: T2,
        spawn: SpawnOutcome::NotProfileable,
        sample: Ok(true),
    };
    assert_eq!(task.sample(1, Ok(vec![]), Ok(vec![alive(T1), shy])), Ok(true));
    assert_eq!(task.live_threads.len(), 1);
    assert_eq!(task.live_threads[0].thread_act, T1);
}

#[test]
fn module_delta_failure_counts_as_empty() {
    let mut task = fresh_task();
    let r = task.sample(1, Err(KernelError::Other), Ok(vec![alive(T1)]));
    assert_eq!(r, Ok(true));
    assert!(task.libs.is_empty());
}

#[test]
fn only_identified_modules_reach_the_profile() {
    let mut task = fresh_task();
    let deltas = vec![
        Modification::Added(lib("/lib/full.dylib", Some(7), Some("arm64"), false)),
        Modification::Added(lib("/lib/no_uuid.dylib", None, Some("arm64"), false)),
        Modification::Added(lib("/lib/no_arch.dylib", Some(9), None, false)),
        Modification::Removed(lib("/lib/full.dylib", Some(7), Some("arm64"), false)),
    ];
    assert_eq!(task.sample(1, Ok(deltas), Ok(vec![alive(T1)])), Ok(true));
    // Removals are ignored; all three additions stay known.
    assert_eq!(task.libs.len(), 3);
    task.notify_dead(2);
    let profile = task.into_profile(vec![]);
    assert_eq!(profile.libs.len(), 1);
    assert_eq!(profile.libs[0].name, "full.dylib");
    assert_eq!(profile.libs[0].path, "/lib/full.dylib");
    assert_eq!(profile.libs[0].uuid, 7);
    assert_eq!(profile.libs[0].arch, "arm64");
    assert_eq!(profile.libs[0].start_avma, 0x10000);
    assert_eq!(profile.libs[0].end_avma, 0x14000);
}

#[test]
fn first_executable_module_becomes_the_image() {
    let mut task = TaskProfiler::new(
        1,
        10,
        0,
        "cmd",
        10,
        None,
        vec![ThreadSpawn { thread_act: T1, profileable: true }],
    );
    let deltas = vec![
        Modification::Added(lib("/other/tool", Some(1), Some("arm64"), false)),
        Modification::Added(lib("/usr/bin/image", Some(2), Some("arm64"), true)),
        Modification::Added(lib("/usr/bin/late", Some(3), Some("arm64"), true)),
    ];
    assert_eq!(task.sample(1, Ok(deltas), Ok(vec![alive(T1)])), Ok(true));
    assert_eq!(task.executable_lib.as_ref().unwrap().file, "/usr/bin/image");
    // With no command line, the profile is named after the image.
    task.notify_dead(2);
    let profile = task.into_profile(vec![]);
    assert_eq!(profile.name, "image");
}

#[test]
fn profile_name_prefers_the_command_line() {
    let mut task = fresh_task();
    task.notify_dead(1);
    let profile = task.into_profile(vec![]);
    assert_eq!(profile.name, "app --flag");
    assert_eq!(profile.pid, 10);
    assert_eq!(profile.interval, 10);
    assert_eq!(profile.start_time, 0);
}

#[test]
fn subprocess_profiles_are_attached() {
    let mut parent = fresh_task();
    parent.notify_dead(5);
    let mut child = TaskProfiler::new(
        2,
        11,
        1,
        "child",
        10,
        None,
        vec![ThreadSpawn { thread_act: T2, profileable: true }],
    );
    child.notify_dead(4);
    let profile = parent.into_profile(vec![child]);
    assert_eq!(profile.subprocesses.len(), 1);
    assert_eq!(profile.subprocesses[0].pid, 11);
    assert_eq!(profile.subprocesses[0].name, "child");
    assert_eq!(profile.subprocesses[0].end_time, Some(3));
    assert!(profile.subprocesses[0].subprocesses.is_empty());
}

#[test]
fn dead_threads_keep_their_flags() {
    let mut task = fresh_task();
    assert_eq!(task.sample(1, Ok(vec![]), Ok(vec![alive(T1), alive(T2)])), Ok(true));
    task.notify_dead(7);
    assert_eq!(task.end_time, Some(7));
    assert_eq!(task.dead_threads.len(), 2);
    assert!(task.dead_threads[0].is_main);
    assert_eq!(task.dead_threads[0].end_time, Some(7));
    assert!(!task.dead_threads[1].is_main);
}

#[test]
fn file_name_of_strips_directories() {
    assert_eq!(file_name_of("/usr/bin/app"), "app");
    assert_eq!(file_name_of("app"), "app");
    assert_eq!(file_name_of("dir/"), "");
    assert_eq!(file_name_of(""), "");
    assert_eq!(file_name_of("a/b/c.txt"), "c.txt");
}

#[test]
fn join_with_spaces_matches_display_convention() {
    assert_eq!(join_with_spaces(&vec!["a".to_string(), "b".to_string(), "c".to_string()]), "a b c");
    assert_eq!(join_with_spaces(&vec!["solo".to_string()]), "solo");
    assert_eq!(join_with_spaces(&vec![]), "");
}

#[test]
fn dead_handle_never_returns_to_live() {
    let mut task = fresh_task();
    assert_eq!(task.sample(1, Ok(vec![]), Ok(vec![alive(T1), alive(T2)])), Ok(true));
    assert_eq!(task.sample(2, Ok(vec![]), Ok(vec![alive(T2)])), Ok(true));
    // Further ticks without T1: it stays on the dead list and never
    // reappears among the live threads.
    assert_eq!(task.sample(3, Ok(vec![]), Ok(vec![alive(T2)])), Ok(true));
    assert_eq!(task.sample(4, Ok(vec![]), Ok(vec![alive(T2)])), Ok(true));
    assert!(task.live_threads.iter().all(|t| t.thread_act != T1));
    assert!(task.dead_threads.iter().any(|t| t.thread_act == T1));
    assert_eq!(task.dead_threads[0].end_time, Some(2));
}

#[test]
fn frames_of_covered_addresses_are_always_named() {
    // A procedure with no covering line record still yields a named
    // frame; only its location is absent.
    let module = ModuleDebugInfo {
        symbols: vec![Symbol::Procedure(ProcSym {
            name: "bare".to_string(),
            type_index: 0,
            start_rva: Some(0x2000),
            len: 0x10,
            lines: vec![],
        })],
        files: vec![FileEntry { index: 1, name: None }],
        inlinees: vec![],
    };
    let ctx = Addr2LineContext::new(vec![module]);
    let frames = ctx.find_frames(0x2008);
    assert_eq!(frames.len(), 1);
    assert_eq!(frames[0].function.as_deref(), Some("bare"));
    assert!(frames[0].location.is_none());
}
