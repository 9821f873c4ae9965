use proc_watch::commands::Config;
use proc_watch::monitor::{Monitor, Transition};
use proc_watch::names::TargetSet;
use proc_watch::sampler::{
    get_process_data, get_winstring, PassAction, ProcessEntry, SampleError, SamplingPass,
};

fn targets(names: &[&str]) -> TargetSet {
    let v: Vec<String> = names.iter().map(|s| s.to_string()).collect();
    TargetSet::new(&v)
}

fn entry(id: u32, name: &[u8]) -> ProcessEntry {
    // The system hands names over in a fixed-size, NUL-padded buffer.
    let mut exe_file = name.to_vec();
    exe_file.resize(260, 0);
    ProcessEntry { id, exe_file }
}

fn sample(set: &TargetSet, entries: &[ProcessEntry]) -> Option<Result<bool, SampleError>> {
    let mut pass = SamplingPass::start(true);
    for e in entries {
        assert_eq!(pass.entry(set, e), PassAction::ReadNext);
    }
    assert_eq!(pass.end(), PassAction::Release);
    pass.outcome()
}

fn run_monitor(samples: &[bool]) -> Vec<Transition> {
    let mut m = Monitor::new();
    samples.iter().filter_map(|s| m.observe(*s)).collect()
}

#[test]
fn target_in_list_is_present() {
    let set = targets(&["game.exe"]);
    let list = [entry(1001, b"C:\\Games\\game.exe")];
    assert_eq!(sample(&set, &list), Some(Ok(true)));
}

#[test]
fn other_process_only_is_absent() {
    let set = targets(&["game.exe"]);
    let list = [entry(2002, b"C:\\Windows\\explorer.exe")];
    assert_eq!(sample(&set, &list), Some(Ok(false)));
}

#[test]
fn open_repeat_close_gives_two_events() {
    assert_eq!(
        run_monitor(&[false, true, true, false]),
        vec![Transition::Opened, Transition::Closed]
    );
    let mut m = Monitor::new();
    assert_eq!(m.observe(false), None);
    assert_eq!(m.observe(true), Some(Transition::Opened));
    assert!(m.is_running());
    assert_eq!(m.observe(true), None);
    assert_eq!(m.observe(false), Some(Transition::Closed));
    assert!(!m.is_running());
}

#[test]
fn empty_open_command_launches_nothing() {
    let config = Config {
        cmd_on_open: vec![],
        cmd_on_close: vec!["notify".to_string()],
        targets: vec!["game.exe".to_string()],
    };
    let mut m = Monitor::new();
    let t = m.observe(true).unwrap();
    assert_eq!(t, Transition::Opened);
    assert!(config.command_for(t).is_none());
    assert!(m.is_running());
    assert_eq!(m.observe(true), None);
}

#[test]
fn undecodable_name_is_skipped() {
    let set = targets(&["game.exe"]);
    let bad = entry(3003, &[0x67, 0xff, 0xfe, 0x2e, 0x65]);
    let good = entry(1001, b"C:\\Games\\game.exe");
    assert_eq!(sample(&set, &[bad, good]), Some(Ok(true)));
    let bad = entry(3003, &[0x67, 0xff, 0xfe, 0x2e, 0x65]);
    assert_eq!(sample(&set, &[bad]), Some(Ok(false)));
    let bad = entry(3003, &[0xc3, 0x28]);
    assert_eq!(get_process_data(&bad), Err(3003));
}

#[test]
fn invalid_utf8_named_like_target_does_not_count() {
    let set = targets(&["game.exe"]);
    let mut raw = b"game.exe".to_vec();
    raw.push(0xff);
    let bad = entry(4004, &raw);
    assert_eq!(sample(&set, &[bad]), Some(Ok(false)));
}

#[test]
fn snapshot_released_once_on_every_path() {
    let set = targets(&["game.exe"]);
    let mut pass = SamplingPass::start(true);
    assert_eq!(pass.entry(&set, &entry(1, &[0xff])), PassAction::ReadNext);
    assert_eq!(pass.entry(&set, &entry(2, b"game.exe")), PassAction::ReadNext);
    assert_eq!(pass.end(), PassAction::Release);
    assert_eq!(pass.end(), PassAction::Finish);
    assert_eq!(pass.entry(&set, &entry(3, b"game.exe")), PassAction::Finish);
    assert_eq!(pass.outcome(), Some(Ok(true)));

    let mut pass = SamplingPass::start(true);
    assert_eq!(pass.outcome(), None);
    assert_eq!(pass.end(), PassAction::Release);
    assert_eq!(pass.outcome(), Some(Err(SampleError::FirstEntryUnavailable)));
    assert_eq!(pass.end(), PassAction::Finish);
}

#[test]
fn no_snapshot_is_an_error_without_release() {
    let set = targets(&["game.exe"]);
    let mut pass = SamplingPass::start(false);
    assert_eq!(pass.outcome(), Some(Err(SampleError::SnapshotUnavailable)));
    assert_eq!(pass.entry(&set, &entry(1, b"game.exe")), PassAction::Finish);
    assert_eq!(pass.end(), PassAction::Finish);
    assert_eq!(pass.outcome(), Some(Err(SampleError::SnapshotUnavailable)));
}

#[test]
fn empty_list_after_first_entry_is_absent() {
    let set = targets(&["game.exe"]);
    assert_eq!(sample(&set, &[]), Some(Err(SampleError::FirstEntryUnavailable)));
}

#[test]
fn event_counts_follow_edges() {
    let samples = [true, false, false, true, false, true, true, true, false];
    let events = run_monitor(&samples);
    let opened = events.iter().filter(|e| **e == Transition::Opened).count();
    let closed = events.iter().filter(|e| **e == Transition::Closed).count();
    assert_eq!(opened, 3);
    assert_eq!(closed, 3);
    assert_eq!(run_monitor(&[]), vec![]);
    assert_eq!(run_monitor(&[false, false]), vec![]);
    assert_eq!(run_monitor(&[true, true, true]), vec![Transition::Opened]);
}

#[test]
fn events_alternate() {
    let samples = [true, true, false, true, false, false, true, false, true];
    let events = run_monitor(&samples);
    assert_eq!(events[0], Transition::Opened);
    for w in events.windows(2) {
        assert_ne!(w[0], w[1]);
    }
    assert_eq!(events.len(), 7);
}

#[test]
fn final_component_matching() {
    let set = targets(&["game.exe", "tool.exe"]);
    assert!(set.matches("game.exe"));
    assert!(set.matches("C:\\Games\\game.exe"));
    assert!(set.matches("/opt/bin/tool.exe"));
    assert!(set.matches("C:/mixed\\dirs/tool.exe"));
    assert!(!set.matches("GAME.EXE"));
    assert!(!set.matches("game"));
    assert!(!set.matches("C:\\game.exe\\other.exe"));
    assert!(!set.matches("C:\\Games\\game.exe.bak"));
    assert!(!set.matches(""));
    assert!(!set.matches("C:\\Games\\"));
    assert!(set.matches("game.exe\\"));
}

#[test]
fn components_read_as_windows_reads_them() {
    let set = targets(&["game.exe"]);
    assert!(set.matches("x\\game.exe\\"));
    assert!(set.matches("a\\game.exe\\."));
    assert!(set.matches("a\\game.exe\\.\\\\./"));
    assert!(set.matches("C:game.exe"));
    assert!(set.matches("c:\\game.exe"));
    assert!(set.matches(".\\game.exe"));
    assert!(!set.matches("game.exe\\.."));
    assert!(!set.matches("C:"));
    assert!(!set.matches("C:\\"));
    assert!(!set.matches("\\\\"));
    assert!(!set.matches("."));
    let list = [entry(1001, b"x\\game.exe\\")];
    assert_eq!(sample(&set, &list), Some(Ok(true)));
}

#[test]
fn drive_is_not_a_name() {
    let set = targets(&["C:", "1:game.exe"]);
    assert!(!set.matches("C:"));
    assert!(set.matches("D:\\C:"));
    assert!(set.matches("1:game.exe"));
}

#[test]
fn dot_components_never_match() {
    let set = targets(&[".", ".."]);
    assert!(!set.matches("."));
    assert!(!set.matches("C:\\Games\\.."));
    assert!(!set.matches("a/."));
    assert!(!set.matches("a/.."));
}

#[test]
fn empty_target_set_matches_nothing() {
    let set = targets(&[]);
    assert!(!set.matches("game.exe"));
    assert_eq!(sample(&set, &[entry(1, b"game.exe")]), Some(Ok(false)));
}

#[test]
fn non_ascii_names_compare_by_text() {
    let set = targets(&["spiel\u{e4}.exe"]);
    assert!(set.matches("D:\\Spiele\\spiel\u{e4}.exe"));
    let list = [entry(7, "D:\\Spiele\\spiel\u{e4}.exe".as_bytes())];
    assert_eq!(sample(&set, &list), Some(Ok(true)));
}

#[test]
fn winstring_stops_at_nul() {
    assert_eq!(get_winstring(b"abc\0xyz"), Ok("abc"));
    assert_eq!(get_winstring(b"abc"), Ok("abc"));
    assert_eq!(get_winstring(b"\0abc"), Ok(""));
    assert_eq!(get_winstring(b""), Ok(""));
    assert_eq!(get_winstring(&[0xff, 0x00]), Err(0));
    assert_eq!(get_winstring(&[0x61, 0x62, 0xff, 0x63, 0x00]), Err(2));
    assert_eq!(get_winstring(&[0x61, 0x00, 0xff]), Ok("a"));
    let e = entry(42, b"game.exe");
    assert_eq!(get_process_data(&e), Ok((42, "game.exe")));
}

#[test]
fn commands_split_program_and_arguments() {
    let config = Config {
        cmd_on_open: vec!["launcher".to_string(), "--quiet".to_string(), "x y".to_string()],
        cmd_on_close: vec!["cleanup".to_string()],
        targets: vec![],
    };
    let open = config.command_for(Transition::Opened).unwrap();
    assert_eq!(open.program, "launcher");
    assert_eq!(open.args, vec!["--quiet".to_string(), "x y".to_string()]);
    let close = config.command_for(Transition::Closed).unwrap();
    assert_eq!(close.program, "cleanup");
    assert!(close.args.is_empty());
    let set = config.target_set();
    assert!(!set.matches("launcher"));
}

#[test]
fn config_targets_build_the_set() {
    let config = Config {
        cmd_on_open: vec![],
        cmd_on_close: vec![],
        targets: vec!["a.exe".to_string(), "b.exe".to_string()],
    };
    let set = config.target_set();
    assert!(set.matches("x\\a.exe"));
    assert!(set.matches("b.exe"));
    assert!(!set.matches("c.exe"));
    assert!(config.command_for(Transition::Closed).is_none());
}
