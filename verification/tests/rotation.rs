use logsplit::session::{Action, Config, Session, Severity};

/// A tiny in-memory stand-in for the directories: files as (path, content)
/// in creation order, the last created one being the append sink.
struct World {
    files: Vec<(String, String)>,
    open: usize,
}

impl World {
    fn new() -> World {
        World { files: Vec::new(), open: 0 }
    }

    fn perform(&mut self, acts: Vec<Action>, move_ok: bool) {
        for a in acts {
            match a {
                Action::Relocate { from, to } => {
                    if move_ok {
                        for f in self.files.iter_mut() {
                            if f.0 == from {
                                f.0 = to.clone();
                            }
                        }
                    }
                }
                Action::Create { path } => {
                    self.files.retain(|f| f.0 != path);
                    self.files.push((path, String::new()));
                    self.open = self.files.len() - 1;
                }
                Action::Append { line } => {
                    self.files[self.open].1.push_str(&line);
                    self.files[self.open].1.push('\n');
                }
                Action::Flush => {}
            }
        }
    }
}

#[test]
fn single_bucket_scenario() {
    // Interval one minute, staging disabled: "a" at 0s and "b" at 30s land in
    // one file; "c" at 65s opens the next minute's file, the first unchanged.
    let c = Config::new(String::from("out"), None);
    let mut w = World::new();
    let (mut s, acts) = Session::init(&c, 0);
    w.perform(acts, true);
    w.perform(s.handle_line(&c, 0, "a"), true);
    w.perform(s.handle_line(&c, 30, "b"), true);
    assert_eq!(w.files.len(), 1);
    assert_eq!(w.files[0].0, "out/1970-01-01-00-00");
    assert_eq!(w.files[0].1, "a\nb\n");

    w.perform(s.handle_line(&c, 65, "c"), true);
    w.perform(s.finalize(&c), true);
    assert_eq!(w.files.len(), 2);
    assert_eq!(w.files[0].0, "out/1970-01-01-00-00");
    assert_eq!(w.files[0].1, "a\nb\n");
    assert_eq!(w.files[1].0, "out/1970-01-01-00-01");
    assert_eq!(w.files[1].1, "c\n");
}

#[test]
fn no_staging_never_relocates() {
    let c = Config::new(String::from("out"), Some(String::from("out")));
    let (mut s, acts) = Session::init(&c, 0);
    let mut all = acts;
    all.extend(s.handle_line(&c, 0, "a"));
    all.extend(s.handle_line(&c, 61, "b"));
    all.extend(s.handle_line(&c, 200, "c"));
    all.extend(s.finalize(&c));
    assert!(!all.iter().any(|a| matches!(a, Action::Relocate { .. })));
}

#[test]
fn staging_relocates_on_rotation_and_end() {
    let c = Config::new(String::from("out"), Some(String::from("tmp")));
    let mut w = World::new();
    let (mut s, acts) = Session::init(&c, 0);
    w.perform(acts, true);
    w.perform(s.handle_line(&c, 10, "a"), true);
    // The active file is visible in the staging directory.
    assert_eq!(w.files[0].0, "tmp/1970-01-01-00-00");

    let acts = s.handle_line(&c, 61, "b");
    assert!(matches!(
        &acts[0],
        Action::Relocate { from, to }
            if from == "tmp/1970-01-01-00-00" && to == "out/1970-01-01-00-00"
    ));
    w.perform(acts, true);
    assert_eq!(w.files[0].0, "out/1970-01-01-00-00");
    assert_eq!(w.files[0].1, "a\n");
    assert_eq!(w.files[1].0, "tmp/1970-01-01-00-01");

    w.perform(s.finalize(&c), true);
    assert_eq!(w.files[1].0, "out/1970-01-01-00-01");
    assert_eq!(w.files[1].1, "b\n");
}

#[test]
fn failed_relocation_leaves_file_in_place() {
    let c = Config::new(String::from("out"), Some(String::from("tmp")));
    let mut w = World::new();
    let (mut s, acts) = Session::init(&c, 0);
    w.perform(acts, true);
    w.perform(s.handle_line(&c, 10, "a"), true);
    // The move fails: the finished file stays in the staging directory,
    // content intact, and ingestion continues.
    w.perform(s.handle_line(&c, 61, "b"), false);
    assert_eq!(w.files[0].0, "tmp/1970-01-01-00-00");
    assert_eq!(w.files[0].1, "a\n");
    assert_eq!(w.files[1].1, "b\n");
}

#[test]
fn read_error_does_not_stop_ingestion() {
    // A failed read is simply not handed to the writer: the next valid line
    // still lands in the file that is open.
    let c = Config::new(String::from("out"), None);
    let mut w = World::new();
    let (mut s, acts) = Session::init(&c, 0);
    w.perform(acts, true);
    w.perform(s.handle_line(&c, 1, "a"), true);
    // a read error happens here, at 2s; nothing is handed over
    w.perform(s.handle_line(&c, 3, "b"), true);
    assert_eq!(w.files.len(), 1);
    assert_eq!(w.files[0].1, "a\nb\n");
}

#[test]
fn file_count_per_span() {
    // A run of exactly one interval stays in one file; one second past it
    // opens a second.
    let c = Config::new(String::from("out"), None);
    let mut w = World::new();
    let (mut s, acts) = Session::init(&c, 0);
    w.perform(acts, true);
    w.perform(s.handle_line(&c, 0, "a"), true);
    w.perform(s.handle_line(&c, 60, "b"), true);
    assert_eq!(w.files.len(), 1);
    w.perform(s.handle_line(&c, 61, "c"), true);
    assert_eq!(w.files.len(), 2);
}

#[test]
fn late_lines_make_fewer_files_than_the_span_suggests() {
    // Rotation restarts the clock at the triggering line's own time: lines
    // at 0s, 61s and 121s span 121s but make two files, not three, since the
    // second file's clock runs from 61s and 121s is only 60s past it.
    let c = Config::new(String::from("out"), None);
    let mut w = World::new();
    let (mut s, acts) = Session::init(&c, 0);
    w.perform(acts, true);
    w.perform(s.handle_line(&c, 0, "a"), true);
    w.perform(s.handle_line(&c, 61, "b"), true);
    w.perform(s.handle_line(&c, 121, "c"), true);
    assert_eq!(w.files.len(), 2);
    assert_eq!(w.files[1].1, "b\nc\n");
}

#[test]
fn round_trip_concatenation() {
    // Concatenating the files in order reproduces the input, one newline
    // after each line, staging and a failed move notwithstanding.
    let input = ["one", "two", "three", "four"];
    let times = [0i64, 59, 61, 150];
    let move_oks = [true, true, false, true];
    let c = Config::new(String::from("out"), Some(String::from("tmp")));
    let mut w = World::new();
    let (mut s, acts) = Session::init(&c, times[0]);
    w.perform(acts, true);
    for i in 0..input.len() {
        w.perform(s.handle_line(&c, times[i], input[i]), move_oks[i]);
    }
    w.perform(s.finalize(&c), true);
    let got: String = w.files.iter().map(|f| f.1.as_str()).collect();
    assert_eq!(got, "one\ntwo\nthree\nfour\n");
}

#[test]
fn only_creation_failure_is_fatal() {
    let c = Config::new(String::from("out"), Some(String::from("tmp")));
    let (mut s, acts) = Session::init(&c, 0);
    assert!(matches!(acts[0].severity_on_failure(), Severity::Fatal));
    let acts = s.handle_line(&c, 61, "a");
    // relocate, create, append, flush
    assert_eq!(acts.len(), 4);
    assert_eq!(acts[0].severity_on_failure(), Severity::Recoverable);
    assert_eq!(acts[1].severity_on_failure(), Severity::Fatal);
    assert_eq!(acts[2].severity_on_failure(), Severity::Recoverable);
    assert_eq!(acts[3].severity_on_failure(), Severity::Recoverable);
}
