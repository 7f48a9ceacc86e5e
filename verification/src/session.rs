//! The rotating writer's executable state machine: its configuration, the
//! state of the active file, and the actions the driver must perform.
//!
//! The driver owns the clock, the input stream and the file handles.  For
//! each line it calls [`Session::handle_line`] with the current time and
//! performs the returned [`Action`]s in order; at end of input it calls
//! [`Session::finalize`].  Every returned action is pinned, via
//! [`acts_match`], to the spec-level actions of [`crate::model`].

use vstd::prelude::*;
use vstd::string::StringExecFns;
use vstd::string::StrSliceExecFns;
use crate::model::{ActS, RunConfig, finish_acts, line_acts, line_next_start, rotates};
use crate::naming::{bucket_path, minute_name_of, minute_of, path_of, valid_secs, path_for};

verus! {

/// Whether two pieces of text are equal, character by character.
pub fn str_eq(a: &str, b: &str) -> (r: bool)
    ensures
        r == (a@ == b@),
{
    let alen = a.unicode_len();
    let blen = b.unicode_len();
    if alen != blen {
        return false;
    }
    let mut i: usize = 0;
    while i < alen
        invariant
            0 <= i <= alen,
            alen as nat == a@.len(),
            blen == alen,
            b@.len() == alen as nat,
            forall|j: int| 0 <= j < i ==> a@[j] == b@[j],
        decreases alen - i,
    {
        if a.get_char(i) != b.get_char(i) {
            return false;
        }
        i += 1;
    }
    proof {
        assert(a@ =~= b@);
    }
    true
}

/// The default rotation interval: one minute.
pub const DEFAULT_INTERVAL_SECS: i64 = 60;

/// The writer's configuration: the directory finished files must end up in,
/// the directory the active file is written in (the same one when no staging
/// directory is given), and the rotation interval in seconds.
pub struct Config {
    pub final_dir: String,
    pub write_dir: String,
    pub interval_secs: i64,
}

impl Config {
    /// The spec-level configuration this value stands for.
    pub open spec fn view(self) -> RunConfig {
        RunConfig {
            write_dir: self.write_dir@,
            final_dir: self.final_dir@,
            interval: self.interval_secs as int,
        }
    }

    /// A configuration is well formed when its interval is positive.
    pub open spec fn wf(self) -> bool {
        self.interval_secs >= 1
    }

    /// A configuration rotating at the given interval; the active file is
    /// staged in `tmp_dir` when one is given and differs from `out_dir`.
    pub fn with_interval(out_dir: String, tmp_dir: Option<String>, interval_secs: i64) -> (c:
        Config)
        requires
            interval_secs >= 1,
        ensures
            c.wf(),
            c@.final_dir == out_dir@,
            c@.interval == interval_secs as int,
            c@.write_dir == (if tmp_dir is Some {
                tmp_dir->0@
            } else {
                out_dir@
            }),
    {
        let write_dir = match tmp_dir {
            Some(d) => d,
            None => String::from_str(out_dir.as_str()),
        };
        Config { final_dir: out_dir, write_dir, interval_secs }
    }

    /// A configuration with the default interval of one minute.
    pub fn new(out_dir: String, tmp_dir: Option<String>) -> (c: Config)
        ensures
            c.wf(),
            c@.final_dir == out_dir@,
            c@.interval == DEFAULT_INTERVAL_SECS as int,
            c@.write_dir == (if tmp_dir is Some {
                tmp_dir->0@
            } else {
                out_dir@
            }),
    {
        Config::with_interval(out_dir, tmp_dir, DEFAULT_INTERVAL_SECS)
    }
}

/// One operation the driver must perform, in the order returned.
pub enum Action {
    /// Move the file at `from` to `to`; a failure is reported and not fatal.
    Relocate { from: String, to: String },
    /// Create (truncating if present) the file at `path` and make it the
    /// sink for following appends; a failure is fatal.
    Create { path: String },
    /// Append `line` and a newline to the sink; a failure is reported and
    /// not fatal.
    Append { line: String },
    /// Flush the sink; a failure is reported and not fatal.
    Flush,
}

/// How the failure of an action is treated by the driver.
#[derive(Debug, PartialEq, Eq, Structural)]
pub enum Severity {
    /// The process cannot go on: without a writable sink there is nothing to
    /// append to.
    Fatal,
    /// The failure is reported and the stream continues.
    Recoverable,
}

impl Action {
    /// The severity of this action's failure: only a file that cannot be
    /// created is fatal; a failed move leaves the file where it is, a failed
    /// append or flush loses at most that write, and all three are reported.
    pub fn severity_on_failure(&self) -> (s: Severity)
        ensures
            (s is Fatal) == (*self is Create),
    {
        match self {
            Action::Create { .. } => Severity::Fatal,
            _ => Severity::Recoverable,
        }
    }
}

/// An executable action carries out a spec-level one when its paths are the
/// ones the spec action's bucket and the configuration demand.
pub open spec fn act_matches(rc: RunConfig, a: Action, e: ActS) -> bool {
    match e {
        ActS::Relocate { bucket } => a matches Action::Relocate { from, to }
            && from@ == bucket_path(rc.write_dir, bucket) && to@ == bucket_path(
            rc.final_dir,
            bucket,
        ),
        ActS::Create { bucket } => a matches Action::Create { path } && path@ == bucket_path(
            rc.write_dir,
            bucket,
        ),
        ActS::Append { text } => a matches Action::Append { line } && line@ == text,
        ActS::Flush => a is Flush,
    }
}

/// The executable actions carry out the spec-level ones, one for one and in
/// order.
pub open spec fn acts_match(rc: RunConfig, acts: Seq<Action>, expected: Seq<ActS>) -> bool {
    acts.len() == expected.len() && forall|i: int|
        0 <= i < acts.len() ==> act_matches(rc, #[trigger] acts[i], expected[i])
}

/// The state of the writer: when the active file was opened, the name of its
/// minute bucket, and its full path inside the write directory.
pub struct Session {
    pub start_secs: i64,
    pub current_name: String,
    pub current_path: String,
}

impl Session {
    /// The session is well formed for a configuration when its start time is
    /// a valid timestamp and name and path are the ones of its minute bucket.
    pub open spec fn wf(self, c: Config) -> bool {
        &&& valid_secs(self.start_secs as int)
        &&& self.current_name@ == minute_name_of(minute_of(self.start_secs as int))
        &&& self.current_path@ == path_of(c@.write_dir, self.start_secs as int)
    }

    /// Opens the first file: the session starts at `now`, and the one action
    /// creates the file of `now`'s minute bucket in the write directory.
    pub fn init(c: &Config, now: i64) -> (r: (Session, Vec<Action>))
        requires
            c.wf(),
            valid_secs(now as int),
        ensures
            r.0.wf(*c),
            r.0.start_secs == now,
            acts_match(c@, r.1@, seq![ActS::Create { bucket: minute_of(now as int) }]),
    {
        let path = path_for(c.write_dir.as_str(), now);
        let name = crate::naming::name_for(now);
        let mut acts: Vec<Action> = Vec::new();
        acts.push(Action::Create { path: String::from_str(path.as_str()) });
        let s = Session { start_secs: now, current_name: name, current_path: path };
        (s, acts)
    }

    /// Handles one line read at time `now`: rotates first if `now` is more
    /// than the interval past the session's start (relocating the finished
    /// file when staging is enabled, then creating the new bucket's file),
    /// then appends the line and flushes.  The returned actions are exactly
    /// the spec-level ones of [`line_acts`]; the new start time is the one of
    /// [`line_next_start`].
    pub fn handle_line(&mut self, c: &Config, now: i64, line: &str) -> (acts: Vec<Action>)
        requires
            old(self).wf(*c),
            c.wf(),
            valid_secs(now as int),
        ensures
            final(self).wf(*c),
            final(self).start_secs as int == line_next_start(
                c@,
                old(self).start_secs as int,
                now as int,
            ),
            acts_match(
                c@,
                acts@,
                line_acts(c@, old(self).start_secs as int, now as int, line@),
            ),
    {
        let mut acts: Vec<Action> = Vec::new();
        if now - self.start_secs > c.interval_secs {
            if !str_eq(c.write_dir.as_str(), c.final_dir.as_str()) {
                let mut to = String::from_str(c.final_dir.as_str());
                to.append("/");
                to.append(self.current_name.as_str());
                proof {
                    reveal_strlit("/");
                    assert(to@ =~= bucket_path(c@.final_dir, minute_of(old(self).start_secs as int)));
                }
                acts.push(
                    Action::Relocate {
                        from: String::from_str(self.current_path.as_str()),
                        to,
                    },
                );
            }
            let path = path_for(c.write_dir.as_str(), now);
            let name = crate::naming::name_for(now);
            acts.push(Action::Create { path: String::from_str(path.as_str()) });
            self.start_secs = now;
            self.current_name = name;
            self.current_path = path;
        }
        acts.push(Action::Append { line: String::from_str(line) });
        acts.push(Action::Flush);
        acts
    }

    /// Ends the stream: when staging is enabled, the one action relocates
    /// the active file into the final directory; otherwise there is nothing
    /// to do.  The returned actions are exactly the spec-level ones of
    /// [`finish_acts`].
    pub fn finalize(self, c: &Config) -> (acts: Vec<Action>)
        requires
            self.wf(*c),
        ensures
            acts_match(c@, acts@, finish_acts(c@, self.start_secs as int)),
    {
        let mut acts: Vec<Action> = Vec::new();
        if !str_eq(c.write_dir.as_str(), c.final_dir.as_str()) {
            let mut to = String::from_str(c.final_dir.as_str());
            to.append("/");
            to.append(self.current_name.as_str());
            proof {
                reveal_strlit("/");
                assert(to@ =~= bucket_path(c@.final_dir, minute_of(self.start_secs as int)));
            }
            acts.push(Action::Relocate { from: self.current_path, to });
        }
        acts
    }
}

/// The rotation policy on plain values: a file opened at `start_secs` is
/// finished when a line arrives at `now`, strictly more than `interval_secs`
/// seconds later.
pub fn should_rotate(start_secs: i64, now: i64, interval_secs: i64) -> (r: bool)
    requires
        valid_secs(start_secs as int),
        valid_secs(now as int),
        interval_secs >= 1,
    ensures
        r == rotates(start_secs as int, now as int, interval_secs as int),
{
    now - start_secs > interval_secs
}

} // verus!
