//! The mathematical model of a run: the sequence of files that the rotating
//! writer produces, how each incoming line and each rotation changes it, and
//! the spec-level actions against which the executable functions are checked.
//!
//! A run's world is the sequence of files in creation order.  Appends and
//! file creations are modelled as succeeding (the driver reports a failed
//! append and continues, which no placement property speaks of); a failed
//! relocation is modelled, since it changes where a file ends up.

use vstd::prelude::*;
use crate::naming::{bucket_path, minute_of, valid_secs};

verus! {

/// The configuration a run is judged against: the directory the active file
/// is written in, the directory finished files must end up in, and the
/// rotation interval in seconds.
pub struct RunConfig {
    pub write_dir: Seq<char>,
    pub final_dir: Seq<char>,
    pub interval: int,
}

/// Staging is enabled when finished files must be moved between directories.
pub open spec fn staging(rc: RunConfig) -> bool {
    rc.write_dir != rc.final_dir
}

/// The rotation policy: a file opened at `start` is finished when a line
/// arrives strictly more than `interval` seconds later.
pub open spec fn rotates(start: int, now: int, interval: int) -> bool {
    now - start > interval
}

/// One input event: a line read at a time, together with whether the
/// relocation attempted on that occasion (if any) succeeds; or a failed read.
pub enum Event {
    Line { at: int, text: Seq<char>, move_ok: bool },
    ReadFail,
}

pub open spec fn is_line(e: Event) -> bool {
    e is Line
}

pub open spec fn line_at(e: Event) -> int
    recommends is_line(e),
{
    match e {
        Event::Line { at, .. } => at,
        Event::ReadFail => 0,
    }
}

/// Whether the event's relocation, if one is attempted, succeeds.
pub open spec fn line_move_ok(e: Event) -> bool {
    match e {
        Event::Line { move_ok, .. } => move_ok,
        Event::ReadFail => true,
    }
}

/// One produced file: the minute bucket that names it, the directory it
/// currently sits in, and its content.
pub struct FileRec {
    pub bucket: int,
    pub dir: Seq<char>,
    pub content: Seq<char>,
}

/// The state of a run: when the active file was opened, and all files
/// produced so far, in creation order; the last one is the active file.
pub struct RunState {
    pub start: int,
    pub files: Seq<FileRec>,
}

/// The state right after the writer opens its first file at time `t0`.
pub open spec fn init_run(rc: RunConfig, t0: int) -> RunState {
    RunState {
        start: t0,
        files: seq![
            FileRec { bucket: minute_of(t0), dir: rc.write_dir, content: Seq::empty() },
        ],
    }
}

/// Appending `text` and a newline to the active (last) file.
pub open spec fn append_last(files: Seq<FileRec>, text: Seq<char>) -> Seq<FileRec>
    recommends files.len() > 0,
{
    let i = files.len() - 1;
    files.update(
        i,
        FileRec { content: files[i].content + text + seq!['\n'], ..files[i] },
    )
}

/// Moving the active (last) file into the directory `to`.
pub open spec fn move_last(files: Seq<FileRec>, to: Seq<char>) -> Seq<FileRec>
    recommends files.len() > 0,
{
    let i = files.len() - 1;
    files.update(i, FileRec { dir: to, ..files[i] })
}

/// How one event changes the run: a failed read changes nothing; a line
/// first rotates if it arrives after the interval (moving the finished file
/// when staging is enabled and the move succeeds, then opening an empty file
/// for the line's minute bucket), and is then appended to the active file.
pub open spec fn step_run(rc: RunConfig, s: RunState, ev: Event) -> RunState {
    match ev {
        Event::ReadFail => s,
        Event::Line { at, text, move_ok } => {
            let s1 = if rotates(s.start, at, rc.interval) {
                let moved = if staging(rc) && move_ok {
                    move_last(s.files, rc.final_dir)
                } else {
                    s.files
                };
                RunState {
                    start: at,
                    files: moved.push(
                        FileRec { bucket: minute_of(at), dir: rc.write_dir, content: Seq::empty() },
                    ),
                }
            } else {
                s
            };
            RunState { files: append_last(s1.files, text), ..s1 }
        },
    }
}

/// The run over a whole event sequence, starting from the first file opened
/// at `t0`.
pub open spec fn run(rc: RunConfig, t0: int, evs: Seq<Event>) -> RunState
    decreases evs.len(),
{
    if evs.len() == 0 {
        init_run(rc, t0)
    } else {
        step_run(rc, run(rc, t0, evs.drop_last()), evs.last())
    }
}

/// The end of the stream: when staging is enabled and the final move
/// succeeds, the active file is relocated; otherwise nothing changes.
pub open spec fn finish_run(rc: RunConfig, s: RunState, move_ok: bool) -> RunState {
    if staging(rc) && move_ok {
        RunState { files: move_last(s.files, rc.final_dir), ..s }
    } else {
        s
    }
}

/// The time of the last line event, or `t0` if no line arrived.
pub open spec fn end_time(t0: int, evs: Seq<Event>) -> int
    decreases evs.len(),
{
    if evs.len() == 0 {
        t0
    } else {
        match evs.last() {
            Event::Line { at, .. } => at,
            Event::ReadFail => end_time(t0, evs.drop_last()),
        }
    }
}

/// All line texts of the events in order, each followed by a newline: what
/// the writer was asked to persist.
pub open spec fn lines_text(evs: Seq<Event>) -> Seq<char>
    decreases evs.len(),
{
    if evs.len() == 0 {
        Seq::empty()
    } else {
        match evs.last() {
            Event::Line { text, .. } => lines_text(evs.drop_last()) + text + seq!['\n'],
            Event::ReadFail => lines_text(evs.drop_last()),
        }
    }
}

/// The concatenation of all file contents in creation order.
pub open spec fn all_content(files: Seq<FileRec>) -> Seq<char>
    decreases files.len(),
{
    if files.len() == 0 {
        Seq::empty()
    } else {
        all_content(files.drop_last()) + files.last().content
    }
}

/// Well-formed events with respect to the run's start `t0`: every line time
/// is a valid timestamp no earlier than `t0`, and line times never decrease.
pub open spec fn times_ok(t0: int, evs: Seq<Event>) -> bool {
    &&& valid_secs(t0)
    &&& forall|i: int|
        0 <= i < evs.len() && is_line(evs[i]) ==> t0 <= #[trigger] line_at(evs[i])
            && valid_secs(line_at(evs[i]))
    &&& forall|i: int, j: int|
        0 <= i < j < evs.len() && is_line(evs[i]) && is_line(evs[j]) ==> #[trigger] line_at(evs[i])
            <= #[trigger] line_at(evs[j])
}

/// A spec-level action, identified by the minute bucket it concerns; the
/// executable [`crate::session::Action`]s are checked against these.
pub enum ActS {
    /// Move the finished bucket's file from the write to the final directory.
    Relocate { bucket: int },
    /// Create (truncating if present) and open the bucket's file for appends.
    Create { bucket: int },
    /// Append the text and a newline to the open file.
    Append { text: Seq<char> },
    /// Flush the open file.
    Flush,
}

/// The start time of the active file after a line arriving at `now` is
/// handled: rotation makes `now` the new start.
pub open spec fn line_next_start(rc: RunConfig, start: int, now: int) -> int {
    if rotates(start, now, rc.interval) {
        now
    } else {
        start
    }
}

/// The actions a line arriving at `now` demands: on rotation, relocation of
/// the finished file (only when staging is enabled) and creation of the new
/// one; always, the append and the flush.
pub open spec fn line_acts(rc: RunConfig, start: int, now: int, text: Seq<char>) -> Seq<ActS> {
    let tail = seq![ActS::Append { text }, ActS::Flush];
    if rotates(start, now, rc.interval) {
        if staging(rc) {
            seq![
                ActS::Relocate { bucket: minute_of(start) },
                ActS::Create { bucket: minute_of(now) },
            ] + tail
        } else {
            seq![ActS::Create { bucket: minute_of(now) }] + tail
        }
    } else {
        tail
    }
}

/// The actions the end of the stream demands: one relocation of the active
/// file when staging is enabled, nothing otherwise.
pub open spec fn finish_acts(rc: RunConfig, start: int) -> Seq<ActS> {
    if staging(rc) {
        seq![ActS::Relocate { bucket: minute_of(start) }]
    } else {
        seq![]
    }
}

/// The effect of one spec-level action on the files, `move_ok` saying
/// whether a relocation succeeds: a failed relocation leaves the file where
/// it is.
pub open spec fn apply_act(rc: RunConfig, files: Seq<FileRec>, a: ActS, move_ok: bool) -> Seq<
    FileRec,
> {
    match a {
        ActS::Relocate { .. } => if move_ok {
            move_last(files, rc.final_dir)
        } else {
            files
        },
        ActS::Create { bucket } => files.push(
            FileRec { bucket, dir: rc.write_dir, content: Seq::empty() },
        ),
        ActS::Append { text } => append_last(files, text),
        ActS::Flush => files,
    }
}

/// The effect of a sequence of spec-level actions, applied in order.
pub open spec fn apply_acts(
    rc: RunConfig,
    files: Seq<FileRec>,
    acts: Seq<ActS>,
    move_ok: bool,
) -> Seq<FileRec>
    decreases acts.len(),
{
    if acts.len() == 0 {
        files
    } else {
        apply_act(rc, apply_acts(rc, files, acts.drop_last(), move_ok), acts.last(), move_ok)
    }
}

} // verus!
