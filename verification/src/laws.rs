//! The laws of the rotating writer, proved over the run model of
//! [`crate::model`]: how many files a run produces, that their concatenation
//! reproduces the input, where the files end up with and without a staging
//! directory, and that a failed read changes nothing.

use vstd::prelude::*;
use vstd::arithmetic::div_mod::{
    lemma_div_is_ordered, lemma_div_multiples_vanish, lemma_fundamental_div_mod, lemma_mod_bound,
};
use crate::model::{
    ActS, Event, FileRec, RunConfig, RunState, all_content, append_last, apply_act, apply_acts,
    end_time, finish_acts, finish_run, init_run, is_line, line_acts, line_at, line_move_ok,
    lines_text, move_last, rotates, run, staging, step_run, times_ok,
};
use crate::naming::{minute_of, valid_secs};

verus! {

/// The quotient of `a` by `b`, rounded up.
pub open spec fn ceil_div(a: int, b: int) -> int
    recommends
        b >= 1,
{
    (a + b - 1) / b
}

/// Division pinned to a range: when `a` lies in the `q`-th window of width
/// `b`, the quotient is `q`.
proof fn lemma_div_exact(a: int, b: int, q: int)
    requires
        b >= 1,
        q * b <= a < (q + 1) * b,
    ensures
        a / b == q,
{
    lemma_fundamental_div_mod(a, b);
    lemma_mod_bound(a, b);
    let r = a % b;
    assert(a == b * (a / b) + r);
    assert(a / b == q) by (nonlinear_arith)
        requires
            b >= 1,
            q * b <= a < (q + 1) * b,
            a == b * (a / b) + r,
            0 <= r < b,
    ;
}

/// A timestamp more than a minute later falls into a strictly later minute
/// bucket.
proof fn lemma_minute_advances(a: int, b: int)
    requires
        0 <= a,
        a + 60 < b,
    ensures
        minute_of(a) < minute_of(b),
{
    let q = a / 60;
    lemma_fundamental_div_mod(a, 60);
    lemma_mod_bound(a, 60);
    assert(b >= 60 * (q + 1)) by (nonlinear_arith)
        requires
            a == 60 * q + a % 60,
            0 <= a % 60 < 60,
            a + 60 < b,
    ;
    lemma_div_multiples_vanish(q + 1, 60);
    lemma_div_is_ordered(60 * (q + 1), b, 60);
}

/// `times_ok` restricted to a prefix still holds.
proof fn lemma_times_ok_drop_last(t0: int, evs: Seq<Event>)
    requires
        times_ok(t0, evs),
        evs.len() > 0,
    ensures
        times_ok(t0, evs.drop_last()),
{
    assert forall|i: int| 0 <= i < evs.drop_last().len() && is_line(evs.drop_last()[i]) implies t0
        <= #[trigger] line_at(evs.drop_last()[i]) && valid_secs(line_at(evs.drop_last()[i])) by {
        assert(evs.drop_last()[i] == evs[i]);
    }
    assert forall|i: int, j: int|
        0 <= i < j < evs.drop_last().len() && is_line(evs.drop_last()[i]) && is_line(
            evs.drop_last()[j],
        ) implies #[trigger] line_at(evs.drop_last()[i]) <= #[trigger] line_at(
        evs.drop_last()[j],
    ) by {
        assert(evs.drop_last()[i] == evs[i]);
        assert(evs.drop_last()[j] == evs[j]);
    }
}

/// The time of the last line never exceeds a bound that all line times obey.
proof fn lemma_end_time_bounded(t0: int, evs: Seq<Event>, m: int)
    requires
        t0 <= m,
        forall|i: int| 0 <= i < evs.len() && is_line(evs[i]) ==> #[trigger] line_at(evs[i]) <= m,
    ensures
        end_time(t0, evs) <= m,
    decreases evs.len(),
{
    if evs.len() > 0 {
        match evs.last() {
            Event::Line { at, .. } => {
                assert(evs[evs.len() - 1] == evs.last());
                assert(is_line(evs[evs.len() - 1]));
                assert(line_at(evs[evs.len() - 1]) == at);
            },
            Event::ReadFail => {
                lemma_end_time_bounded(t0, evs.drop_last(), m);
            },
        }
    }
}

/// Dropping the last event cannot make the last line's time later.
proof fn lemma_end_time_mono(t0: int, evs: Seq<Event>)
    requires
        times_ok(t0, evs),
        evs.len() > 0,
    ensures
        end_time(t0, evs.drop_last()) <= end_time(t0, evs),
{
    lemma_times_ok_drop_last(t0, evs);
    match evs.last() {
        Event::ReadFail => {},
        Event::Line { at, .. } => {
            assert(evs[evs.len() - 1] == evs.last());
            assert(is_line(evs[evs.len() - 1]));
            assert(line_at(evs[evs.len() - 1]) == at);
            assert forall|i: int|
                0 <= i < evs.drop_last().len() && is_line(evs.drop_last()[i]) implies #[trigger]
                line_at(evs.drop_last()[i]) <= at by {
                assert(evs.drop_last()[i] == evs[i]);
                assert(line_at(evs[i]) <= line_at(evs[evs.len() - 1]));
            }
            lemma_end_time_bounded(t0, evs.drop_last(), at);
        },
    }
}

/// The time of the last line is itself a line time, or `t0` if none arrived.
proof fn lemma_end_time_reached(t0: int, evs: Seq<Event>)
    requires
        times_ok(t0, evs),
    ensures
        t0 <= end_time(t0, evs),
        forall|i: int|
            0 <= i < evs.len() && is_line(evs[i]) ==> #[trigger] line_at(evs[i]) <= end_time(
                t0,
                evs,
            ),
    decreases evs.len(),
{
    if evs.len() > 0 {
        lemma_times_ok_drop_last(t0, evs);
        lemma_end_time_reached(t0, evs.drop_last());
        match evs.last() {
            Event::Line { at, .. } => {
                assert(evs[evs.len() - 1] == evs.last());
                assert(is_line(evs[evs.len() - 1]));
                assert(line_at(evs[evs.len() - 1]) == at);
                assert(t0 <= at);
                assert forall|i: int| 0 <= i < evs.len() && is_line(evs[i]) implies #[trigger]
                    line_at(evs[i]) <= end_time(t0, evs) by {
                    if i < evs.len() - 1 {
                        assert(line_at(evs[i]) <= line_at(evs[evs.len() - 1]));
                    }
                }
            },
            Event::ReadFail => {
                assert forall|i: int| 0 <= i < evs.len() && is_line(evs[i]) implies #[trigger]
                    line_at(evs[i]) <= end_time(t0, evs) by {
                    assert(i < evs.len() - 1);
                    assert(evs.drop_last()[i] == evs[i]);
                    assert(line_at(evs.drop_last()[i]) <= end_time(t0, evs.drop_last()));
                }
            },
        }
    }
}

/// What holds of every run: at least one file exists; the active (last) file
/// sits in the write directory and is named by the minute bucket of the
/// session's start; the start is a valid timestamp between `t0` and the last
/// line's time; and each of the `n` files consumed strictly more than an
/// interval, so the start is at least `t0 + (n - 1) * (interval + 1)`.
pub proof fn lemma_run_basic(rc: RunConfig, t0: int, evs: Seq<Event>)
    requires
        times_ok(t0, evs),
        rc.interval >= 1,
    ensures
        ({
            let s = run(rc, t0, evs);
            &&& s.files.len() >= 1
            &&& s.files.last().dir == rc.write_dir
            &&& s.files.last().bucket == minute_of(s.start)
            &&& valid_secs(s.start)
            &&& t0 <= s.start
            &&& s.start <= end_time(t0, evs)
            &&& s.start >= t0 + (s.files.len() - 1) * (rc.interval + 1)
        }),
    decreases evs.len(),
{
    if evs.len() == 0 {
    } else {
        lemma_times_ok_drop_last(t0, evs);
        lemma_run_basic(rc, t0, evs.drop_last());
        let pre = run(rc, t0, evs.drop_last());
        let s = run(rc, t0, evs);
        match evs.last() {
            Event::ReadFail => {},
            Event::Line { at, text, move_ok } => {
                assert(evs[evs.len() - 1] == evs.last());
                assert(is_line(evs[evs.len() - 1]));
                assert(line_at(evs[evs.len() - 1]) == at);
                assert(t0 <= at && valid_secs(at));
                lemma_end_time_mono(t0, evs);
                if rotates(pre.start, at, rc.interval) {
                    let n1 = pre.files.len() as int;
                    assert(t0 + n1 * (rc.interval + 1) <= t0 + (n1 - 1) * (rc.interval + 1) + (
                    rc.interval + 1)) by (nonlinear_arith);
                    assert(s.files.len() == n1 + 1);
                } else {
                }
            },
        }
    }
}

/// Lines that all arrive within one interval of the start never rotate: the
/// whole run is one file.  In particular a run of exactly one interval does
/// not open a second file, since the rotation comparison is strictly
/// greater-than.
pub proof fn lemma_single_file(rc: RunConfig, t0: int, evs: Seq<Event>)
    requires
        times_ok(t0, evs),
        rc.interval >= 1,
        forall|i: int|
            0 <= i < evs.len() && is_line(evs[i]) ==> #[trigger] line_at(evs[i]) <= t0
                + rc.interval,
    ensures
        run(rc, t0, evs).files.len() == 1,
        run(rc, t0, evs).start == t0,
    decreases evs.len(),
{
    if evs.len() > 0 {
        lemma_times_ok_drop_last(t0, evs);
        assert forall|i: int|
            0 <= i < evs.drop_last().len() && is_line(evs.drop_last()[i]) implies #[trigger]
            line_at(evs.drop_last()[i]) <= t0 + rc.interval by {
            assert(evs.drop_last()[i] == evs[i]);
            assert(line_at(evs[i]) <= t0 + rc.interval);
        }
        lemma_single_file(rc, t0, evs.drop_last());
        match evs.last() {
            Event::ReadFail => {},
            Event::Line { at, .. } => {
                assert(evs[evs.len() - 1] == evs.last());
                assert(is_line(evs[evs.len() - 1]));
                assert(line_at(evs[evs.len() - 1]) == at);
                assert(at <= t0 + rc.interval);
            },
        }
    }
}

/// A line arriving strictly later than one interval past `t0` has forced a
/// rotation: either two files exist, or every line so far fit in the first
/// interval.
proof fn lemma_rotation_forced(rc: RunConfig, t0: int, evs: Seq<Event>)
    requires
        times_ok(t0, evs),
        rc.interval >= 1,
    ensures
        ({
            let s = run(rc, t0, evs);
            s.files.len() >= 2 || (s.start == t0 && end_time(t0, evs) <= t0 + rc.interval)
        }),
    decreases evs.len(),
{
    if evs.len() > 0 {
        lemma_times_ok_drop_last(t0, evs);
        lemma_rotation_forced(rc, t0, evs.drop_last());
        lemma_run_basic(rc, t0, evs.drop_last());
        let pre = run(rc, t0, evs.drop_last());
        match evs.last() {
            Event::ReadFail => {},
            Event::Line { at, .. } => {
                assert(evs[evs.len() - 1] == evs.last());
                assert(is_line(evs[evs.len() - 1]));
                assert(line_at(evs[evs.len() - 1]) == at);
            },
        }
    }
}

/// Over any run, each file past the first took strictly more than one
/// interval, so a run spanning `span` seconds from `t0` to its last line
/// holds at most `ceil(span / interval)` files (and always at least one).
pub proof fn lemma_file_count_at_most_ceil(rc: RunConfig, t0: int, evs: Seq<Event>)
    requires
        times_ok(t0, evs),
        rc.interval >= 1,
    ensures
        ({
            let n = run(rc, t0, evs).files.len() as int;
            let span = end_time(t0, evs) - t0;
            n >= 1 && (n >= 2 ==> n <= ceil_div(span, rc.interval))
        }),
{
    lemma_run_basic(rc, t0, evs);
    let s = run(rc, t0, evs);
    let n = s.files.len() as int;
    let iv = rc.interval;
    let span = end_time(t0, evs) - t0;
    if n >= 2 {
        assert((n - 1) * (iv + 1) >= (n - 1) * iv + 1) by (nonlinear_arith)
            requires
                n >= 2,
                iv >= 1,
        ;
        assert(span >= (n - 1) * iv + 1);
        assert((n - 1) * iv + 1 + iv - 1 == iv * n) by (nonlinear_arith);
        lemma_div_is_ordered(iv * n, span + iv - 1, iv);
        lemma_div_multiples_vanish(n, iv);
    }
}

/// The file count is exactly `ceil(span / interval)` (at least one file) for
/// runs of up to two intervals: one file up to the interval, two past it.
/// Past two intervals the equality can fail, since a rotation restarts the
/// clock at the triggering line's own time, later than the bucket boundary.
pub proof fn lemma_file_count_exact(rc: RunConfig, t0: int, evs: Seq<Event>)
    requires
        times_ok(t0, evs),
        rc.interval >= 1,
        end_time(t0, evs) - t0 <= 2 * rc.interval,
    ensures
        ({
            let n = run(rc, t0, evs).files.len() as int;
            let span = end_time(t0, evs) - t0;
            n == (if span <= rc.interval {
                1int
            } else {
                2int
            }) && n == (if ceil_div(span, rc.interval) >= 1 {
                ceil_div(span, rc.interval)
            } else {
                1int
            })
        }),
{
    lemma_end_time_reached(t0, evs);
    let n = run(rc, t0, evs).files.len() as int;
    let iv = rc.interval;
    let span = end_time(t0, evs) - t0;
    if span <= iv {
        assert forall|i: int| 0 <= i < evs.len() && is_line(evs[i]) implies #[trigger] line_at(
            evs[i],
        ) <= t0 + rc.interval by {
            assert(line_at(evs[i]) <= end_time(t0, evs));
        }
        lemma_single_file(rc, t0, evs);
        if span == 0 {
            lemma_div_exact(span + iv - 1, iv, 0);
        } else {
            lemma_div_exact(span + iv - 1, iv, 1);
        }
    } else {
        lemma_rotation_forced(rc, t0, evs);
        lemma_file_count_at_most_ceil(rc, t0, evs);
        lemma_div_exact(span + iv - 1, iv, 2);
    }
}

/// Strictly increasing buckets survive a bucket-preserving rewrite.
proof fn lemma_buckets_preserved(a: Seq<FileRec>, b: Seq<FileRec>)
    requires
        a.len() == b.len(),
        forall|i: int| 0 <= i < a.len() ==> a[i].bucket == #[trigger] b[i].bucket,
        forall|i: int, j: int| 0 <= i < j < a.len() ==> #[trigger] a[i].bucket < #[trigger] a[j].bucket,
    ensures
        forall|i: int, j: int| 0 <= i < j < b.len() ==> #[trigger] b[i].bucket < #[trigger] b[j].bucket,
{
    assert forall|i: int, j: int| 0 <= i < j < b.len() implies #[trigger] b[i].bucket
        < #[trigger] b[j].bucket by {
        assert(a[i].bucket < a[j].bucket);
    }
}

/// Appending to the active file extends the concatenation of all contents by
/// the line and its newline.
proof fn lemma_all_content_append(files: Seq<FileRec>, text: Seq<char>)
    requires
        files.len() >= 1,
    ensures
        all_content(append_last(files, text)) == all_content(files) + text + seq!['\n'],
{
    let g = append_last(files, text);
    assert(g.drop_last() =~= files.drop_last());
    assert(g.last().content == files.last().content + text + seq!['\n']);
    assert(all_content(g) == all_content(files.drop_last()) + g.last().content);
    assert(all_content(files.drop_last()) + (files.last().content + text + seq!['\n']) =~= (
    all_content(files.drop_last()) + files.last().content) + text + seq!['\n']);
}

/// A freshly created file adds nothing to the concatenation of all contents.
proof fn lemma_all_content_push_empty(files: Seq<FileRec>, rec: FileRec)
    requires
        rec.content == Seq::<char>::empty(),
    ensures
        all_content(files.push(rec)) == all_content(files),
{
    let g = files.push(rec);
    assert(g.drop_last() =~= files);
    assert(all_content(g) == all_content(files) + rec.content);
    assert(all_content(files) + Seq::<char>::empty() =~= all_content(files));
}

/// Relocating the active file changes no content.
proof fn lemma_all_content_move_last(files: Seq<FileRec>, to: Seq<char>)
    requires
        files.len() >= 1,
    ensures
        all_content(move_last(files, to)) == all_content(files),
        move_last(files, to).len() == files.len(),
        forall|i: int|
            0 <= i < files.len() ==> #[trigger] move_last(files, to)[i].bucket == files[i].bucket
                && move_last(files, to)[i].content == files[i].content,
{
    let g = move_last(files, to);
    assert(g.drop_last() =~= files.drop_last());
    assert(g.last().content == files.last().content);
    assert(all_content(g) == all_content(files.drop_last()) + files.last().content);
}

/// Run-level round trip: the concatenation of all file contents, in creation
/// order, is the input lines in order, each followed by one newline; and the
/// files' minute buckets strictly increase in creation order, so the files
/// are distinct and creation order is chronological order.
proof fn lemma_round_trip_run(rc: RunConfig, t0: int, evs: Seq<Event>)
    requires
        times_ok(t0, evs),
        rc.interval >= 60,
    ensures
        ({
            let s = run(rc, t0, evs);
            all_content(s.files) == lines_text(evs) && forall|i: int, j: int|
                0 <= i < j < s.files.len() ==> #[trigger] s.files[i].bucket
                    < #[trigger] s.files[j].bucket
        }),
    decreases evs.len(),
{
    let s = run(rc, t0, evs);
    if evs.len() == 0 {
        assert(s.files.drop_last() =~= Seq::<FileRec>::empty());
        assert(all_content(s.files) == all_content(Seq::<FileRec>::empty())
            + s.files.last().content);
        assert(Seq::<char>::empty() + Seq::<char>::empty() =~= Seq::<char>::empty());
    } else {
        lemma_times_ok_drop_last(t0, evs);
        lemma_round_trip_run(rc, t0, evs.drop_last());
        lemma_run_basic(rc, t0, evs.drop_last());
        let pre = run(rc, t0, evs.drop_last());
        match evs.last() {
            Event::ReadFail => {},
            Event::Line { at, text, move_ok } => {
                assert(evs[evs.len() - 1] == evs.last());
                assert(is_line(evs[evs.len() - 1]));
                assert(line_at(evs[evs.len() - 1]) == at);
                if rotates(pre.start, at, rc.interval) {
                    lemma_minute_advances(pre.start, at);
                    let nb = minute_of(at);
                    let moved = if staging(rc) && move_ok {
                        move_last(pre.files, rc.final_dir)
                    } else {
                        pre.files
                    };
                    if staging(rc) && move_ok {
                        lemma_all_content_move_last(pre.files, rc.final_dir);
                    }
                    lemma_buckets_preserved(pre.files, moved);
                    assert(forall|i: int|
                        0 <= i < moved.len() ==> #[trigger] moved[i].bucket
                            == pre.files[i].bucket);
                    let created = moved.push(
                        FileRec { bucket: nb, dir: rc.write_dir, content: Seq::empty() },
                    );
                    lemma_all_content_push_empty(
                        moved,
                        FileRec { bucket: nb, dir: rc.write_dir, content: Seq::empty() },
                    );
                    assert forall|i: int, j: int| 0 <= i < j < created.len() implies #[trigger]
                        created[i].bucket < #[trigger] created[j].bucket by {
                        if j < created.len() - 1 {
                            assert(created[i].bucket == pre.files[i].bucket);
                            assert(created[j].bucket == pre.files[j].bucket);
                            assert(pre.files[i].bucket < pre.files[j].bucket);
                        } else {
                            assert(created[j].bucket == nb);
                            assert(created[i].bucket == pre.files[i].bucket);
                            if i < pre.files.len() - 1 {
                                assert(pre.files[i].bucket < pre.files[pre.files.len() - 1].bucket);
                            }
                            assert(pre.files[pre.files.len() - 1].bucket == minute_of(pre.start));
                        }
                    }
                    lemma_all_content_append(created, text);
                    lemma_buckets_preserved(created, s.files);
                } else {
                    lemma_all_content_append(pre.files, text);
                    lemma_buckets_preserved(pre.files, s.files);
                }
            },
        }
    }
}

/// Round trip: after the stream ends, concatenating every produced file's
/// content in creation order — chronological order, since the files' minute
/// buckets strictly increase — reproduces the input lines in order, each
/// followed by exactly one newline.  Holds for the rotation interval of one
/// minute and above: a shorter interval could reuse a minute's name.
pub proof fn lemma_round_trip(rc: RunConfig, t0: int, evs: Seq<Event>, end_move_ok: bool)
    requires
        times_ok(t0, evs),
        rc.interval >= 60,
    ensures
        ({
            let s = finish_run(rc, run(rc, t0, evs), end_move_ok);
            all_content(s.files) == lines_text(evs) && forall|i: int, j: int|
                0 <= i < j < s.files.len() ==> #[trigger] s.files[i].bucket
                    < #[trigger] s.files[j].bucket
        }),
{
    lemma_round_trip_run(rc, t0, evs);
    lemma_run_basic(rc, t0, evs);
    let s0 = run(rc, t0, evs);
    let s = finish_run(rc, s0, end_move_ok);
    if staging(rc) && end_move_ok {
        lemma_all_content_move_last(s0.files, rc.final_dir);
        lemma_buckets_preserved(s0.files, s.files);
    }
}

/// When the staging and the final directory are one, relocation never
/// happens: a line's actions never hold one, nor do the end-of-stream
/// actions.
pub proof fn lemma_no_staging_no_relocation(
    rc: RunConfig,
    start: int,
    now: int,
    text: Seq<char>,
)
    requires
        !staging(rc),
    ensures
        forall|k: int|
            0 <= k < line_acts(rc, start, now, text).len() ==> !(#[trigger] line_acts(
                rc,
                start,
                now,
                text,
            )[k] is Relocate),
        finish_acts(rc, start).len() == 0,
{
}

/// When the staging and the final directory are one, every file of the run
/// sits in the final directory.
proof fn lemma_no_staging_all_final_run(rc: RunConfig, t0: int, evs: Seq<Event>)
    requires
        !staging(rc),
    ensures
        ({
            let s = run(rc, t0, evs);
            s.files.len() >= 1 && forall|i: int|
                0 <= i < s.files.len() ==> #[trigger] s.files[i].dir == rc.final_dir
        }),
    decreases evs.len(),
{
    if evs.len() == 0 {
    } else {
        lemma_no_staging_all_final_run(rc, t0, evs.drop_last());
        let pre = run(rc, t0, evs.drop_last());
        let s = run(rc, t0, evs);
        match evs.last() {
            Event::ReadFail => {},
            Event::Line { at, text, move_ok } => {
                if rotates(pre.start, at, rc.interval) {
                    assert forall|i: int| 0 <= i < s.files.len() implies #[trigger] s.files[i].dir
                        == rc.final_dir by {
                        if i < pre.files.len() {
                            assert(s.files[i] == pre.files[i]);
                            assert(pre.files[i].dir == rc.final_dir);
                        }
                    }
                } else {
                    assert(s.files == append_last(pre.files, text));
                    assert(s.files.len() == pre.files.len());
                    assert forall|i: int| 0 <= i < s.files.len() implies #[trigger] s.files[i].dir
                        == rc.final_dir by {
                        assert(pre.files[i].dir == rc.final_dir);
                        if i < pre.files.len() - 1 {
                            assert(s.files[i] == pre.files[i]);
                        } else {
                            assert(s.files[i].dir == pre.files[i].dir);
                        }
                    }
                }
            },
        }
    }
}

/// When the staging and the final directory are one, every file of a run
/// sits in the final directory from creation on, and the end of the stream
/// changes nothing.
pub proof fn lemma_no_staging_all_final(
    rc: RunConfig,
    t0: int,
    evs: Seq<Event>,
    end_move_ok: bool,
)
    requires
        !staging(rc),
    ensures
        finish_run(rc, run(rc, t0, evs), end_move_ok) == run(rc, t0, evs),
        ({
            let s = finish_run(rc, run(rc, t0, evs), end_move_ok);
            forall|i: int| 0 <= i < s.files.len() ==> #[trigger] s.files[i].dir == rc.final_dir
        }),
{
    lemma_no_staging_all_final_run(rc, t0, evs);
}

/// While the stream is open the active file sits in the write directory:
/// with a staging directory, a consumer of the final directory never sees a
/// partially written file.
pub proof fn lemma_active_file_staged(rc: RunConfig, t0: int, evs: Seq<Event>)
    requires
        times_ok(t0, evs),
        rc.interval >= 1,
    ensures
        run(rc, t0, evs).files.last().dir == rc.write_dir,
{
    lemma_run_basic(rc, t0, evs);
}

/// On rotation with staging, the finished file keeps its bucket (and with it
/// its name) and its content, and ends up in the final directory when the
/// move succeeds; when the move fails it simply stays where it was.
pub proof fn lemma_rotation_relocates(
    rc: RunConfig,
    s: RunState,
    at: int,
    text: Seq<char>,
    move_ok: bool,
)
    requires
        staging(rc),
        s.files.len() >= 1,
        rotates(s.start, at, rc.interval),
    ensures
        ({
            let s2 = step_run(rc, s, Event::Line { at, text, move_ok });
            let i = s.files.len() - 1;
            &&& s2.files.len() == s.files.len() + 1
            &&& s2.files[i].bucket == s.files[i].bucket
            &&& s2.files[i].content == s.files[i].content
            &&& s2.files[i].dir == (if move_ok {
                rc.final_dir
            } else {
                s.files[i].dir
            })
            &&& forall|j: int| 0 <= j < i ==> #[trigger] s2.files[j] == s.files[j]
        }),
{
}

/// At the end of the stream with staging, the active file keeps its bucket
/// and content, and ends up in the final directory when the move succeeds;
/// when the move fails it stays in the write directory.  Earlier files do
/// not change.
pub proof fn lemma_finish_relocates(rc: RunConfig, s: RunState, move_ok: bool)
    requires
        staging(rc),
        s.files.len() >= 1,
    ensures
        ({
            let s2 = finish_run(rc, s, move_ok);
            let i = s.files.len() - 1;
            &&& s2.files.len() == s.files.len()
            &&& s2.files[i].bucket == s.files[i].bucket
            &&& s2.files[i].content == s.files[i].content
            &&& s2.files[i].dir == (if move_ok {
                rc.final_dir
            } else {
                s.files[i].dir
            })
            &&& forall|j: int| 0 <= j < i ==> #[trigger] s2.files[j] == s.files[j]
        }),
{
}

/// With staging, every file other than the active one has been relocated.
proof fn lemma_staging_moved_run(rc: RunConfig, t0: int, evs: Seq<Event>)
    requires
        times_ok(t0, evs),
        rc.interval >= 1,
        staging(rc),
        forall|i: int| 0 <= i < evs.len() ==> #[trigger] line_move_ok(evs[i]),
    ensures
        ({
            let s = run(rc, t0, evs);
            forall|i: int|
                0 <= i < s.files.len() - 1 ==> #[trigger] s.files[i].dir == rc.final_dir
        }),
    decreases evs.len(),
{
    if evs.len() > 0 {
        lemma_times_ok_drop_last(t0, evs);
        assert forall|i: int| 0 <= i < evs.drop_last().len() implies #[trigger] line_move_ok(
            evs.drop_last()[i],
        ) by {
            assert(evs.drop_last()[i] == evs[i]);
            assert(line_move_ok(evs[i]));
        }
        lemma_staging_moved_run(rc, t0, evs.drop_last());
        lemma_run_basic(rc, t0, evs.drop_last());
        let pre = run(rc, t0, evs.drop_last());
        let s = run(rc, t0, evs);
        match evs.last() {
            Event::ReadFail => {},
            Event::Line { at, text, move_ok } => {
                assert(evs[evs.len() - 1] == evs.last());
                assert(line_move_ok(evs[evs.len() - 1]) == move_ok);
                if rotates(pre.start, at, rc.interval) {
                    let moved = move_last(pre.files, rc.final_dir);
                    assert forall|i: int| 0 <= i < s.files.len() - 1 implies #[trigger] s.files[i].dir
                        == rc.final_dir by {
                        if i < pre.files.len() - 1 {
                            assert(pre.files[i].dir == rc.final_dir);
                            assert(moved[i] == pre.files[i]);
                        }
                    }
                } else {
                    assert forall|i: int| 0 <= i < s.files.len() - 1 implies #[trigger] s.files[i].dir
                        == rc.final_dir by {
                        assert(pre.files[i].dir == rc.final_dir);
                        assert(s.files[i] == pre.files[i]);
                    }
                }
            },
        }
    }
}

/// With staging and no failed move, after the stream ends every produced
/// file sits in the final directory, under its unchanged name.
pub proof fn lemma_staging_all_moved(rc: RunConfig, t0: int, evs: Seq<Event>)
    requires
        times_ok(t0, evs),
        rc.interval >= 1,
        staging(rc),
        forall|i: int| 0 <= i < evs.len() ==> #[trigger] line_move_ok(evs[i]),
    ensures
        ({
            let s = finish_run(rc, run(rc, t0, evs), true);
            forall|i: int| 0 <= i < s.files.len() ==> #[trigger] s.files[i].dir == rc.final_dir
        }),
{
    lemma_staging_moved_run(rc, t0, evs);
    lemma_run_basic(rc, t0, evs);
    let s0 = run(rc, t0, evs);
    lemma_finish_relocates(rc, s0, true);
    let s = finish_run(rc, s0, true);
    assert forall|i: int| 0 <= i < s.files.len() implies #[trigger] s.files[i].dir
        == rc.final_dir by {
        if i < s0.files.len() - 1 {
            assert(s.files[i] == s0.files[i]);
            assert(s0.files[i].dir == rc.final_dir);
        }
    }
}

/// Applying one action to a sequence of none is that action's effect.
proof fn lemma_apply_one(rc: RunConfig, files: Seq<FileRec>, a0: ActS, move_ok: bool)
    ensures
        apply_acts(rc, files, seq![a0], move_ok) == apply_act(rc, files, a0, move_ok),
{
    assert(seq![a0].drop_last() =~= Seq::<ActS>::empty());
    assert(seq![a0].last() == a0);
    assert(apply_acts(rc, files, Seq::<ActS>::empty(), move_ok) == files);
}

/// Applying one action more applies it after the others.
proof fn lemma_apply_push(
    rc: RunConfig,
    files: Seq<FileRec>,
    acts: Seq<ActS>,
    x: ActS,
    move_ok: bool,
)
    ensures
        apply_acts(rc, files, acts.push(x), move_ok) == apply_act(
            rc,
            apply_acts(rc, files, acts, move_ok),
            x,
            move_ok,
        ),
{
    assert(acts.push(x).drop_last() =~= acts);
    assert(acts.push(x).last() == x);
}

/// Performing the opening action on no files at all yields the run's initial
/// world: the first file, empty, in the write directory.
pub proof fn lemma_init_act_carries_init(rc: RunConfig, t0: int, move_ok: bool)
    ensures
        apply_acts(
            rc,
            Seq::<FileRec>::empty(),
            seq![ActS::Create { bucket: minute_of(t0) }],
            move_ok,
        ) == init_run(rc, t0).files,
{
    lemma_apply_one(rc, Seq::<FileRec>::empty(), ActS::Create { bucket: minute_of(t0) }, move_ok);
    assert(apply_act(
        rc,
        Seq::<FileRec>::empty(),
        ActS::Create { bucket: minute_of(t0) },
        move_ok,
    ) =~= init_run(rc, t0).files);
}

/// Performing a line's actions in order carries the world to exactly the
/// state the run takes on that line, whatever the relocation outcome.
pub proof fn lemma_line_acts_carry_step(
    rc: RunConfig,
    s: RunState,
    at: int,
    text: Seq<char>,
    move_ok: bool,
)
    requires
        s.files.len() >= 1,
    ensures
        apply_acts(rc, s.files, line_acts(rc, s.start, at, text), move_ok) == step_run(
            rc,
            s,
            Event::Line { at, text, move_ok },
        ).files,
{
    let acts = line_acts(rc, s.start, at, text);
    let app = ActS::Append { text };
    let flu = ActS::Flush;
    if rotates(s.start, at, rc.interval) {
        let cre = ActS::Create { bucket: minute_of(at) };
        if staging(rc) {
            let rel = ActS::Relocate { bucket: minute_of(s.start) };
            assert(acts =~= seq![rel].push(cre).push(app).push(flu));
            lemma_apply_one(rc, s.files, rel, move_ok);
            lemma_apply_push(rc, s.files, seq![rel], cre, move_ok);
            lemma_apply_push(rc, s.files, seq![rel].push(cre), app, move_ok);
            lemma_apply_push(rc, s.files, seq![rel].push(cre).push(app), flu, move_ok);
        } else {
            assert(acts =~= seq![cre].push(app).push(flu));
            lemma_apply_one(rc, s.files, cre, move_ok);
            lemma_apply_push(rc, s.files, seq![cre], app, move_ok);
            lemma_apply_push(rc, s.files, seq![cre].push(app), flu, move_ok);
        }
    } else {
        assert(acts =~= seq![app].push(flu));
        lemma_apply_one(rc, s.files, app, move_ok);
        lemma_apply_push(rc, s.files, seq![app], flu, move_ok);
    }
}

/// Performing the end-of-stream actions carries the world to exactly the
/// state the run ends in, whatever the relocation outcome.
pub proof fn lemma_finish_acts_carry_finish(rc: RunConfig, s: RunState, move_ok: bool)
    requires
        s.files.len() >= 1,
    ensures
        apply_acts(rc, s.files, finish_acts(rc, s.start), move_ok) == finish_run(
            rc,
            s,
            move_ok,
        ).files,
{
    if staging(rc) {
        lemma_apply_one(rc, s.files, ActS::Relocate { bucket: minute_of(s.start) }, move_ok);
    }
}

/// A failed read leaves the run exactly as it would be had the event never
/// happened: ingestion goes on, and the next valid line lands in the file
/// that is open.
pub proof fn lemma_read_failure_ignored(rc: RunConfig, t0: int, evs: Seq<Event>, i: int)
    requires
        0 <= i < evs.len(),
        evs[i] is ReadFail,
    ensures
        run(rc, t0, evs) == run(rc, t0, evs.remove(i)),
    decreases evs.len(),
{
    if i == evs.len() - 1 {
        assert(evs.remove(i) =~= evs.drop_last());
    } else {
        lemma_read_failure_ignored(rc, t0, evs.drop_last(), i);
        assert(evs.remove(i).drop_last() =~= evs.drop_last().remove(i));
        assert(evs.remove(i).last() == evs.last());
    }
}

} // verus!
