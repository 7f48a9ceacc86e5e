//! Naming of output files: a timestamp's minute bucket determines the file
//! name, and a file path is the base directory joined with that name.

use vstd::prelude::*;
use vstd::string::StringExecFns;

verus! {

/// Largest timestamp (seconds since the Unix epoch) the library accepts:
/// the last second of year 9999, so that the formatted year is always four
/// digits and the conversion to a calendar date always succeeds.
pub const MAX_SECS: i64 = 253_402_300_799;

/// A timestamp the library accepts: non-negative seconds since the Unix
/// epoch, no later than the last second of year 9999.
pub open spec fn valid_secs(s: int) -> bool {
    0 <= s <= MAX_SECS
}

/// The minute bucket of a timestamp: minutes since the Unix epoch.
pub open spec fn minute_of(s: int) -> int {
    s / 60
}

/// The text `YYYY-MM-DD-HH-mm` that names the given minute bucket.
/// What the digits are is known only to the calendar; the library relies on
/// the name being a function of the bucket alone, and on distinct buckets
/// having distinct names.
pub uninterp spec fn minute_name_of(bucket: int) -> Seq<char>;

/// The path of the bucket's file inside `dir`.
pub open spec fn bucket_path(dir: Seq<char>, bucket: int) -> Seq<char> {
    dir + seq!['/'] + minute_name_of(bucket)
}

/// The path of the file that a timestamp falls into inside `dir`.
pub open spec fn path_of(dir: Seq<char>, s: int) -> Seq<char> {
    bucket_path(dir, minute_of(s))
}

/// Relies on chrono's `DateTime::<Utc>::from_timestamp` and on formatting
/// with `"%Y-%m-%d-%H-%M"`: for seconds in `valid_secs` the conversion
/// succeeds, and the formatted text depends only on the UTC minute, since
/// the format string names no field finer than the minute.  Distinct minutes
/// give distinct text, because every field is zero-padded to a fixed width
/// (four digits for the year within `valid_secs`), so the calendar fields,
/// and with them the minute, can be read back from the text.
#[verifier::external_body]
fn fmt_minute(secs: i64) -> (r: String)
    requires
        valid_secs(secs as int),
    ensures
        r@ == minute_name_of(minute_of(secs as int)),
        forall|b: int| b != minute_of(secs as int) ==> r@ != minute_name_of(b),
{
    let dt = chrono::DateTime::<chrono::Utc>::from_timestamp(secs, 0).unwrap();
    dt.format("%Y-%m-%d-%H-%M").to_string()
}

/// The name of the file that the timestamp `secs` falls into: the text of
/// its minute bucket.
pub fn name_for(secs: i64) -> (r: String)
    requires
        valid_secs(secs as int),
    ensures
        r@ == minute_name_of(minute_of(secs as int)),
{
    fmt_minute(secs)
}

/// The path of the file that the timestamp `secs` falls into inside `dir`:
/// `dir`, a slash, and the name of the timestamp's minute bucket.
pub fn path_for(dir: &str, secs: i64) -> (r: String)
    requires
        valid_secs(secs as int),
    ensures
        r@ == path_of(dir@, secs as int),
{
    let name = fmt_minute(secs);
    let mut p = String::from_str(dir);
    p.append("/");
    p.append(name.as_str());
    proof {
        reveal_strlit("/");
        assert(p@ =~= path_of(dir@, secs as int));
    }
    p
}

/// Two timestamps within the same minute name the same path.
pub proof fn lemma_same_minute_same_path(dir: Seq<char>, t1: int, t2: int)
    requires
        minute_of(t1) == minute_of(t2),
    ensures
        path_of(dir, t1) == path_of(dir, t2),
{
}

} // verus!
