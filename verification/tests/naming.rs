use logsplit::naming::{name_for, path_for, MAX_SECS};
use logsplit::session::{should_rotate, str_eq, Config, DEFAULT_INTERVAL_SECS};

#[test]
fn path_at_epoch() {
    assert_eq!(path_for("out", 0), "out/1970-01-01-00-00");
}

#[test]
fn path_known_date() {
    // 1431648000 is 2015-05-15 00:00:00 UTC.
    assert_eq!(path_for("/var/log", 1431648000), "/var/log/2015-05-15-00-00");
}

#[test]
fn name_zero_padded() {
    // 1234567890 is 2009-02-13 23:31:30 UTC.
    assert_eq!(name_for(1234567890), "2009-02-13-23-31");
    // 946684800 is 2000-01-01 00:00:00 UTC.
    assert_eq!(name_for(946684800), "2000-01-01-00-00");
}

#[test]
fn name_at_max() {
    // The last accepted second is the end of year 9999.
    assert_eq!(name_for(MAX_SECS), "9999-12-31-23-59");
}

#[test]
fn same_minute_same_path() {
    assert_eq!(path_for("d", 30), path_for("d", 59));
    assert_eq!(path_for("d", 60), path_for("d", 119));
    assert_ne!(path_for("d", 59), path_for("d", 60));
}

#[test]
fn rotation_strictly_greater() {
    assert!(!should_rotate(0, 0, 60));
    assert!(!should_rotate(0, 60, 60));
    assert!(should_rotate(0, 61, 60));
    // A clock that went backwards does not rotate.
    assert!(!should_rotate(61, 0, 60));
}

#[test]
fn config_defaults() {
    let c = Config::new(String::from("out"), None);
    assert_eq!(c.interval_secs, DEFAULT_INTERVAL_SECS);
    assert_eq!(c.final_dir, "out");
    assert_eq!(c.write_dir, "out");
    let c2 = Config::new(String::from("out"), Some(String::from("tmp")));
    assert_eq!(c2.write_dir, "tmp");
    assert_eq!(c2.final_dir, "out");
}

#[test]
fn str_eq_matches_equality() {
    assert!(str_eq("", ""));
    assert!(str_eq("abc", "abc"));
    assert!(!str_eq("abc", "abd"));
    assert!(!str_eq("abc", "abcd"));
}
