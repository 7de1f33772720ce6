use dynbem_rs::theory_report::{chrono_now, summary, unix_stamp, Status};

#[test]
fn status_labels() {
    assert_eq!(Status::Pass.label(), "PASS");
    assert_eq!(Status::Fail.label(), "FAIL");
    assert_eq!(Status::Info.label(), "INFO");
}

#[test]
fn summary_counts() {
    let rows = [
        Status::Pass,
        Status::Info,
        Status::Fail,
        Status::Pass,
        Status::Info,
    ];
    assert_eq!(summary(&rows), (3, 2, 1));
    assert_eq!(summary(&[]), (0, 0, 0));
    let (t, p, f) = summary(&rows);
    assert_eq!(t, p + f);
}

#[test]
fn stamp_is_decimal_seconds() {
    assert_eq!(unix_stamp(0), "unix=0");
    assert_eq!(unix_stamp(7), "unix=7");
    assert_eq!(unix_stamp(1700000000), "unix=1700000000");
    assert_eq!(unix_stamp(u64::MAX), format!("unix={}", u64::MAX));
}

#[test]
fn now_stamp_has_the_prefix() {
    let s = chrono_now().expect("clock after the epoch");
    assert!(s.starts_with("unix="));
    assert!(s[5..].chars().all(|c| c.is_ascii_digit()));
    assert!(s.len() > 5);
}
