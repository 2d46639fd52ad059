use obs_countdown::duration::Duration;
use obs_countdown::formatter;

#[test]
fn test_format() {
    // zero-padded
    assert_eq!(formatter::format(Duration::from_secs(0), "%H:%M:%S"), "00:00:00");
    assert_eq!(formatter::format(Duration::from_secs(1), "%H:%M:%S"), "00:00:01");
    assert_eq!(formatter::format(Duration::from_secs(60), "%H:%M:%S"), "00:01:00");
    assert_eq!(formatter::format(Duration::from_secs(61), "%H:%M:%S"), "00:01:01");
    assert_eq!(formatter::format(Duration::from_secs(3600), "%H:%M:%S"), "01:00:00");
    assert_eq!(formatter::format(Duration::from_secs(3601), "%H:%M:%S"), "01:00:01");
    assert_eq!(formatter::format(Duration::from_secs(3661), "%H:%M:%S"), "01:01:01");
    assert_eq!(
        formatter::format(
            Duration::from_secs(3661),
            "%H hour(s) %M minute(s) %S second(s)"
        ),
        "01 hour(s) 01 minute(s) 01 second(s)"
    );
    assert_eq!(
        formatter::format(Duration::from_secs(1000000), "%H:%M:%S"),
        "277:46:40"
    );
    // not zero-padded
    assert_eq!(formatter::format(Duration::from_secs(0), "%h:%m:%s"), "0:0:0");
    assert_eq!(formatter::format(Duration::from_secs(1), "%h:%m:%s"), "0:0:1");
    assert_eq!(formatter::format(Duration::from_secs(60), "%h:%m:%s"), "0:1:0");
    assert_eq!(formatter::format(Duration::from_secs(61), "%h:%m:%s"), "0:1:1");
    assert_eq!(formatter::format(Duration::from_secs(3600), "%h:%m:%s"), "1:0:0");
    assert_eq!(formatter::format(Duration::from_secs(3601), "%h:%m:%s"), "1:0:1");
    assert_eq!(formatter::format(Duration::from_secs(3661), "%h:%m:%s"), "1:1:1");
    assert_eq!(
        formatter::format(
            Duration::from_secs(3661),
            "%h hour(s) %m minute(s) %s second(s)"
        ),
        "1 hour(s) 1 minute(s) 1 second(s)"
    );
    assert_eq!(
        formatter::format(Duration::from_secs(1000000), "%h:%m:%s"),
        "277:46:40"
    );
}

#[test]
fn format_passes_unknown_sequences_through() {
    assert_eq!(formatter::format(Duration::from_secs(0), ""), "");
    assert_eq!(formatter::format(Duration::from_secs(0), "%x"), "%x");
    assert_eq!(formatter::format(Duration::from_secs(0), "%"), "%");
    assert_eq!(formatter::format(Duration::from_secs(0), "no placeholders"), "no placeholders");
    assert_eq!(formatter::format(Duration::from_secs(0), "%%H"), "%00");
    assert_eq!(formatter::format(Duration::from_secs(0), "100%"), "100%");
}

#[test]
fn format_replaces_every_occurrence() {
    assert_eq!(formatter::format(Duration::from_secs(61), "%M:%M"), "01:01");
    assert_eq!(formatter::format(Duration::from_secs(0), "%S%S"), "0000");
    assert_eq!(formatter::format(Duration::from_secs(3661), "%h%m%s"), "111");
}

#[test]
fn format_is_deterministic() {
    let d = Duration::from_secs(86461);
    let first = formatter::format(d, "%H:%M:%S");
    let second = formatter::format(d, "%H:%M:%S");
    assert_eq!(first, second);
    assert_eq!(first, "24:01:01");
}

#[test]
fn format_does_not_cap_hours() {
    assert_eq!(formatter::format(Duration::from_secs(360000), "%h"), "100");
    assert_eq!(formatter::format(Duration::from_secs(u64::MAX), "%h"), "5124095576030431");
}
