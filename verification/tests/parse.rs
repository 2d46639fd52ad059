use obs_countdown::duration::Duration;
use obs_countdown::duration::ParseError;
use obs_countdown::parser::parse;

#[test]
fn test_parse() {
    assert_eq!(parse("1h"), Ok(Duration::from_secs(3600)));
    assert_eq!(parse("1h 30m"), Ok(Duration::from_secs(5400)));
    assert_eq!(parse("1h30m15s"), Ok(Duration::from_secs(5415)));
    assert_eq!(parse("1h, 30m and 15s"), Ok(Duration::from_secs(5415)));
    assert_eq!(parse("1h, 30m, and 15s"), Ok(Duration::from_secs(5415)));
    assert_eq!(parse("1h:30m:15s"), Ok(Duration::from_secs(5415)));
    assert_eq!(parse("1h;30m;15s"), Ok(Duration::from_secs(5415)));
    assert_eq!(
        parse("1hour 30minutes and 15seconds"),
        Ok(Duration::from_secs(5415))
    );
    assert_eq!(
        parse("1 hour 30 minutes and 15 seconds"),
        Ok(Duration::from_secs(5415))
    );
    assert_eq!(
        parse("1 hour 30 minutes, and 15 seconds"),
        Ok(Duration::from_secs(5415))
    );
    assert_eq!(
        parse("1 hour 30 minutes 15 seconds"),
        Ok(Duration::from_secs(5415))
    );
    assert_eq!(parse("1 hour 15 seconds"), Ok(Duration::from_secs(3615)));
}

#[test]
fn parse_is_case_insensitive() {
    assert_eq!(parse("1H"), Ok(Duration::from_secs(3600)));
    assert_eq!(parse("1HoUr"), Ok(Duration::from_secs(3600)));
    assert_eq!(parse("1 HOURS"), Ok(Duration::from_secs(3600)));
    assert_eq!(parse("1H 30M AND 15S"), Ok(Duration::from_secs(5415)));
    assert_eq!(parse("2 MInutes"), Ok(Duration::from_secs(120)));
    assert_eq!(parse("7 SECONDS"), Ok(Duration::from_secs(7)));
    assert_eq!(parse("1h, 30m AnD 15s"), Ok(Duration::from_secs(5415)));
}

#[test]
fn parse_takes_longest_alias() {
    // "1hours" must match the whole word, not "h" with "ours" left over.
    assert_eq!(parse("1hours"), Ok(Duration::from_secs(3600)));
    assert_eq!(parse("2hrs"), Ok(Duration::from_secs(7200)));
    assert_eq!(parse("2hr"), Ok(Duration::from_secs(7200)));
    assert_eq!(parse("3mins"), Ok(Duration::from_secs(180)));
    assert_eq!(parse("4mi"), Ok(Duration::from_secs(240)));
    assert_eq!(parse("5secs"), Ok(Duration::from_secs(5)));
    assert_eq!(parse("6se"), Ok(Duration::from_secs(6)));
    assert_eq!(parse("7sec"), Ok(Duration::from_secs(7)));
}

#[test]
fn parse_allows_absent_parts() {
    assert_eq!(parse("30m"), Ok(Duration::from_secs(1800)));
    assert_eq!(parse("15s"), Ok(Duration::from_secs(15)));
    assert_eq!(parse("1h 15s"), Ok(Duration::from_secs(3615)));
    assert_eq!(parse("1h and 15s"), Ok(Duration::from_secs(3615)));
    assert_eq!(parse("30m 15s"), Ok(Duration::from_secs(1815)));
}

#[test]
fn parse_accepts_separator_only_input_as_zero() {
    assert_eq!(parse(""), Ok(Duration::from_secs(0)));
    assert_eq!(parse("and"), Ok(Duration::from_secs(0)));
    assert_eq!(parse("::"), Ok(Duration::from_secs(0)));
    assert_eq!(parse(",,"), Ok(Duration::from_secs(0)));
    assert_eq!(parse("  "), Ok(Duration::from_secs(0)));
}

#[test]
fn parse_allows_tabs_and_spaces_before_suffix() {
    assert_eq!(parse("1 h"), Ok(Duration::from_secs(3600)));
    assert_eq!(parse("1\th"), Ok(Duration::from_secs(3600)));
    assert_eq!(parse("1h\t30m"), Ok(Duration::from_secs(5400)));
}

#[test]
fn parse_rejects_trailing_garbage() {
    assert_eq!(parse("1h30mx"), Err(ParseError::Unmatched { pos: 5 }));
    assert!(parse("1h ouch").is_err());
    assert!(parse("hello").is_err());
    assert!(parse("1h30m15s!").is_err());
}

#[test]
fn parse_rejects_parts_out_of_order() {
    assert!(parse("30m 1h").is_err());
    assert!(parse("15s 30m").is_err());
    assert!(parse("15s 1h 30m").is_err());
}

#[test]
fn parse_rejects_leading_garbage() {
    // A fragment may not be preceded by a separator it does not need.
    assert!(parse("x1h").is_err());
    assert!(parse("- 1h").is_err());
}

#[test]
fn parse_rejects_value_overflow() {
    // The digit run itself no longer fits in 64 bits: no fragment matches.
    assert_eq!(
        parse("99999999999999999999h"),
        Err(ParseError::Unmatched { pos: 0 })
    );
    // Every fragment fits, but the total in seconds does not.
    assert_eq!(parse("18446744073709551615h"), Err(ParseError::Overflow));
    assert_eq!(parse("18446744073709551615s"), Ok(Duration::from_secs(u64::MAX)));
}
