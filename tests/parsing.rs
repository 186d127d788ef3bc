use safe_remove::args::{ArgParser, Flags, RemoveCond, RemoveCondBuilder, TimeCondition, FileStat};
use safe_remove::error::ErrorKind;
use safe_remove::utils::{parse_duration, parse_u64};

fn strings(v: &[&str]) -> Vec<String> {
    v.iter().map(|s| s.to_string()).collect()
}

#[test]
fn duration_units() {
    assert_eq!(parse_duration("90s"), Ok(90));
    assert_eq!(parse_duration("30m"), Ok(1800));
    assert_eq!(parse_duration("1h"), Ok(3600));
    assert_eq!(parse_duration("12h"), Ok(43200));
    assert_eq!(parse_duration("7d"), Ok(604800));
    assert_eq!(parse_duration("2w"), Ok(1209600));
}

#[test]
fn duration_rejects_malformed() {
    assert!(parse_duration("").is_err());
    assert!(parse_duration("h").is_err());
    assert!(parse_duration("5x").is_err());
    assert!(parse_duration("abh").is_err());
    assert!(parse_duration("-5h").is_err());
    assert!(parse_duration("99999999999999999999s").is_err());
    assert!(parse_duration("18446744073709551615m").is_err());
}

#[test]
fn unsigned_integers() {
    assert_eq!(parse_u64("0"), Ok(0));
    assert_eq!(parse_u64("+42"), Ok(42));
    assert_eq!(parse_u64("18446744073709551615"), Ok(u64::MAX));
    assert!(parse_u64("18446744073709551616").is_err());
    assert!(parse_u64("").is_err());
    assert!(parse_u64("+").is_err());
    assert!(parse_u64("1a").is_err());
}

#[test]
fn parse_file_only() {
    let p = ArgParser::parse(&strings(&["srm", "notes.txt"])).unwrap();
    assert_eq!(p.files, vec!["notes.txt".to_string()]);
    assert_eq!(p.flags, Flags::default());
    assert_eq!(p.flags.life_duration, 24);
    assert_eq!(p.flags.size_limit, 1024 * 1024 * 1024);
    assert!(p.flags.store);
    assert!(!p.flags.recursive);
}

#[test]
fn parse_all_flags() {
    let p = ArgParser::parse(&strings(&[
        "srm", "-r", "--life-duration", "2d", "--size-limit", "10k", "-n", "a", "b",
    ]))
    .unwrap();
    assert_eq!(p.files, vec!["b".to_string()]);
    assert!(p.flags.recursive);
    assert!(!p.flags.store);
    assert_eq!(p.flags.life_duration, 48);
    assert_eq!(p.flags.size_limit, 10240);
}

#[test]
fn parse_errors() {
    let e = ArgParser::parse(&strings(&["srm", "-x", "a"])).unwrap_err();
    assert!(matches!(e.kind, ErrorKind::InvalidArg(_)));
    assert_eq!(e.message(), "Invalid argument: -x");
    let e = ArgParser::parse(&strings(&["srm", "-r"])).unwrap_err();
    assert!(matches!(e.kind, ErrorKind::InvalidArg(_)));
    let e = ArgParser::parse(&strings(&["srm", "a", "--life-duration", "5x"])).unwrap_err();
    assert!(matches!(e.kind, ErrorKind::ParseError(_)));
    let e = ArgParser::parse(&strings(&["srm", "a", "--size-limit"])).unwrap_err();
    assert!(matches!(e.kind, ErrorKind::InvalidArg(_)));
    let e = ArgParser::parse(&strings(&["srm", "a", "--size-limit", ""])).unwrap_err();
    assert!(matches!(e.kind, ErrorKind::InvalidArg(_)));
}

#[test]
fn life_durations() {
    assert_eq!(ArgParser::parse_life_duration("5h").unwrap(), 5);
    assert_eq!(ArgParser::parse_life_duration("3D").unwrap(), 72);
    assert_eq!(ArgParser::parse_life_duration("2w").unwrap(), 336);
    assert!(ArgParser::parse_life_duration("").is_err());
    assert!(ArgParser::parse_life_duration("5m").is_err());
    assert!(ArgParser::parse_life_duration("4294967295w").is_err());
}

#[test]
fn file_sizes() {
    assert_eq!(ArgParser::parse_file_size("10k").unwrap(), 10240);
    assert_eq!(ArgParser::parse_file_size(" 5 M").unwrap(), 5 * 1048576);
    assert_eq!(ArgParser::parse_file_size("3g").unwrap(), 3221225472);
    let e = ArgParser::parse_file_size("").unwrap_err();
    assert!(matches!(e.kind, ErrorKind::InvalidArg(_)));
    let e = ArgParser::parse_file_size("5g").unwrap_err();
    assert!(matches!(e.kind, ErrorKind::ParseError(_)));
    let e = ArgParser::parse_file_size("5t").unwrap_err();
    assert!(matches!(e.kind, ErrorKind::ParseError(_)));
}

#[test]
fn rule_by_size_age_and_date() {
    let stat = FileStat { size: 2048, created_at: 1_000_000 };
    let by_size = RemoveCondBuilder::new().set_size_limit(1024).build();
    assert!(by_size.check(&stat, 1_000_000));
    let small = RemoveCondBuilder::new().set_size_limit(4096).build();
    assert!(!small.check(&stat, 1_000_000));
    let by_age = RemoveCondBuilder::new().set_time_condition(TimeCondition::Duration(1)).build();
    assert!(!by_age.check(&stat, 1_003_600));
    assert!(by_age.check(&stat, 1_003_601));
    let by_date = RemoveCondBuilder::new().set_time_condition(TimeCondition::Date(1_000_001)).build();
    assert!(by_date.check(&stat, 0));
    let old_date = RemoveCondBuilder::new().set_time_condition(TimeCondition::Date(1_000_000)).build();
    assert!(!old_date.check(&stat, i64::MAX));
    let none = RemoveCond { time_cond: None, size_limit: None };
    assert!(!none.check(&stat, i64::MAX));
}

#[test]
fn rule_eligibility_is_monotone() {
    let stat = FileStat { size: 10, created_at: 500 };
    let rule = RemoveCondBuilder::new().set_time_condition(TimeCondition::Duration(2)).build();
    assert!(!rule.check(&stat, 500 + 7200));
    assert!(rule.check(&stat, 500 + 7201));
    for t in [7202i64, 10_000, 1_000_000, i64::MAX] {
        assert!(rule.check(&stat, 500 + t.min(i64::MAX - 500)));
    }
}

#[test]
fn rule_setters() {
    let mut rule = RemoveCond { time_cond: None, size_limit: None };
    rule.set_size_limit(7);
    rule.set_time_condition(TimeCondition::Date(3));
    assert_eq!(rule.size_limit, Some(7));
    assert_eq!(rule.time_cond, Some(TimeCondition::Date(3)));
    let b = RemoveCondBuilder::default().build();
    assert_eq!(b, RemoveCond { time_cond: None, size_limit: None });
}

#[test]
fn duration_error_messages() {
    assert_eq!(parse_duration(""), Err("Invalid duration format".to_string()));
    assert_eq!(parse_duration("5"), Err("Invalid duration format".to_string()));
    assert_eq!(parse_duration("5x"), Err("Invalid duration unit".to_string()));
    assert_eq!(parse_duration("xh"), Err("invalid digit found in string".to_string()));
    assert_eq!(parse_duration("+h"), Err("cannot parse integer from empty string".to_string()));
    assert_eq!(
        parse_duration("18446744073709551616d"),
        Err("number too large to fit in target type".to_string())
    );
    assert_eq!(parse_duration("18446744073709551615d"), Err("Duration is too large".to_string()));
}

#[test]
fn command_line_error_messages() {
    let e = ArgParser::parse(&strings(&["srm", "-r"])).unwrap_err();
    assert!(matches!(&e.kind, ErrorKind::InvalidArg(m) if m == "No file string found"));
    let e = ArgParser::parse(&strings(&["srm", "--bogus"])).unwrap_err();
    assert!(matches!(&e.kind, ErrorKind::InvalidArg(m) if m == "Invalid argument: --bogus"));
    let e = ArgParser::parse(&strings(&["srm", "a", "--life-duration"])).unwrap_err();
    assert!(matches!(&e.kind, ErrorKind::InvalidArg(m) if m == "Missing value for --life-duration"));
    let e = ArgParser::parse_life_duration("5x").unwrap_err();
    assert!(matches!(&e.kind, ErrorKind::ParseError(m) if m == "Failed to parse duration unit"));
    let e = ArgParser::parse_life_duration("xh").unwrap_err();
    assert!(matches!(&e.kind, ErrorKind::ParseError(m) if m == "Failed to parse an integer: x"));
    let e = ArgParser::parse_file_size("").unwrap_err();
    assert!(matches!(&e.kind, ErrorKind::InvalidArg(m) if m == "String is empty"));
    let e = ArgParser::parse_file_size("10x").unwrap_err();
    assert!(matches!(&e.kind, ErrorKind::ParseError(m) if m == "Failed to parse size unit"));
    let e = ArgParser::parse_file_size("k").unwrap_err();
    assert!(matches!(&e.kind, ErrorKind::ParseError(m) if m == "cannot parse integer from empty string"));
    let e = ArgParser::parse_file_size("4g").unwrap_err();
    assert!(matches!(&e.kind, ErrorKind::ParseError(m) if m == "Size is too large"));
    assert_eq!(ArgParser::parse_file_size("1k").unwrap(), 1024);
    assert_eq!(ArgParser::parse_file_size("\u{3000}7\u{2009}k").unwrap(), 7 * 1024);
}
