use simple_watch::settings::{parse_flags, parse_millis, ArgError, Settings, SettingsBuilder};

fn args(words: &[&str]) -> Vec<String> {
    words.iter().map(|w| w.to_string()).collect()
}

#[test]
fn millis_parse_like_u64() {
    assert_eq!(parse_millis("250"), Some(250));
    assert_eq!(parse_millis("+7"), Some(7));
    assert_eq!(parse_millis("007"), Some(7));
    assert_eq!(parse_millis("18446744073709551615"), Some(u64::MAX));
    assert_eq!(parse_millis("18446744073709551616"), None);
    assert_eq!(parse_millis(""), None);
    assert_eq!(parse_millis("+"), None);
    assert_eq!(parse_millis("-1"), None);
    assert_eq!(parse_millis("12a"), None);
    assert_eq!(parse_millis(" 12"), None);
}

#[test]
fn default_interval_is_200() {
    assert_eq!(SettingsBuilder::default().build(), Settings { interval_ms: 200 });
}

#[test]
fn short_flag_sets_interval() {
    let b = SettingsBuilder::default().add_short_arg("i", "500").unwrap();
    assert_eq!(b.build().interval_ms, 500);
    assert_eq!(
        SettingsBuilder::default().add_short_arg("x", "1"),
        Err(ArgError::UnknownFlag)
    );
    assert_eq!(
        SettingsBuilder::default().add_short_arg("i", "soon"),
        Err(ArgError::BadInterval)
    );
}

#[test]
fn long_flag_sets_interval() {
    let b = SettingsBuilder::default().add_long_arg("interval", "1000").unwrap();
    assert_eq!(b.build().interval_ms, 1000);
    assert_eq!(
        SettingsBuilder::default().add_long_arg("i", "1"),
        Err(ArgError::UnknownFlag)
    );
    assert_eq!(
        SettingsBuilder::default().add_long_arg("interval", "abc"),
        Err(ArgError::BadInterval)
    );
}

#[test]
fn command_without_flags() {
    let (s, c) = parse_flags(&args(&["ls", "-l"])).unwrap();
    assert_eq!(s.interval_ms, 200);
    assert_eq!(c, "ls -l");
    let (_, c) = parse_flags(&args(&["date"])).unwrap();
    assert_eq!(c, "date");
}

#[test]
fn flag_forms() {
    let (s, c) = parse_flags(&args(&["-i", "100", "echo", "hi"])).unwrap();
    assert_eq!((s.interval_ms, c.as_str()), (100, "echo hi"));
    let (s, c) = parse_flags(&args(&["--interval=50", "date"])).unwrap();
    assert_eq!((s.interval_ms, c.as_str()), (50, "date"));
    let (s, c) = parse_flags(&args(&["--interval", "75", "uptime"])).unwrap();
    assert_eq!((s.interval_ms, c.as_str()), (75, "uptime"));
}

#[test]
fn flag_errors() {
    assert_eq!(parse_flags(&args(&[])), Err(ArgError::MissingCommand));
    assert_eq!(parse_flags(&args(&["-i", "100"])), Err(ArgError::MissingCommand));
    assert_eq!(parse_flags(&args(&["-i"])), Err(ArgError::MissingValue));
    assert_eq!(parse_flags(&args(&["--interval"])), Err(ArgError::MissingValue));
    assert_eq!(parse_flags(&args(&["-x", "1", "ls"])), Err(ArgError::UnknownFlag));
    assert_eq!(parse_flags(&args(&["--foo=1", "ls"])), Err(ArgError::UnknownFlag));
    assert_eq!(parse_flags(&args(&["-i", "abc", "ls"])), Err(ArgError::BadInterval));
    assert_eq!(parse_flags(&args(&["--interval=", "ls"])), Err(ArgError::BadInterval));
}
