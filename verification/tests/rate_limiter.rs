use layered_cache::middleware::rate_limiter::{build_rate_limiter, parse_unsigned, rate_limit_settings};

#[test]
fn missing_settings_use_defaults() {
    let s = rate_limit_settings(None, None);
    assert_eq!(s.per_second, 10);
    assert_eq!(s.burst_size, 20);
}

#[test]
fn numeric_settings_are_read() {
    let s = rate_limit_settings(Some("3".to_string()), Some("+45".to_string()));
    assert_eq!(s.per_second, 3);
    assert_eq!(s.burst_size, 45);
}

#[test]
fn unreadable_settings_fall_back() {
    let s = rate_limit_settings(Some(" 3".to_string()), Some("-1".to_string()));
    assert_eq!(s.per_second, 10);
    assert_eq!(s.burst_size, 20);
    let t = rate_limit_settings(Some("".to_string()), Some("4294967296".to_string()));
    assert_eq!(t.per_second, 10);
    assert_eq!(t.burst_size, 20);
}

#[test]
fn parse_matches_std() {
    for text in ["0", "007", "+9", "+", "", "18446744073709551615", "18446744073709551616", "1a", "٣", "-0"] {
        assert_eq!(parse_unsigned(text, u64::MAX), text.parse::<u64>().ok(), "{}", text);
        let small = parse_unsigned(text, u32::MAX as u64).map(|v| v as u32);
        assert_eq!(small, text.parse::<u32>().ok(), "{}", text);
    }
}

#[test]
fn rate_limiter_builds_from_defaults_and_numbers() {
    let c = build_rate_limiter(None, None).expect("defaults build");
    assert_eq!(c.per_second(), 10);
    assert_eq!(c.burst_size(), 20);
    let d = build_rate_limiter(Some("60".to_string()), Some("2".to_string())).expect("builds");
    assert_eq!(d.per_second(), 60);
    assert_eq!(d.burst_size(), 2);
    // a burst of two from one address passes, the third request is held back
    let governor = d.into_governor();
    let limiter = governor.config.limiter();
    let ip = "127.0.0.1".parse().unwrap();
    assert!(limiter.check_key(&ip).is_ok());
    assert!(limiter.check_key(&ip).is_ok());
    assert!(limiter.check_key(&ip).is_err());
}

#[test]
fn rate_limiter_refuses_zero_settings() {
    assert!(build_rate_limiter(Some("0".to_string()), None).is_none());
    assert!(build_rate_limiter(None, Some("0".to_string())).is_none());
}

#[test]
fn rate_limiter_refuses_too_long_burst_capacity() {
    // 10^11 seconds times the default burst of 20 overflows u64 nanoseconds
    assert!(build_rate_limiter(Some("100000000000".to_string()), None).is_none());
    // the largest capacity that fits: 18446744073 s * 1 burst
    assert!(build_rate_limiter(Some("18446744073".to_string()), Some("1".to_string())).is_some());
    assert!(build_rate_limiter(Some("18446744074".to_string()), Some("1".to_string())).is_none());
}
