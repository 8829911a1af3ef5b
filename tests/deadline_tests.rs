use config_watch::deadline::{listen_deadline, wait_ms};

#[test]
fn wait_floors_short_timeouts() {
    assert_eq!(wait_ms(0), 9500);
    assert_eq!(wait_ms(-5), 9500);
    assert_eq!(wait_ms(9999), 9500);
    assert_eq!(wait_ms(i64::MIN), 9500);
}

#[test]
fn wait_caps_long_timeouts() {
    assert_eq!(wait_ms(120001), 119500);
    assert_eq!(wait_ms(i64::MAX), 119500);
}

#[test]
fn wait_keeps_timeouts_in_range() {
    assert_eq!(wait_ms(10000), 9500);
    assert_eq!(wait_ms(30000), 29500);
    assert_eq!(wait_ms(120000), 119500);
}

#[test]
fn deadline_from_header() {
    let now = 1_700_000_000_000;
    assert_eq!(listen_deadline(now, &Some("30000".to_string())), now + 29500);
    assert_eq!(listen_deadline(now, &Some("+30000".to_string())), now + 29500);
    assert_eq!(listen_deadline(now, &Some("500".to_string())), now + 9500);
    assert_eq!(listen_deadline(now, &Some("999999".to_string())), now + 119500);
}

#[test]
fn deadline_without_usable_header_is_immediate() {
    let now = 1_700_000_000_000;
    assert_eq!(listen_deadline(now, &None), 0);
    assert_eq!(listen_deadline(now, &Some("abc".to_string())), 0);
    assert_eq!(listen_deadline(now, &Some(" 30000".to_string())), 0);
    assert_eq!(listen_deadline(now, &Some("99999999999999999999".to_string())), 0);
}
