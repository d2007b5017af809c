use sensor_bridge::{
    contains_marker, max_value, parse_frame, parse_i32, summary_url, AggregationWindow,
    CollectorError, Reading, Summary, Timestamp,
};

fn ts(minute: u32) -> Timestamp {
    Timestamp { year: 2023, month: 5, day: 17, hour: 12, minute }
}

#[test]
fn valid_frame_yields_three_readings() {
    let readings = parse_frame(b"light:100;motion:1;sound:50");
    assert_eq!(
        readings,
        vec![Reading::Light(100), Reading::Motion(1), Reading::Sound(50)]
    );
}

#[test]
fn short_frame_yields_nothing() {
    assert_eq!(parse_frame(b"light:1;m"), vec![]);
    assert_eq!(parse_frame(b""), vec![]);
    // exactly 10 bytes is still too short
    assert_eq!(parse_frame(b"l:1;m:2;s:"), vec![]);
}

#[test]
fn wrong_field_count_yields_nothing() {
    assert_eq!(parse_frame(b"light:100;motion:1"), vec![]);
    assert_eq!(parse_frame(b"light:100;motion:1;sound:50;extra:9"), vec![]);
}

#[test]
fn field_without_colon_is_skipped() {
    let readings = parse_frame(b"light:100;motion1;sound:50");
    assert_eq!(readings, vec![Reading::Light(100), Reading::Sound(50)]);
}

#[test]
fn field_with_bad_number_is_skipped() {
    let readings = parse_frame(b"light:abc;motion:1;sound:50");
    assert_eq!(readings, vec![Reading::Motion(1), Reading::Sound(50)]);
}

#[test]
fn value_is_text_between_first_and_second_colon() {
    let readings = parse_frame(b"light:7:9;motion:1;sound:50");
    assert_eq!(
        readings,
        vec![Reading::Light(7), Reading::Motion(1), Reading::Sound(50)]
    );
}

#[test]
fn parse_i32_accepts_signs_and_rejects_junk() {
    assert_eq!(parse_i32(b"123"), Some(123));
    assert_eq!(parse_i32(b"+123"), Some(123));
    assert_eq!(parse_i32(b"-123"), Some(-123));
    assert_eq!(parse_i32(b"0007"), Some(7));
    assert_eq!(parse_i32(b""), None);
    assert_eq!(parse_i32(b"+"), None);
    assert_eq!(parse_i32(b"-"), None);
    assert_eq!(parse_i32(b" 1"), None);
    assert_eq!(parse_i32(b"1 "), None);
    assert_eq!(parse_i32(b"12a"), None);
}

#[test]
fn parse_i32_overflow_bounds() {
    assert_eq!(parse_i32(b"2147483647"), Some(i32::MAX));
    assert_eq!(parse_i32(b"2147483648"), None);
    assert_eq!(parse_i32(b"-2147483648"), Some(i32::MIN));
    assert_eq!(parse_i32(b"-2147483649"), None);
    assert_eq!(parse_i32(b"000000000000000042"), Some(42));
    assert_eq!(parse_i32(b"99999999999999999999"), None);
}

#[test]
fn light_reduction_is_inverted_mean() {
    let mut w = AggregationWindow::new(0);
    for v in [100, 200, 300] {
        w.observe(Reading::Light(v));
    }
    let summary = w.rollover(ts(1)).expect("light present");
    assert_eq!(summary.light, 1024 - 600 / 3);
    assert_eq!(summary.light, 824);
}

#[test]
fn empty_light_suppresses_summary() {
    let mut w = AggregationWindow::new(0);
    for v in [5, 9, 2] {
        w.observe(Reading::Sound(v));
    }
    assert_eq!(w.rollover(ts(1)), None);
    // a suppressed summary still clears the window and advances the marker
    assert!(w.sound.is_empty());
    assert_eq!(w.minute, 1);
}

#[test]
fn sound_and_motion_reduce_to_maximum() {
    let mut w = AggregationWindow::new(0);
    w.observe(Reading::Light(512));
    for v in [3, 7, 1] {
        w.observe(Reading::Sound(v));
    }
    for v in [0, 1, 0] {
        w.observe(Reading::Motion(v));
    }
    let summary = w.rollover(ts(1)).expect("light present");
    assert_eq!(summary.sound, 7);
    assert_eq!(summary.motion, 1);
}

#[test]
fn rollover_clears_window_and_advances_minute() {
    let mut w = AggregationWindow::new(58);
    w.observe(Reading::Light(10));
    w.observe(Reading::Sound(4));
    w.observe(Reading::Motion(1));
    let summary = w.rollover(ts(59));
    assert!(summary.is_some());
    assert!(w.light.is_empty());
    assert!(w.sound.is_empty());
    assert!(w.motion.is_empty());
    assert_eq!(w.minute, 59);
}

#[test]
fn rollover_stamps_the_new_instant() {
    let mut w = AggregationWindow::new(0);
    w.observe(Reading::Light(24));
    let summary = w.rollover(ts(1)).expect("light present");
    assert_eq!(summary.timestamp, ts(1));
    assert_eq!(summary.light, 1000);
}

#[test]
fn single_light_reading_summary() {
    let mut w = AggregationWindow::new(0);
    w.observe(Reading::Light(1024));
    let summary = w.rollover(ts(1)).expect("light present");
    assert_eq!(summary.light, 0);
    assert_eq!(summary.sound, 0);
    assert_eq!(summary.motion, 0);
}

#[test]
fn negative_values_are_aggregated_faithfully() {
    let mut w = AggregationWindow::new(0);
    w.observe(Reading::Light(-100));
    w.observe(Reading::Light(-101));
    for v in [-5, -9] {
        w.observe(Reading::Sound(v));
    }
    let summary = w.rollover(ts(1)).expect("light present");
    // sum -201, truncated mean -100, inverted 1124
    assert_eq!(summary.light, 1124);
    assert_eq!(summary.sound, -5);
    assert_eq!(summary.motion, 0);
}

#[test]
fn max_value_of_empty_is_zero() {
    assert_eq!(max_value(&vec![]), 0);
    assert_eq!(max_value(&vec![-3, -8]), -3);
    assert_eq!(max_value(&vec![2, 9, 4]), 9);
}

#[test]
fn marker_detection() {
    assert!(contains_marker(b"LIGHT:100;MOTION:1;SOUND:2"));
    assert!(contains_marker(b"noise then LIGHT"));
    assert!(!contains_marker(b"light in lower case"));
    assert!(!contains_marker(b"LIGH"));
    assert!(!contains_marker(b""));
}

#[test]
fn error_kinds_are_distinct() {
    let io = CollectorError::Io(String::from("read failed"));
    let conv = CollectorError::Conversion(String::from("invalid utf-8"));
    let unknown = CollectorError::Unknown(String::from("?"));
    assert_ne!(io, conv);
    assert_ne!(conv, unknown);
    assert_eq!(io, CollectorError::Io(String::from("read failed")));
}

#[test]
fn summary_url_renders_all_fields() {
    let summary = Summary { timestamp: ts(42), light: 824, sound: 7, motion: 1 };
    let url = summary_url(&summary);
    assert_eq!(
        String::from_utf8(url).unwrap(),
        "http://www.yarenty.com/ardunio/add.php?year=2023&month=5&day=17&hour=12&minute=42&light=824&sound=7&motion=1"
    );
}

#[test]
fn summary_url_renders_negative_values() {
    let summary = Summary {
        timestamp: Timestamp { year: 2024, month: 12, day: 31, hour: 23, minute: 59 },
        light: -76,
        sound: 0,
        motion: -2,
    };
    let url = summary_url(&summary);
    assert_eq!(
        String::from_utf8(url).unwrap(),
        "http://www.yarenty.com/ardunio/add.php?year=2024&month=12&day=31&hour=23&minute=59&light=-76&sound=0&motion=-2"
    );
}
