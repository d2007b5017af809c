use sensor_bridge::{
    check_utf8, split_bytes, split_frames, Directive, ProbeAction, ProbeEvent, ProbePhase,
    ProbeState, ReadEvent, Reading, Supervisor, Timestamp,
};

fn ts(minute: u32) -> Timestamp {
    Timestamp { year: 2023, month: 5, day: 17, hour: 12, minute }
}

#[test]
fn utf8_check_accepts_and_rejects() {
    assert!(check_utf8(b"plain ascii"));
    assert!(check_utf8(&[0xc3, 0xa9])); // two-byte sequence
    assert!(check_utf8(&[0xe2, 0x82, 0xac])); // three-byte sequence
    assert!(check_utf8(&[0xf0, 0x9f, 0x92, 0xa1])); // four-byte sequence
    assert!(!check_utf8(&[0xff]));
    assert!(!check_utf8(&[0xc3])); // truncated sequence
    assert!(!check_utf8(&[0xc0, 0x80])); // overlong encoding
    assert!(!check_utf8(&[0xed, 0xa0, 0x80])); // surrogate
    assert!(!check_utf8(&[0xf5, 0x80, 0x80, 0x80])); // above U+10FFFF
}

#[test]
fn utf8_check_matches_std() {
    let samples: [&[u8]; 6] = [
        b"light:100;motion:1;sound:50",
        &[0x41, 0xc3, 0xa9, 0x42],
        &[0x80],
        &[0xe0, 0x9f, 0x80],
        &[0xf4, 0x90, 0x80, 0x80],
        &[0x7f, 0xdf, 0xbf],
    ];
    for bytes in samples {
        assert_eq!(check_utf8(bytes), std::str::from_utf8(bytes).is_ok());
    }
}

#[test]
fn split_bytes_keeps_empty_parts() {
    let parts = split_bytes(b"a;;b", b';');
    let parts: Vec<&[u8]> = parts.iter().map(|p| p.as_slice()).collect();
    assert_eq!(parts, vec![b"a" as &[u8], b"", b"b"]);
    assert_eq!(split_bytes(b"", b';').len(), 1);
    assert_eq!(split_bytes(b";", b';').len(), 2);
}

#[test]
fn split_frames_on_crlf() {
    let frames = split_frames(b"one\r\ntwo\r\n");
    let frames: Vec<&[u8]> = frames.iter().map(|p| p.as_slice()).collect();
    assert_eq!(frames, vec![b"one" as &[u8], b"two", b""]);
    // a lone \r or \n does not delimit
    let frames = split_frames(b"a\rb\nc");
    assert_eq!(frames.len(), 1);
    // \r\r\n splits after the second byte pair, keeping the first \r
    let frames = split_frames(b"a\r\r\nb");
    let frames: Vec<&[u8]> = frames.iter().map(|p| p.as_slice()).collect();
    assert_eq!(frames, vec![b"a\r" as &[u8], b"b"]);
}

#[test]
fn ingest_data_accumulates_readings() {
    let mut sup = Supervisor::new(0);
    let d = sup.ingest(&ReadEvent::Data(
        b"light:100;motion:1;sound:50\r\nlight:200;motion:0;sound:7\r\n".to_vec(),
    ));
    assert_eq!(d, Directive::Continue);
    assert_eq!(sup.window.light, vec![100, 200]);
    assert_eq!(sup.window.motion, vec![1, 0]);
    assert_eq!(sup.window.sound, vec![50, 7]);
}

#[test]
fn ingest_bad_utf8_is_fatal_and_preserves_window() {
    let mut sup = Supervisor::new(0);
    sup.ingest(&ReadEvent::Data(b"light:100;motion:1;sound:50\r\n".to_vec()));
    let d = sup.ingest(&ReadEvent::Data(vec![0xff, 0xfe]));
    assert_eq!(d, Directive::Fatal);
    assert_eq!(sup.window.light, vec![100]);
}

#[test]
fn ingest_timeout_is_a_no_op() {
    let mut sup = Supervisor::new(0);
    sup.ingest(&ReadEvent::Data(b"light:100;motion:1;sound:50\r\n".to_vec()));
    let d = sup.ingest(&ReadEvent::Timeout);
    assert_eq!(d, Directive::Continue);
    assert_eq!(sup.window.light, vec![100]);
    assert_eq!(sup.window.sound, vec![50]);
}

#[test]
fn reconnect_preserves_mid_minute_data() {
    let mut sup = Supervisor::new(0);
    sup.ingest(&ReadEvent::Data(b"light:100;motion:1;sound:50\r\n".to_vec()));
    // the connection drops: the supervisor asks for a reconnect
    let d = sup.ingest(&ReadEvent::Failed);
    assert_eq!(d, Directive::Reconnect);
    assert_eq!(sup.window.light, vec![100]);
    // after the reconnect, new data extends the same window
    sup.ingest(&ReadEvent::Data(b"light:300;motion:0;sound:2\r\n".to_vec()));
    assert_eq!(sup.window.light, vec![100, 300]);
    let summary = sup.tick(ts(1)).expect("light present");
    assert_eq!(summary.light, 1024 - 400 / 2);
}

#[test]
fn tick_only_fires_on_minute_change() {
    let mut sup = Supervisor::new(0);
    sup.ingest(&ReadEvent::Data(b"light:100;motion:1;sound:50\r\n".to_vec()));
    assert_eq!(sup.tick(ts(0)), None);
    assert_eq!(sup.window.light, vec![100]);
    let summary = sup.tick(ts(1)).expect("light present");
    assert_eq!(summary.light, 924);
    assert!(sup.window.light.is_empty());
    assert_eq!(sup.window.minute, 1);
}

#[test]
fn probe_accepts_marker_at_once() {
    let s = ProbeState::new();
    let (s, a) = s.step(&ProbeEvent::PortsListed(3));
    assert_eq!(a, ProbeAction::Open(0, 1));
    let (s, a) = s.step(&ProbeEvent::Opened);
    assert_eq!(a, ProbeAction::ReadProbe(0));
    let (s, a) = s.step(&ProbeEvent::ReadData(b"LIGHT:42;MOTION:0;SOUND:1".to_vec()));
    assert_eq!(a, ProbeAction::Accept(0));
    assert_eq!(s.phase, ProbePhase::Accepted);
    // acceptance is terminal: no further port is tried
    let (s, a) = s.step(&ProbeEvent::ReadFailed);
    assert_eq!(a, ProbeAction::Accept(0));
    assert_eq!(s.phase, ProbePhase::Accepted);
}

#[test]
fn probe_retries_each_port_twice_then_moves_on() {
    let s = ProbeState::new();
    let (s, a) = s.step(&ProbeEvent::PortsListed(2));
    assert_eq!(a, ProbeAction::Open(0, 1));
    let (s, a) = s.step(&ProbeEvent::OpenFailed);
    assert_eq!(a, ProbeAction::Open(0, 2));
    let (s, a) = s.step(&ProbeEvent::OpenFailed);
    assert_eq!(a, ProbeAction::Open(1, 1));
    // a read without the marker also consumes the attempt
    let (s, a) = s.step(&ProbeEvent::Opened);
    assert_eq!(a, ProbeAction::ReadProbe(1));
    let (s, a) = s.step(&ProbeEvent::ReadData(b"nothing here".to_vec()));
    assert_eq!(a, ProbeAction::Open(1, 2));
    let (_, a) = s.step(&ProbeEvent::OpenFailed);
    // both ports exhausted: the second round starts with a fresh listing
    assert_eq!(a, ProbeAction::ListPorts);
}

#[test]
fn probe_gives_up_after_two_rounds() {
    let s = ProbeState::new();
    let (s, a) = s.step(&ProbeEvent::PortsListed(1));
    assert_eq!(a, ProbeAction::Open(0, 1));
    let (s, _) = s.step(&ProbeEvent::OpenFailed);
    let (s, a) = s.step(&ProbeEvent::OpenFailed);
    assert_eq!(a, ProbeAction::ListPorts);
    let (s, _) = s.step(&ProbeEvent::PortsListed(1));
    let (s, _) = s.step(&ProbeEvent::OpenFailed);
    let (s, a) = s.step(&ProbeEvent::OpenFailed);
    assert_eq!(a, ProbeAction::GiveUp);
    assert_eq!(s.phase, ProbePhase::Exhausted);
    // an empty port list consumes a round too
    let s2 = ProbeState::new();
    let (s2, a) = s2.step(&ProbeEvent::PortsListed(0));
    assert_eq!(a, ProbeAction::ListPorts);
    let (_, a) = s2.step(&ProbeEvent::PortsListed(0));
    assert_eq!(a, ProbeAction::GiveUp);
}

#[test]
fn frames_split_across_reads_are_separate() {
    // a frame that arrives without its delimiter is parsed as its own chunk
    let mut sup = Supervisor::new(0);
    sup.ingest(&ReadEvent::Data(b"light:1;motion:2;sound:3".to_vec()));
    assert_eq!(sup.window.light, vec![1]);
    assert_eq!(sup.window.motion, vec![2]);
    assert_eq!(sup.window.sound, vec![3]);
    let _ = sup.ingest(&ReadEvent::Data(b"short\r\nlight:9;motion:8;sound:7".to_vec()));
    assert_eq!(sup.window.light, vec![1, 9]);
}

#[test]
fn readings_enum_distinguishes_kinds() {
    assert_ne!(Reading::Light(1), Reading::Sound(1));
    assert_ne!(Reading::Sound(1), Reading::Motion(1));
    assert_eq!(Reading::Light(5), Reading::Light(5));
}
