use harness::camera::{describe, first_named, list, pick_camera, Counter, Picked};
use harness::serial::{command, find_port, Handshake, PortError, PortInfo, Wait, Watcher, READY};
use harness::text::{chars_of, decimal, join, parse, split_lines, split_words, string_of, trim};
use harness::uvc::{get, parse_hex, Applied, Device, Drift, Expose, Told, Write, WriteError};
use std::time::Duration;

fn chars(s: &str) -> Vec<char> {
    s.chars().collect()
}

fn strings(v: Vec<Vec<char>>) -> Vec<String> {
    v.iter().map(|w| string_of(w)).collect()
}

#[test]
fn words_and_lines_are_those_of_the_standard_library() {
    for s in [
        "", " ", "a", " a  b\tc ", "one\ntwo\r\nthree", "\n\n", "x\r", "x\r\n", "a\u{3000}b\u{85}c",
        "tab\u{b}vt", "\r\r\n", "no\u{200b}break",
    ] {
        let words: Vec<String> = s.split_whitespace().map(String::from).collect();
        assert_eq!(strings(split_words(&chars(s))), words, "{s:?}");
        let lines: Vec<String> = s.lines().map(String::from).collect();
        assert_eq!(strings(split_lines(&chars(s))), lines, "{s:?}");
        assert_eq!(string_of(&trim(&chars(s))), s.trim(), "{s:?}");
    }
    for c in (0..0x11000u32).filter_map(char::from_u32) {
        assert_eq!(split_words(&[c]).is_empty(), c.is_whitespace(), "{c:?}");
    }
}

#[test]
fn numbers_are_parsed_as_the_standard_library_does() {
    for s in ["", "+", "-", "0", "+7", "-7", "007", "4294967295", "4294967296", "12a", "1 ", "++1"] {
        let want = s.parse::<u32>().ok().map(u64::from);
        assert_eq!(parse(&chars(s), 10, u32::MAX as u64), want, "{s:?}");
    }
    for s in ["ff", "FF", "+fF", "g", "", "ffffffffffffffff", "10000000000000000"] {
        assert_eq!(parse(&chars(s), 16, u64::MAX), u64::from_str_radix(s, 16).ok(), "{s:?}");
    }
    for n in [0, 9, 10, 1234567890, u64::MAX] {
        assert_eq!(decimal(n), n.to_string());
        assert_eq!(parse(&chars_of(&decimal(n)), 10, u64::MAX), Some(n));
    }
    let words = split_words(&chars("a bc d"));
    assert_eq!(join(&words, 1, ", "), "bc, d");
    assert_eq!(join(&words, 3, ", "), "");
}

fn cameras() -> Vec<Picked> {
    [(0, "FaceTime HD Camera"), (1, "Arducam OV9782"), (2, "arducam two")]
        .iter()
        .map(|(i, n)| Picked { index: *i, name: n.to_string(), id: format!("0x{i}") })
        .collect()
}

#[test]
fn a_camera_is_picked_by_index_or_part_of_its_name() {
    let c = cameras();
    assert_eq!(pick_camera("2", &c), Some(2));
    assert_eq!(pick_camera("+1", &c), Some(1));
    assert_eq!(pick_camera("7", &c), None);
    assert_eq!(pick_camera("ARDUCAM", &c), Some(1));
    assert_eq!(pick_camera("cam two", &c), Some(2));
    assert_eq!(pick_camera("HD", &c), Some(0));
    assert_eq!(pick_camera("", &c), Some(0));
    assert_eq!(pick_camera("webcam", &c), None);
    let lowered = ["facetime".to_string(), "arducam".to_string()];
    assert_eq!(first_named(&lowered, "cam"), Some(1));
    assert_eq!(first_named(&lowered, "Cam"), None);
}

#[test]
fn cameras_are_listed_with_their_indices() {
    assert_eq!(list(&cameras()), "[0] FaceTime HD Camera, [1] Arducam OV9782, [2] arducam two");
    assert_eq!(list(&[]), "");
}

#[test]
fn frames_are_numbered_and_lost_ones_counted() {
    let mut c = Counter::new();
    assert_eq!(c.seq(), 0);
    c.delivered(false);
    c.delivered(true);
    assert_eq!((c.seq(), c.lost()), (2, 1));
}

fn port(name: &str, vid: Option<u16>) -> PortInfo {
    PortInfo { name: name.to_string(), vid }
}

#[test]
fn the_arduino_is_found_by_its_vendor() {
    let ports = [
        port("/dev/cu.Bluetooth", None),
        port("/dev/tty.usbmodem1", Some(0x2341)),
        port("/dev/cu.usbmodem1", Some(0x2341)),
        port("/dev/cu.other", Some(0x1a86)),
    ];
    assert!(matches!(find_port(&ports), Ok(2)));
    assert!(matches!(find_port(&ports[..2]), Err(PortError::NoArduino)));
    let two = [port("/dev/cu.a", Some(0x2341)), port("/dev/cu.b", Some(0x2341))];
    match find_port(&two) {
        Err(PortError::Several(v)) => assert_eq!(v, [0, 1]),
        _ => panic!("one was found"),
    }
}

#[test]
fn the_board_is_ready_once_it_says_so() {
    let mut h = Handshake::new();
    let early = Duration::from_millis(100);
    assert_eq!(h.next(early), Wait::Read);
    h.hear(b"\xff\x00noise ready m");
    assert_eq!(h.next(Duration::from_secs(5)), Wait::Read);
    assert_eq!(h.next(Duration::from_nanos(5_000_000_001)), Wait::GiveUp);
    h.hear(b"dd10\r\n");
    assert_eq!(h.next(early), Wait::Ready);
    assert_eq!(h.next(Duration::from_secs(60)), Wait::Ready);
    assert!(String::from_utf8_lossy(&h.said()).contains(READY));
}

#[test]
fn a_duty_is_one_byte() {
    for duty in i8::MIN..=i8::MAX {
        assert_eq!([command(duty)], duty.to_ne_bytes());
    }
}

#[test]
fn a_board_that_speaks_has_reset() {
    let mut w = Watcher::new();
    w.hear(&[]);
    assert!(!w.has_reset());
    w.hear(b"rea");
    w.hear(b"dy");
    assert!(w.has_reset());
    assert_eq!(w.said(), b"ready");
}

const LISTING: &str = "------------ ------------ ------------ ------------ ----------------
Index        Vend:Prod    LocationID   UVC Version  Device name
------------ ------------ ------------ ------------ ----------------
0            0x05ac:0x8514 0x14200000   1.00         FaceTime HD Camera (Built-in)
1            0x0c45:0x6366 0x01110000   1.00         Arducam  OV9782
------------ ------------ ------------ ------------ ----------------
";

#[test]
fn a_device_is_found_by_its_unique_id() {
    // The location's leading zeros are dropped.
    let d = Device::find("0x11100000c456366", LISTING).unwrap();
    assert_eq!((d.index.as_str(), d.name.as_str()), ("1", "Arducam OV9782"));
    let d = Device::find("0x1420000005ac8514", LISTING).unwrap();
    assert_eq!(d.index, "0");
    let none = Device::find("0x1", LISTING).unwrap_err();
    let seen: Vec<(&str, &str)> =
        none.iter().map(|c| (c.location.as_str(), c.name.as_str())).collect();
    assert_eq!(
        seen,
        [("0x14200000", "FaceTime HD Camera (Built-in)"), ("0x01110000", "Arducam OV9782")]
    );
    assert!(Device::find("not a number", LISTING).is_err());
    assert!(Device::find("0x1", "").unwrap_err().is_empty());
}

#[test]
fn hexadecimal_numbers_have_a_prefix() {
    assert_eq!(parse_hex(&chars("0x1F")), Some(31));
    assert_eq!(parse_hex(&chars("1F")), None);
    assert_eq!(parse_hex(&chars("0x")), None);
}

fn device() -> Device {
    Device { index: "3".to_string(), name: "cam".to_string() }
}

/// What the tool prints of a control with this value.
fn reads(v: &str) -> Told {
    Told::Reads(format!("control {{\n  current-value: {v}\n}}\n"))
}

/// The writes made for an exposure on a camera that takes every value, and
/// what is applied.
fn expose(us: u32, gain: Option<u16>) -> (Vec<Write>, Applied) {
    let mut exposing = device().set_exposure(us, gain);
    let mut written = Vec::new();
    let mut told = Told::Begin;
    loop {
        match exposing.next(told) {
            Expose::Write(w) => {
                told = reads(&w.value);
                written.push(w);
            }
            Expose::Applied(applied) => return (written, applied),
            Expose::Failed(_) => panic!("every write holds"),
        }
    }
}

#[test]
fn the_exposure_mode_is_written_first() {
    let (w, applied) = expose(249, Some(75));
    let pairs: Vec<(&str, &str)> =
        w.iter().map(|w| (w.control.as_str(), w.value.as_str())).collect();
    assert_eq!(
        pairs,
        [("auto-exposure-mode", "1"), ("exposure-time-abs", "2"), ("gain", "75")]
    );
    assert_eq!((applied.exposure_us, applied.gain), (200, Some(75)));
    assert_eq!(device().set_args(&w[1]), ["-I", "3", "-s", "exposure-time-abs=2"]);
    assert_eq!(device().get_args("gain"), ["-I", "3", "-S", "gain"]);
    let (w, applied) = expose(0, None);
    assert_eq!((w.len(), w[1].value.as_str(), applied.exposure_us), (2, "1", 100));
    assert_eq!(expose(250, None).1.exposure_us, 300);
}

#[test]
fn nothing_is_written_after_a_write_that_does_not_hold() {
    let mut e = device().set_exposure(200, Some(75));
    assert!(matches!(e.next(Told::Begin), Expose::Write(w) if w.control == "auto-exposure-mode"));
    let d = e.next(reads("8"));
    assert!(matches!(d, Expose::Failed(Some(WriteError::Reads(v))) if v == "8"));
    assert!(matches!(e.next(reads("1")), Expose::Failed(None)));
    assert!(matches!(e.next(Told::Begin), Expose::Failed(None)));

    let mut e = device().set_exposure(200, Some(75));
    e.next(Told::Begin);
    assert!(matches!(e.next(reads("1")), Expose::Write(w) if w.control == "exposure-time-abs"));
    let d = e.next(Told::Reads("nothing".to_string()));
    assert!(matches!(d, Expose::Failed(Some(WriteError::NoValue))));

    let mut e = device().set_exposure(200, None);
    e.next(Told::Begin);
    assert!(matches!(e.next(Told::Failed), Expose::Failed(None)));
    assert!(matches!(e.next(reads("1")), Expose::Failed(None)));
}

#[test]
fn a_write_is_checked_against_what_is_read_back() {
    let out = "gain {\n  type-description: {\n  },\n  minimum: 0\n  current-value: 75 \n}\n";
    assert_eq!(get(out).unwrap(), "75");
    let write = |v: &str| Write { control: "gain".to_string(), value: v.to_string() };
    assert!(write("75").verify(out).is_ok());
    assert!(matches!(write("80").verify(out), Err(WriteError::Reads(v)) if v == "75"));
    assert!(matches!(write("80").verify("nothing"), Err(WriteError::NoValue)));
}

#[test]
fn drift_is_reported_in_order() {
    let d = device();
    let (_, a) = expose(200, Some(75));
    let s = |v: &str| Some(v.to_string());
    assert!(d.drift(&a, s("1"), s("2"), s("75")).is_none());
    assert!(d.drift(&a, s("1"), None, None).is_none());
    assert!(d.drift(&a, None, s("9"), s("9")).is_none());
    assert!(matches!(d.drift(&a, s("8"), s("9"), None), Some(Drift::Automatic(m)) if m == "8"));
    assert!(matches!(
        d.drift(&a, s("1"), s("3"), s("9")),
        Some(Drift::Exposure { was, reads }) if was == "2" && reads == "3"
    ));
    assert!(matches!(
        d.drift(&a, s("1"), s("2"), s("70")),
        Some(Drift::Gain { was, reads }) if was == "75" && reads == "70"
    ));
}

#[test]
fn a_format_is_described_by_size_layout_and_rate() {
    assert_eq!(describe(1280, 800, "YUYV", 120), "1280x800 YUYV @ 120 fps");
    assert_eq!(describe(0, 0, "", 0), "0x0  @ 0 fps");
}
