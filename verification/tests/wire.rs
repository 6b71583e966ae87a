use ptyzzz::emit::Frame;
use ptyzzz::wire::{exit_line, frame_line};
use serde_json::Value;

fn screen(html: &str) -> Frame {
    Frame::Screen {
        seqno: 12,
        cols: 80,
        rows: 24,
        html: html.to_string(),
    }
}

fn diff(patch: &str, trim: Vec<String>) -> Frame {
    Frame::Diff {
        seqno: 3,
        target: "grid".to_string(),
        patch: patch.to_string(),
        append: "<b>".to_string(),
        trim,
    }
}

fn parsed(line: &str) -> Value {
    serde_json::from_str(line).unwrap()
}

#[test]
fn screen_line() {
    assert_eq!(
        frame_line(&screen("<div id=\"grid\">")),
        "{\"cols\":80,\"html\":\"<div id=\\\"grid\\\">\",\"rows\":24,\"seqno\":12,\"t\":\"screen\"}"
    );
}

#[test]
fn diff_line() {
    let trim = vec!["grid-r-0".to_string(), "grid-r-1".to_string()];
    assert_eq!(
        frame_line(&diff("p", trim)),
        "{\"append\":\"<b>\",\"patch\":\"p\",\"seqno\":3,\"t\":\"diff\",\"target\":\"grid\",\
         \"trim\":[\"grid-r-0\",\"grid-r-1\"]}"
    );
    assert!(frame_line(&diff("p", vec![])).ends_with("\"trim\":[]}"));
}

#[test]
fn exit_lines() {
    assert_eq!(exit_line(0), "{\"code\":0,\"t\":\"exit\"}");
    assert_eq!(exit_line(-1), "{\"code\":-1,\"t\":\"exit\"}");
    assert_eq!(exit_line(i64::MIN), "{\"code\":-9223372036854775808,\"t\":\"exit\"}");
    assert_eq!(parsed(&exit_line(137))["code"].as_i64(), Some(137));
}

#[test]
fn strings_are_escaped() {
    let html = "\"\\\u{8}\t\n\u{c}\r\u{0}\u{1b}\u{1f}\u{7f}é世";
    assert_eq!(
        frame_line(&screen(html)),
        "{\"cols\":80,\"html\":\"\\\"\\\\\\b\\t\\n\\f\\r\\u0000\\u001b\\u001f\u{7f}é世\",\
         \"rows\":24,\"seqno\":12,\"t\":\"screen\"}"
    );
}

#[test]
fn lines_hold_no_control_characters() {
    let all: String = (0..0x300u32).filter_map(char::from_u32).collect();
    for line in [frame_line(&screen(&all)), frame_line(&diff(&all, vec![all.clone()]))] {
        assert!(line.chars().all(|c| c as u32 >= 0x20));
    }
}

#[test]
fn lines_parse_back() {
    let html = "<a href=\"x\">\u{0}\n</a>";
    let v = parsed(&frame_line(&screen(html)));
    assert_eq!(v["t"].as_str(), Some("screen"));
    assert_eq!(v["seqno"].as_u64(), Some(12));
    assert_eq!(v["cols"].as_u64(), Some(80));
    assert_eq!(v["rows"].as_u64(), Some(24));
    assert_eq!(v["html"].as_str(), Some(html));
    let v = parsed(&frame_line(&diff("\u{1b}[0m", vec!["a,\"b\"]".to_string()])));
    assert_eq!(v["patch"].as_str(), Some("\u{1b}[0m"));
    assert_eq!(v["append"].as_str(), Some("<b>"));
    assert_eq!(v["target"].as_str(), Some("grid"));
    assert_eq!(v["trim"][0].as_str(), Some("a,\"b\"]"));
}

#[test]
fn different_frames_have_different_lines() {
    let lines = [
        frame_line(&screen("a")),
        frame_line(&screen("b")),
        frame_line(&screen("a\",\"rows\":24")),
        frame_line(&diff("a", vec![])),
        frame_line(&diff("a", vec![String::new()])),
        frame_line(&diff("a", vec!["x".to_string(), "y".to_string()])),
        frame_line(&diff("a", vec!["x\",\"y".to_string()])),
        exit_line(0),
    ];
    for i in 0..lines.len() {
        for j in 0..i {
            assert_ne!(lines[i], lines[j]);
        }
    }
}
