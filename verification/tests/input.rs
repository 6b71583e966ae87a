use ptyzzz::command::{answer, bad_command, is_blank, redraws, Action, Cmd};
use ptyzzz::keys::{encode_super_key, parse_key, parse_mods, KeyCode, KeyModifiers};

fn mods(shift: bool, alt: bool, ctrl: bool, meta: bool) -> KeyModifiers {
    KeyModifiers {
        shift,
        alt,
        ctrl,
        meta,
    }
}

fn key(name: &str, mods: u8) -> Action {
    answer(Cmd::Key {
        key: name.to_string(),
        mods,
    })
}

#[test]
fn single_characters_pass_through() {
    for c in ['a', 'F', ' ', 'é', '世', '\n'] {
        assert_eq!(parse_key(&c.to_string()), Some(KeyCode::Char(c)));
    }
}

#[test]
fn named_keys() {
    let names = [
        ("ArrowUp", KeyCode::UpArrow),
        ("ArrowDown", KeyCode::DownArrow),
        ("ArrowLeft", KeyCode::LeftArrow),
        ("ArrowRight", KeyCode::RightArrow),
        ("Home", KeyCode::Home),
        ("End", KeyCode::End),
        ("PageUp", KeyCode::PageUp),
        ("PageDown", KeyCode::PageDown),
        ("Insert", KeyCode::Insert),
        ("Delete", KeyCode::Delete),
        ("Enter", KeyCode::Enter),
        ("Tab", KeyCode::Tab),
        ("Backspace", KeyCode::Backspace),
        ("Escape", KeyCode::Escape),
    ];
    for (name, code) in names {
        assert_eq!(parse_key(name), Some(code));
    }
}

#[test]
fn function_keys_by_number() {
    for n in 1..=24u8 {
        assert_eq!(parse_key(&format!("F{n}")), Some(KeyCode::Function(n)));
    }
    assert_eq!(parse_key("F+5"), Some(KeyCode::Function(5)));
    assert_eq!(parse_key("F007"), Some(KeyCode::Function(7)));
}

#[test]
fn function_names_follow_std_numerals() {
    let names = [
        "F0", "F25", "F255", "F256", "F1000", "F+", "F-1", "F-0", "F++1", "F 1", "F1 ", "Fx",
        "F1.0", "F٣", "Fn", "FF", "F00", "F0024", "F+024",
    ];
    for name in names {
        let n = name[1..].parse::<u8>().ok().filter(|n| (1..=24).contains(n));
        assert_eq!(parse_key(name), n.map(KeyCode::Function), "{name}");
    }
}

#[test]
fn unknown_names() {
    for name in ["", "arrowup", "Shift", "Dead", "f1", "ab"] {
        assert_eq!(parse_key(name), None);
    }
}

#[test]
fn super_keys_have_csi_forms() {
    let cases = [
        (KeyCode::LeftArrow, 8, "\x1b[1;9D"),
        (KeyCode::UpArrow, 8, "\x1b[1;9A"),
        (KeyCode::DownArrow, 9, "\x1b[1;10B"),
        (KeyCode::RightArrow, 15, "\x1b[1;16C"),
        (KeyCode::Home, 8, "\x1b[1;9H"),
        (KeyCode::End, 8, "\x1b[1;9F"),
        (KeyCode::Insert, 8, "\x1b[2;9~"),
        (KeyCode::Delete, 8, "\x1b[3;9~"),
        (KeyCode::PageUp, 8, "\x1b[5;9~"),
        (KeyCode::PageDown, 254, "\x1b[6;255~"),
    ];
    for (code, bits, text) in cases {
        assert_eq!(encode_super_key(&code, bits), Some(text.to_string()));
    }
    for code in [KeyCode::Char('a'), KeyCode::Enter, KeyCode::Tab, KeyCode::Escape] {
        assert_eq!(encode_super_key(&code, 8), None);
    }
}

#[test]
fn super_function_keys() {
    let want = [
        "\x1b[1;9P", "\x1b[1;9Q", "\x1b[1;9R", "\x1b[1;9S", "\x1b[15;9~", "\x1b[17;9~",
        "\x1b[18;9~", "\x1b[19;9~", "\x1b[20;9~", "\x1b[21;9~", "\x1b[23;9~", "\x1b[24;9~",
    ];
    for n in 1..=12u8 {
        assert_eq!(
            encode_super_key(&KeyCode::Function(n), 8),
            Some(want[n as usize - 1].to_string())
        );
    }
    assert_eq!(encode_super_key(&KeyCode::Function(13), 8), None);
    assert_eq!(encode_super_key(&KeyCode::Function(0), 8), None);
}

#[test]
fn sequences_are_never_shared() {
    let mut codes = vec![
        KeyCode::UpArrow,
        KeyCode::DownArrow,
        KeyCode::LeftArrow,
        KeyCode::RightArrow,
        KeyCode::Home,
        KeyCode::End,
        KeyCode::Insert,
        KeyCode::Delete,
        KeyCode::PageUp,
        KeyCode::PageDown,
    ];
    codes.extend((1..=12u8).map(KeyCode::Function));
    let mut seen = std::collections::BTreeSet::new();
    for code in &codes {
        for bits in 0..255u8 {
            assert!(seen.insert(encode_super_key(code, bits).unwrap()));
        }
    }
}

#[test]
fn modifier_bits() {
    assert_eq!(parse_mods(0), mods(false, false, false, false));
    assert_eq!(parse_mods(1), mods(true, false, false, false));
    assert_eq!(parse_mods(2), mods(false, true, false, false));
    assert_eq!(parse_mods(4), mods(false, false, true, false));
    assert_eq!(parse_mods(8), mods(false, false, false, true));
    assert_eq!(parse_mods(0xf0 | 5), mods(true, false, true, false));
}

#[test]
fn raw_input_is_written() {
    let got = answer(Cmd::Input {
        b: "ls\n".to_string(),
    });
    assert!(!redraws(&got));
    assert!(matches!(got, Action::Write(s) if s == "ls\n"));
}

#[test]
fn keys_go_to_the_emulator() {
    assert!(matches!(key("a", 4), Action::KeyDown(KeyCode::Char('a'), m) if m == parse_mods(4)));
    assert!(matches!(key("Enter", 0), Action::KeyDown(KeyCode::Enter, m) if m == parse_mods(0)));
}

#[test]
fn meta_keys_are_encoded_or_lose_meta() {
    assert!(matches!(key("ArrowLeft", 8), Action::Write(s) if s == "\x1b[1;9D"));
    assert!(matches!(key("a", 9), Action::KeyDown(KeyCode::Char('a'), m) if m == parse_mods(1)));
    assert!(matches!(key("Enter", 12), Action::KeyDown(KeyCode::Enter, m) if m == parse_mods(4)));
}

#[test]
fn unknown_keys_are_complained_about() {
    assert!(matches!(key("Nope", 0), Action::Complain(s) if s == "ptyZZZ: unknown key: Nope"));
    assert!(matches!(key("Nope", 255), Action::Complain(s) if s == "ptyZZZ: unknown key: Nope"));
}

#[test]
fn pastes_and_resizes() {
    let paste = answer(Cmd::Paste {
        s: "x\ny".to_string(),
    });
    assert!(matches!(paste, Action::Paste(s) if s == "x\ny"));
    let resize = answer(Cmd::Resize { cols: 100, rows: 40 });
    assert!(redraws(&resize));
    assert!(matches!(resize, Action::Resize { cols: 100, rows: 40 }));
}

#[test]
fn blank_lines_hold_no_command() {
    for line in ["", "  ", "\t\r", "\u{3000}", "{", " x "] {
        assert_eq!(is_blank(line), line.trim().is_empty());
    }
    assert_eq!(bad_command("{\"t\""), "ptyZZZ: bad command: {\"t\"");
}
