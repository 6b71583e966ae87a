use ptyzzz::emit::EmitState;
use ptyzzz::links::{
    changed_range, hyperlink_rules, scan_candidate, scan_range, LinkPattern, ScanRow,
};
use ptyzzz::pacing::{after_tick, Loop, Pacer, Wait};
use ptyzzz::session::{
    after_read, arm_pdeathsig, bump, child_command, child_environment, exit_code, kills_on_eof,
    orphaned, Read, ReaderStep, ENGINE,
};

const MS: u64 = 1_000_000;
const SEC: u64 = 1_000_000_000;

fn pacer() -> Pacer {
    Pacer::new(16, 5, 0, true)
}

fn state() -> EmitState {
    EmitState::new("g".to_string(), 0)
}

fn scan_row(text: &str, linked: &[bool]) -> ScanRow {
    ScanRow {
        text: text.to_string(),
        linked: linked.to_vec(),
    }
}

#[test]
fn command_defaults_to_the_shell_and_then_nu() {
    let given = vec!["top".to_string(), "-d".to_string()];
    assert_eq!(child_command(given.clone(), Some("sh".to_string())), given);
    assert_eq!(child_command(vec![], Some("/bin/zsh".to_string())), vec!["/bin/zsh"]);
    assert_eq!(child_command(vec![], None), vec!["nu"]);
}

#[test]
fn environment_of_the_child() {
    assert_eq!(
        child_environment(),
        vec![
            ("TERM", "xterm-256color"),
            ("COLORTERM", "truecolor"),
            ("PTYZZZ_ENGINE", "wezterm-term"),
        ]
    );
    assert_eq!(ENGINE, "wezterm-term");
}

#[test]
fn exit_codes() {
    assert_eq!(exit_code(Some(0)), 0);
    assert_eq!(exit_code(Some(u32::MAX)), 4294967295);
    assert_eq!(exit_code(None), -1);
}

#[test]
fn parent_death() {
    let call = arm_pdeathsig();
    assert_eq!((call.option, call.arg2), (1, 15));
    assert_eq!((call.arg3, call.arg4, call.arg5), (0, 0, 0));
    assert!(orphaned(1));
    assert!(!orphaned(2) && !orphaned(0) && !orphaned(-1));
}

#[test]
fn end_of_input_policy() {
    assert!(kills_on_eof("exit"));
    assert!(!kills_on_eof("ignore"));
    assert!(!kills_on_eof("exit "));
}

#[test]
fn reader_steps() {
    assert_eq!(after_read(Read::Bytes(0)), ReaderStep::End);
    assert_eq!(after_read(Read::Bytes(4096)), ReaderStep::Feed(4096));
    assert_eq!(after_read(Read::Interrupted), ReaderStep::Again);
    assert_eq!(after_read(Read::Failed), ReaderStep::End);
}

#[test]
fn generations_wrap_around() {
    let mut g = 0u64;
    bump(&mut g);
    assert_eq!(g, 1);
    g = u64::MAX;
    bump(&mut g);
    assert_eq!(g, 0);
}

#[test]
fn pace_from_the_arguments() {
    let p = Pacer::new(16, 5, 1000, true);
    assert_eq!(p.coalesce, 16 * MS as u128);
    assert_eq!(p.keyframe_interval, 5 * SEC as u128);
    assert_eq!(p.earliest, 1000);
    let p = Pacer::new(3, 0, 1000, false);
    assert_eq!(p.keyframe_interval, SEC as u128);
    assert_eq!(p.earliest, 1000 + 3 * MS as u128);
    let p = Pacer::new(u64::MAX, u64::MAX, u64::MAX, false);
    assert_eq!(p.earliest, u64::MAX as u128 * MS as u128 + u64::MAX as u128);
}

#[test]
fn the_first_pass_produces() {
    assert_eq!(pacer().wait(&state(), 0, false, 0), Wait::Produce);
    assert_eq!(pacer().hold(false, 0), 0);
}

#[test]
fn an_idle_emitter_waits() {
    let mut p = pacer();
    let mut s = state();
    assert!(!p.start(&s, 4, 10));
    assert_eq!(p.wait(&s, 4, false, 10), Wait::Sleep(SEC));
    assert_eq!(p.wait(&s, 5, false, 10), Wait::Produce);
    assert_eq!(p.wait(&s, 4, true, 10), Wait::Produce);
    s.dirty_since_keyframe = true;
    assert_eq!(p.wait(&s, 4, false, 10), Wait::Sleep(SEC));
    assert_eq!(p.wait(&s, 4, false, 5 * SEC - 7), Wait::Sleep(7));
    assert_eq!(p.wait(&s, 4, false, 5 * SEC), Wait::Produce);
    assert!(p.start(&s, 4, 5 * SEC));
    assert!(!p.start(&s, 4, 5 * SEC - 1));
}

#[test]
fn a_pending_hide_ends_the_wait() {
    let mut p = pacer();
    let mut s = state();
    p.start(&s, 4, 0);
    s.hidden_since = Some(SEC);
    assert_eq!(p.wait(&s, 4, false, SEC + 20 * MS), Wait::Sleep(100 * MS));
    assert_eq!(p.wait(&s, 4, false, SEC + 120 * MS), Wait::Produce);
    s.shown_cursor.visible = false;
    assert_eq!(p.wait(&s, 4, false, SEC + 120 * MS), Wait::Sleep(SEC));
}

#[test]
fn productions_are_held_apart() {
    let mut p = pacer();
    p.start(&state(), 1, 100 * MS);
    assert_eq!(p.hold(false, 100 * MS), 16 * MS as u128);
    assert_eq!(p.hold(false, 110 * MS), 6 * MS as u128);
    assert_eq!(p.hold(false, 116 * MS), 0);
    assert_eq!(p.hold(false, 900 * MS), 0);
    assert_eq!(p.hold(true, 100 * MS), 0);
}

#[test]
fn what_follows_a_tick() {
    assert_eq!(after_tick(true, false), Loop::Again);
    assert_eq!(after_tick(true, true), Loop::End);
    assert_eq!(after_tick(false, false), Loop::KillAndEnd);
    assert_eq!(after_tick(false, true), Loop::KillAndEnd);
}

#[test]
fn link_rules() {
    let rules = hyperlink_rules();
    let regexes: Vec<&str> = rules
        .iter()
        .filter_map(|r| match r.pattern {
            LinkPattern::Regex(s) => Some(s),
            _ => None,
        })
        .collect();
    assert_eq!(
        regexes,
        vec![
            r"\((\w+://\S+)\)",
            r"\[(\w+://\S+)\]",
            r"<(\w+://\S+)>",
            r"\b\w+@[\w-]+(\.[\w-]+)+\b",
        ]
    );
    assert!(matches!(rules[3].pattern, LinkPattern::ClosingParenthesis));
    assert!(matches!(rules[4].pattern, LinkPattern::Generic));
    let formats: Vec<&str> = rules.iter().map(|r| r.format).collect();
    assert_eq!(formats, vec!["$1", "$1", "$1", "$0", "$0", "mailto:$0"]);
    let groups: Vec<Option<usize>> = rules.iter().map(|r| r.highlight).collect();
    assert_eq!(groups, vec![Some(1), Some(1), Some(1), None, None, None]);
}

#[test]
fn scan_ranges() {
    assert_eq!(scan_range(5, 0, None), None);
    assert_eq!(scan_range(5, 3, None), Some((5, 8)));
    assert_eq!(scan_range(5, 3, Some(2)), Some((5, 8)));
    assert_eq!(scan_range(5, 3, Some(7)), Some((7, 8)));
    assert_eq!(scan_range(-4, 3, Some(9)), Some((9, -1)));
    assert_eq!(changed_range(&vec![]), None);
    assert_eq!(changed_range(&vec![4]), Some((4, 5)));
    assert_eq!(changed_range(&vec![4, 6, 9]), Some((4, 10)));
}

#[test]
fn scan_candidates() {
    assert!(!scan_candidate(&vec![]));
    assert!(!scan_candidate(&vec![scan_row("plain : / text", &[false, false])]));
    assert!(scan_candidate(&vec![scan_row("", &[]), scan_row("see http://x", &[])]));
    assert!(scan_candidate(&vec![scan_row("a@b", &[])]));
    assert!(scan_candidate(&vec![scan_row("gone", &[false, true])]));
    for url in ["http://x", "HTTPS://y"] {
        assert!(scan_candidate(&vec![scan_row(&format!("a {url} b"), &[])]));
    }
}
