use ptyzzz::emit::{Cursor, EmitState, Frame, ScreenView, CURSOR_HIDE_GRACE};
use ptyzzz::row::{Cell, Line};
use ptyzzz::style::CellAttributes;

/// A small terminal: the rows it has, and what it would tell of them.
struct Term {
    seqno: usize,
    alt: bool,
    cols: usize,
    rows: usize,
    base: isize,
    lines: Vec<String>,
    touched: Vec<isize>,
    cursor: (usize, i64, bool),
}

impl Term {
    fn new(lines: &[&str], rows: usize) -> Term {
        Term {
            seqno: 1,
            alt: false,
            cols: 10,
            rows,
            base: 0,
            lines: lines.iter().map(|s| s.to_string()).collect(),
            touched: vec![],
            cursor: (0, 0, true),
        }
    }

    fn view(&self) -> ScreenView {
        ScreenView {
            seqno: self.seqno,
            alt: self.alt,
            cols: self.cols,
            rows: self.rows,
            total: self.lines.len(),
            base: self.base,
            cursor_x: self.cursor.0,
            cursor_y: self.cursor.1,
            cursor_visible: self.cursor.2,
        }
    }

    fn set(&mut self, row: isize, text: &str) {
        self.seqno += 1;
        self.lines[(row - self.base) as usize] = text.to_string();
        self.touched.push(row);
    }

    fn add(&mut self, text: &str) {
        self.seqno += 1;
        self.lines.push(text.to_string());
    }

    fn trim(&mut self) {
        self.lines.remove(0);
        self.base += 1;
    }

    fn line(&self, row: isize) -> Line {
        let text = &self.lines[(row - self.base) as usize];
        let cells = text
            .chars()
            .enumerate()
            .map(|(index, c)| Cell {
                index,
                width: 1,
                text: c.to_string(),
                attrs: CellAttributes::default(),
            })
            .collect();
        Line { cells }
    }

    fn tick(&mut self, state: &mut EmitState, keyframe_due: bool, now: u64) -> Option<Frame> {
        let v = self.view();
        let mut damaged: Vec<isize> = vec![];
        if let Some((lo, hi)) = state.damage_range(&v) {
            damaged = self.touched.iter().copied().filter(|r| lo <= *r && *r < hi).collect();
            damaged.sort();
            damaged.dedup();
        }
        self.touched.clear();
        let wanted = state.rows_to_render(&v, &damaged, keyframe_due, now);
        let lines: Vec<Line> = wanted.iter().map(|r| self.line(*r)).collect();
        state.produce(&v, &damaged, &lines, keyframe_due, now, now + 1)
    }
}

fn fresh() -> EmitState {
    EmitState::new("g".to_string(), 0)
}

fn row_div(id: isize, text: &str) -> String {
    format!("<div class=\"row\" id=\"g-r-{id}\">{text}</div>")
}

fn cursor_div(row: usize, col: usize, visible: bool) -> String {
    let display = if visible { "" } else { ";display:none" };
    format!(
        "<div class=\"cursor\" id=\"g-cursor\" style=\"--cursor-row:{row};--cursor-col:{col}{display}\"></div>"
    )
}

fn html(frame: Option<Frame>) -> String {
    match frame {
        Some(Frame::Screen { html, .. }) => html,
        other => panic!("no keyframe: {other:?}"),
    }
}

fn parts(frame: Option<Frame>) -> (String, String, Vec<String>) {
    match frame {
        Some(Frame::Diff {
            patch,
            append,
            trim,
            target,
            ..
        }) => {
            assert_eq!(target, "g");
            (patch, append, trim)
        }
        other => panic!("no diff: {other:?}"),
    }
}

#[test]
fn first_frame_is_a_keyframe() {
    let mut term = Term::new(&["ab", "c"], 2);
    term.cursor = (1, 1, true);
    let mut state = fresh();
    let frame = term.tick(&mut state, false, 5);
    match &frame {
        Some(Frame::Screen {
            seqno, cols, rows, ..
        }) => assert_eq!((*seqno, *cols, *rows), (1, 10, 2)),
        other => panic!("no keyframe: {other:?}"),
    }
    assert_eq!(
        html(frame),
        format!(
            "<div id=\"g\" data-cols=\"10\" data-rows=\"2\">{}{}{}</div>",
            cursor_div(1, 1, true),
            row_div(0, "ab"),
            row_div(1, "c")
        )
    );
    assert!(state.sent_initial && !state.dirty_since_keyframe);
    assert_eq!(state.last_keyframe, 6);
}

#[test]
fn nothing_changed_emits_nothing() {
    let mut term = Term::new(&["a", "b"], 2);
    let mut state = fresh();
    assert!(term.tick(&mut state, false, 0).is_some());
    term.seqno = 9;
    assert!(term.tick(&mut state, false, 1).is_none());
    assert_eq!(state.last_seqno, 9);
}

#[test]
fn redraw_with_the_same_bytes_emits_nothing() {
    let mut term = Term::new(&["a", "b", "c", "d"], 4);
    let mut state = fresh();
    assert!(term.tick(&mut state, false, 0).is_some());
    term.set(2, "c   ");
    assert!(term.tick(&mut state, false, 1).is_none());
}

#[test]
fn a_changed_row_is_patched() {
    let mut term = Term::new(&["a", "b", "c", "d"], 4);
    let mut state = fresh();
    assert!(term.tick(&mut state, false, 0).is_some());
    term.set(2, "x<");
    let (patch, append, trim) = parts(term.tick(&mut state, false, 1));
    assert_eq!(patch, row_div(2, "x&lt;"));
    assert_eq!(append, "");
    assert!(trim.is_empty());
    assert!(state.dirty_since_keyframe);
    assert_eq!(state.last_keyframe, 1);
}

#[test]
fn a_moved_cursor_is_patched_alone() {
    let mut term = Term::new(&["a", "b", "c", "d"], 2);
    let mut state = fresh();
    assert!(term.tick(&mut state, false, 0).is_some());
    term.cursor = (4, 1, true);
    let (patch, append, trim) = parts(term.tick(&mut state, false, 1));
    assert_eq!(patch, cursor_div(3, 4, true));
    assert!(append.is_empty() && trim.is_empty());
}

#[test]
fn a_cursor_above_the_viewport_is_held_at_its_top() {
    let mut term = Term::new(&["a", "b", "c"], 1);
    term.cursor = (0, -5, true);
    let mut state = fresh();
    assert!(html(term.tick(&mut state, false, 0)).contains(&cursor_div(2, 0, true)));
    assert_eq!(
        state.shown_cursor,
        Cursor {
            row: 2,
            col: 0,
            visible: true
        }
    );
}

#[test]
fn new_rows_are_appended_and_old_ones_trimmed() {
    let mut term = Term::new(&["a", "b", "c", "d", "e", "f"], 2);
    term.cursor = (0, 0, true);
    let mut state = fresh();
    assert!(term.tick(&mut state, false, 0).is_some());
    term.add("g");
    term.trim();
    let (patch, append, trim) = parts(term.tick(&mut state, false, 1));
    assert_eq!(patch, "");
    assert_eq!(append, row_div(6, "g"));
    assert_eq!(trim, vec!["g-r-0".to_string()]);
    assert_eq!((state.last_base, state.last_max), (1, 7));
}

#[test]
fn a_burst_over_half_the_rows_is_a_keyframe() {
    let mut term = Term::new(&["a", "b", "c", "d"], 4);
    let mut state = fresh();
    assert!(term.tick(&mut state, false, 0).is_some());
    term.set(0, "w");
    term.set(1, "x");
    parts(term.tick(&mut state, false, 1));
    term.set(0, "p");
    term.set(1, "q");
    term.set(2, "r");
    let got = html(term.tick(&mut state, false, 2));
    assert!(got.contains(&row_div(2, "r")) && got.contains(&row_div(3, "d")));
    assert!(!state.dirty_since_keyframe);
}

#[test]
fn resize_and_flip_force_a_keyframe() {
    let mut term = Term::new(&["abc", "d"], 2);
    let mut state = fresh();
    assert!(term.tick(&mut state, false, 0).is_some());
    term.cols = 2;
    assert!(html(term.tick(&mut state, false, 1)).contains(&row_div(0, "ab")));
    term.rows = 1;
    assert!(html(term.tick(&mut state, false, 2)).contains("data-rows=\"1\""));
    term.alt = true;
    term.lines = vec!["alt".to_string()];
    let got = html(term.tick(&mut state, false, 3));
    assert!(got.contains(&row_div(0, "al")) && !got.contains("g-r-1"));
}

#[test]
fn a_due_keyframe_is_sent_though_nothing_changed() {
    let mut term = Term::new(&["a", "b"], 2);
    let mut state = fresh();
    let first = html(term.tick(&mut state, false, 0));
    assert_eq!(html(term.tick(&mut state, true, 9)), first);
    assert_eq!(state.last_keyframe, 10);
}

#[test]
fn a_hidden_sample_never_moves_the_cursor() {
    let mut term = Term::new(&["a", "b"], 2);
    let mut state = fresh();
    assert!(term.tick(&mut state, false, 0).is_some());
    term.cursor = (5, 1, false);
    assert!(term.tick(&mut state, false, 100).is_none());
    assert_eq!(state.hidden_since, Some(100));
    assert_eq!(state.cursor_hide_due_in(100), Some(CURSOR_HIDE_GRACE));
    assert_eq!(state.cursor_hide_due_in(160), Some(CURSOR_HIDE_GRACE - 60));
    assert!(term.tick(&mut state, false, 99 + CURSOR_HIDE_GRACE).is_none());
    assert_eq!(state.cursor_hide_due_in(100 + CURSOR_HIDE_GRACE), Some(0));
    let (patch, _, _) = parts(term.tick(&mut state, false, 100 + CURSOR_HIDE_GRACE));
    assert_eq!(patch, cursor_div(0, 0, false));
    assert_eq!(state.cursor_hide_due_in(u64::MAX), None);
    assert!(term.tick(&mut state, false, u64::MAX).is_none());
}

#[test]
fn a_short_hide_is_swallowed() {
    let mut term = Term::new(&["a", "b"], 2);
    let mut state = fresh();
    assert!(term.tick(&mut state, false, 0).is_some());
    term.cursor = (3, 1, false);
    assert!(term.tick(&mut state, false, 10).is_none());
    term.cursor = (0, 0, true);
    assert!(term.tick(&mut state, false, 20).is_none());
    assert_eq!(state.hidden_since, None);
    assert_eq!(state.cursor_hide_due_in(20), None);
}

#[test]
fn the_first_frame_takes_a_hidden_cursor_as_it_is() {
    let mut term = Term::new(&["a"], 1);
    term.cursor = (2, 0, false);
    let mut state = fresh();
    assert!(html(term.tick(&mut state, false, 0)).contains(&cursor_div(0, 2, false)));
}

#[test]
fn scans_start_at_the_last_viewport() {
    let mut term = Term::new(&["a", "b", "c"], 2);
    let mut state = fresh();
    assert_eq!(state.scan_lo(), None);
    assert!(term.tick(&mut state, false, 0).is_some());
    assert_eq!(state.scan_lo(), Some(1));
    assert_eq!(state.damage_range(&term.view()), Some((1, 3)));
}

/// A client: its rows by id, and its cursor.
struct Client {
    rows: Vec<String>,
    cursor: String,
}

fn pieces(html: &str) -> Vec<String> {
    html.split_inclusive("</div>").map(|s| s.to_string()).collect()
}

fn id_of(piece: &str) -> &str {
    piece.split("id=\"").nth(1).unwrap().split('"').next().unwrap()
}

impl Client {
    fn apply(&mut self, frame: &Frame) {
        match frame {
            Frame::Screen { html, .. } => {
                let body = html.split_once('>').unwrap().1.strip_suffix("</div>").unwrap();
                let mut all = pieces(body);
                self.cursor = all.remove(0);
                self.rows = all;
            }
            Frame::Diff {
                patch,
                append,
                trim,
                ..
            } => {
                for piece in pieces(patch) {
                    if id_of(&piece) == "g-cursor" {
                        self.cursor = piece;
                    } else {
                        let at = self.rows.iter().position(|r| id_of(r) == id_of(&piece));
                        self.rows[at.unwrap()] = piece;
                    }
                }
                self.rows.extend(pieces(append));
                self.rows.retain(|r| !trim.iter().any(|id| id == id_of(r)));
            }
        }
    }
}

#[test]
fn a_client_that_applies_every_frame_stays_in_sync() {
    let mut term = Term::new(&["a", "b", "c", "d", "e", "f", "g", "h"], 4);
    let mut state = fresh();
    let mut client = Client {
        rows: vec![],
        cursor: String::new(),
    };
    for step in 0..40u64 {
        match step % 5 {
            1 => {
                let row = term.base + term.lines.len() as isize - 1 - (step % 3) as isize;
                term.set(row, &format!("s{step}"));
            }
            2 => term.add(&format!("n{step}")),
            3 => term.trim(),
            4 => term.cursor = ((step % 7) as usize, (step % 4) as i64, step % 2 == 0),
            _ => {}
        }
        if let Some(frame) = term.tick(&mut state, false, step * 50_000_000) {
            client.apply(&frame);
        }
        let want: Vec<String> = (0..term.lines.len() as isize)
            .map(|i| row_div(term.base + i, &term.lines[i as usize]))
            .collect();
        assert_eq!(client.rows, want, "step {step}");
    }
    let mut healed = Client {
        rows: vec!["stale".to_string()],
        cursor: String::new(),
    };
    healed.apply(&term.tick(&mut state, true, 9_000_000_000).unwrap());
    assert_eq!(healed.rows, client.rows);
    assert_eq!(healed.cursor, cursor_div(state.shown_cursor.row, state.shown_cursor.col, state.shown_cursor.visible));
}
