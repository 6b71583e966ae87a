use ptyzzz::vt::{
    active_origin, carries_bytes, style_col, style_default, BgQuery, BgReply, CellFacts, CellReply,
    Col, HistReply, HistRow, Opening, PinCall, Point, Release, Scalars, ScalarsReply, SetupStep,
    StyleColor, Vt,
};

fn color(tag: u32) -> StyleColor {
    StyleColor {
        tag,
        palette: 9,
        red: 1,
        green: 2,
        blue: 3,
    }
}

fn vt() -> Vt {
    Vt {
        term: 1,
        state: 2,
        rows: 3,
        cells: 4,
        pin: 0,
    }
}

fn facts(tag: u32) -> CellFacts {
    CellFacts {
        tag,
        ..CellFacts::default()
    }
}

fn bg(code: i32) -> BgReply {
    BgReply {
        code,
        palette: 7,
        red: 10,
        green: 20,
        blue: 30,
    }
}

#[test]
fn style_colors() {
    assert_eq!(style_col(&color(0)), Col::Unset);
    assert_eq!(style_col(&color(1)), Col::Palette(9));
    assert_eq!(style_col(&color(2)), Col::Rgb(1, 2, 3));
    assert_eq!(style_col(&color(3)), Col::Unset);
}

#[test]
fn default_cell() {
    let f = CellFacts::default();
    assert_eq!((f.codepoint, f.tag, f.wide, f.raw), (0, 0, 0, 0));
    assert_eq!(f.style, style_default());
    assert_eq!(style_col(&f.style.fg_color), Col::Unset);
    assert!(!f.style.bold && f.style.underline == 0);
}

#[test]
fn content_backgrounds() {
    assert_eq!(facts(0).bg_query(), BgQuery::Nothing);
    assert_eq!(facts(1).content_bg(&bg(0)), Col::Unset);
    assert_eq!(facts(2).bg_query(), BgQuery::Palette);
    assert_eq!(facts(2).content_bg(&bg(0)), Col::Palette(7));
    assert_eq!(facts(2).content_bg(&bg(-1)), Col::Unset);
    assert_eq!(facts(3).bg_query(), BgQuery::Rgb);
    assert_eq!(facts(3).content_bg(&bg(0)), Col::Rgb(10, 20, 30));
    assert_eq!(facts(3).content_bg(&bg(4)), Col::Unset);
}

#[test]
fn a_terminal_opens_in_six_steps() {
    let mut setup = Vt::new(80, 24, 3000);
    assert_eq!((setup.cols, setup.rows, setup.max_scrollback), (80, 24, 3000));
    let mut steps = vec![];
    for handle in [11, 0, 0, 22, 33, 44] {
        steps.push(setup.step);
        match setup.reply(0, handle) {
            Ok(Opening::Next(next)) => setup = next,
            Ok(Opening::Open(open)) => {
                assert_eq!(
                    open,
                    Vt {
                        term: 11,
                        state: 22,
                        rows: 33,
                        cells: 44,
                        pin: 0
                    }
                );
            }
            Err(step) => panic!("{step:?}"),
        }
    }
    assert_eq!(
        steps,
        vec![
            SetupStep::Terminal,
            SetupStep::Userdata,
            SetupStep::WritePty,
            SetupStep::RenderState,
            SetupStep::RowIterator,
            SetupStep::RowCells,
        ]
    );
}

#[test]
fn refused_steps_are_named() {
    let mut setup = Vt::new(1, 1, 0);
    let messages = [
        "ghostty_terminal_new",
        "set USERDATA",
        "set WRITE_PTY",
        "render state",
        "row iter",
        "cells iter",
    ];
    for (i, message) in messages.iter().enumerate() {
        assert_eq!(setup.reply(-2, 5), Err(setup.step));
        assert_eq!(setup.step.message(), *message);
        if i != 1 && i != 2 {
            assert_eq!(setup.reply(0, 0), Err(setup.step));
        }
        if let Ok(Opening::Next(next)) = setup.reply(0, 5) {
            setup = next;
        }
    }
}

#[test]
fn scalars_of_a_reply() {
    let reply = |screen: u32| ScalarsReply {
        screen,
        cols: 80,
        rows: 24,
        scrollback_rows: 100,
        cursor_x: 7,
        cursor_y: 3,
    };
    let want = |alt: bool| Scalars {
        alt,
        cols: 80,
        rows: 24,
        scrollback_rows: 100,
        cursor_x: 7,
        cursor_y: 3,
    };
    assert_eq!(vt().scalars(&reply(0)), want(false));
    assert_eq!(vt().scalars(&reply(1)), want(true));
    assert_eq!(vt().scalars(&reply(2)), want(false));
}

#[test]
fn the_pin_comes_and_goes() {
    let mut v = vt();
    assert!(!v.has_pin());
    assert_eq!(v.pin_screen_y(0, 5), None);
    assert_eq!(v.repin_call(), PinCall::Track);
    assert_eq!(v.repin(-1, 9), None);
    assert!(!v.has_pin());
    assert_eq!(v.repin(0, 9), None);
    assert!(v.has_pin());
    assert_eq!(v.pin_screen_y(0, 5), Some(5));
    assert_eq!(v.pin_screen_y(1, 5), None);
    assert_eq!(v.repin_call(), PinCall::Move(9));
    assert_eq!(v.repin(0, 0), None);
    assert_eq!(v.pin, 9);
    assert_eq!(v.repin(-3, 0), Some(9));
    assert_eq!(v, vt());
}

#[test]
fn places() {
    assert_eq!(active_origin(), Point::Active { x: 0, y: 0 });
    assert_eq!(Vt::history_point(12), Some(Point::Screen { x: 0, y: 12 }));
    let last = u32::MAX;
    assert_eq!(Vt::history_point(last as u64), Some(Point::Screen { x: 0, y: last }));
    assert_eq!(Vt::history_point(1 << 32), None);
    assert_eq!(Vt::history_point((1 << 32) + 3), None);
}

#[test]
fn callbacks_without_bytes_write_nothing() {
    assert!(carries_bytes(1, 4096));
    assert!(!carries_bytes(0, 4096));
    assert!(!carries_bytes(1, 0));
}

#[test]
fn frames_and_rows() {
    let mut v = vt();
    assert!(v.begin_frame(30, 2));
    assert!(!v.begin_frame(31, 1));
    assert!(!v.begin_frame(31, 0));
    assert_eq!(v.rows, 31);
    assert_eq!(v.next_row(false, true, 40), None);
    assert_eq!(v.cells, 4);
    assert_eq!(v.next_row(true, true, 40), Some(true));
    assert_eq!(v.next_row(true, false, 41), Some(false));
    assert_eq!(v.cells, 41);
}

#[test]
fn viewport_cells() {
    let style = ptyzzz::vt::Style {
        bold: true,
        ..style_default()
    };
    let reply = |more: bool| CellReply {
        more,
        raw: 99,
        style,
        codepoint: 65,
        tag: 1,
        wide: 2,
    };
    let mut f = CellFacts::default();
    assert!(!vt().next_cell(&mut f, &reply(false)));
    assert_eq!(f, CellFacts::default());
    assert!(vt().next_cell(&mut f, &reply(true)));
    assert_eq!((f.codepoint, f.tag, f.wide, f.raw), (65, 1, 2, 99));
    assert_eq!(f.style, style);
}

#[test]
fn viewport_graphemes() {
    let mut buf = vec![0x61u32; 100];
    buf[0] = 0x65;
    buf[1] = 0xd800;
    buf[2] = 0x301;
    let text = |len_code: i32, len: u32, buf_code: i32| {
        let mut out = String::from("|");
        vt().cell_graphemes(&mut out, len_code, len, buf_code, &buf);
        out
    };
    assert_eq!(text(0, 3, 0), "|e\u{301}");
    assert_eq!(text(0, 1, 0), "|e");
    assert_eq!(text(0, 0, 0), "|");
    assert_eq!(text(-1, 3, 0), "|");
    assert_eq!(text(0, 3, -1), "|");
    assert_eq!(text(0, 64, 0).chars().count(), 64);
    assert_eq!(text(0, 65, 0), format!("|e\u{301}{}", "a".repeat(62)));
    assert_eq!(text(0, 100, 0).chars().count(), 100);
    assert_eq!(vt().graphemes_wanted(0, 64), Some(64));
    assert_eq!(vt().graphemes_wanted(0, 65), Some(65));
    assert_eq!(vt().graphemes_wanted(0, u32::MAX), Some(u32::MAX as usize));
    assert_eq!(vt().graphemes_wanted(0, 0), None);
    assert_eq!(vt().graphemes_wanted(1, 5), None);
}

#[test]
fn history_rows() {
    let row = HistRow {
        node: 8,
        x: 0,
        y: 2,
    };
    assert_eq!(vt().history_row(0, 8, 0, 2), Some(row));
    assert_eq!(vt().history_row(0, 0, 0, 2), None);
    assert_eq!(vt().history_row(-1, 8, 0, 2), None);
}

#[test]
fn history_cells() {
    let style = ptyzzz::vt::Style {
        italic: true,
        ..style_default()
    };
    let reply = |lookup_code: i32, decode_code: i32, has_styling: bool| HistReply {
        lookup_code,
        raw: 77,
        decode_code,
        codepoint: 66,
        tag: 0,
        wide: 1,
        has_styling,
        style,
    };
    let before = CellFacts {
        codepoint: 1,
        style,
        ..CellFacts::default()
    };
    let mut row = HistRow {
        node: 8,
        x: 0,
        y: 2,
    };
    let mut f = before;
    assert!(!row.cell(5, &mut f, &reply(-1, 0, true)));
    assert_eq!((f, row.x), (before, 5));
    assert!(!row.cell(6, &mut f, &reply(0, -1, true)));
    assert_eq!((f.codepoint, f.wide, f.raw, row.x), (66, 1, 0, 6));
    assert!(row.cell(7, &mut f, &reply(0, 0, false)));
    assert_eq!((f.style, f.raw), (style_default(), 77));
    assert!(row.cell(8, &mut f, &reply(0, 0, true)));
    assert_eq!((f.style, row.x, row.node, row.y), (style, 8, 8, 2));
}

#[test]
fn history_graphemes() {
    let row = HistRow {
        node: 8,
        x: 0,
        y: 2,
    };
    let mut buf = vec![0x61u32; 100];
    buf[1] = 0x110000;
    let text = |code: i32, len: usize| {
        let mut out = String::from("|");
        row.graphemes(&mut out, code, &buf, len);
        out
    };
    assert_eq!(text(0, 3), "|aa");
    assert_eq!(text(0, 0), "|");
    assert_eq!(text(-1, 3), "|");
    assert_eq!(text(0, 65).len(), 65);
    assert_eq!(text(0, 100), format!("|{}", "a".repeat(99)));
    assert_eq!(text(-3, 1000), "|");
    assert_eq!(row.graphemes_room(-3, 1000), Some(1000));
    assert_eq!(row.graphemes_room(0, 3), None);
    assert_eq!(row.graphemes_room(-1, 1000), None);
}

#[test]
fn closing_releases_all_in_order() {
    let mut v = vt();
    assert_eq!(
        v.close(),
        vec![
            Release::RowCells(4),
            Release::RowIterator(3),
            Release::RenderState(2),
            Release::Terminal(1),
        ]
    );
    v.repin(0, 9);
    assert_eq!(
        v.close(),
        vec![
            Release::RowCells(4),
            Release::RowIterator(3),
            Release::RenderState(2),
            Release::Pin(9),
            Release::Terminal(1),
        ]
    );
}
