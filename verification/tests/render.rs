use ptyzzz::links::safe_href;
use ptyzzz::row::{cell_needs_box, html_escape, render_cursor_into, render_row_into, Cell, Line};
use ptyzzz::style::{
    append_color_inline, attrs_equiv, cell_class_and_style, palette_to_rgb, CellAttributes,
    ColorAttribute, Intensity, TrueColor, Underline,
};

fn escaped(s: &str) -> String {
    let mut out = String::new();
    html_escape(s, &mut out);
    out
}

fn plain() -> CellAttributes {
    CellAttributes::default()
}

fn bold() -> CellAttributes {
    CellAttributes {
        intensity: Intensity::Bold,
        ..plain()
    }
}

fn linked(uri: &str) -> CellAttributes {
    CellAttributes {
        hyperlink: Some(uri.to_string()),
        ..plain()
    }
}

fn cell(index: usize, text: &str, attrs: CellAttributes) -> Cell {
    Cell {
        index,
        width: 1,
        text: text.to_string(),
        attrs,
    }
}

fn row(cells: Vec<Cell>, cols: usize) -> String {
    let mut out = String::new();
    render_row_into(&mut out, "grid", &Line { cells }, cols, 7);
    out
}

fn row_of(inner: &str) -> String {
    format!("<div class=\"row\" id=\"grid-r-7\">{inner}</div>")
}

fn rgb(red: u8, green: u8, blue: u8) -> TrueColor {
    TrueColor {
        red,
        green,
        blue,
        exact: 0,
    }
}

#[test]
fn escaping_replaces_markup() {
    assert_eq!(escaped("a<b>&\"c'"), "a&lt;b&gt;&amp;&quot;c'");
    assert_eq!(escaped(""), "");
    assert_eq!(escaped("&amp;"), "&amp;amp;");
}

#[test]
fn escaping_appends() {
    let mut out = String::from("<p>");
    html_escape("<", &mut out);
    assert_eq!(out, "<p>&lt;");
}

#[test]
fn escaped_text_has_no_markup_and_stays_distinct() {
    let texts = ["<", "&lt;", "&", "&amp;", "\"", "&quot;", ">", "&gt;", "x"];
    for a in texts {
        assert!(!escaped(a).contains(['<', '>', '"']));
        for b in texts {
            assert_eq!(escaped(a) == escaped(b), a == b);
        }
    }
}

#[test]
fn cursor_overlay() {
    let mut out = String::new();
    render_cursor_into(&mut out, "grid", 12, 3, true);
    assert_eq!(
        out,
        "<div class=\"cursor\" id=\"grid-cursor\" style=\"--cursor-row:12;--cursor-col:3\"></div>"
    );
    let mut out = String::from("x");
    render_cursor_into(&mut out, "t", 0, 0, false);
    assert_eq!(
        out,
        "x<div class=\"cursor\" id=\"t-cursor\" style=\"--cursor-row:0;--cursor-col:0;display:none\"></div>"
    );
}

#[test]
fn boxes_for_wide_and_compound_glyphs() {
    assert!(!cell_needs_box("a", 1));
    assert!(!cell_needs_box("", 1));
    assert!(cell_needs_box("a", 2));
    assert!(cell_needs_box("a", 0));
    assert!(cell_needs_box("e\u{301}", 1));
    assert!(!cell_needs_box("é", 1));
}

#[test]
fn palette_colors() {
    assert_eq!(palette_to_rgb(0), (0, 0, 0));
    assert_eq!(palette_to_rgb(4), (0x1e, 0x90, 0xff));
    assert_eq!(palette_to_rgb(9), (0xff, 0x54, 0x54));
    assert_eq!(palette_to_rgb(15), (0xff, 0xff, 0xff));
    assert_eq!(palette_to_rgb(16), (0, 0, 0));
    assert_eq!(palette_to_rgb(17), (0, 0, 95));
    assert_eq!(palette_to_rgb(21), (0, 0, 255));
    assert_eq!(palette_to_rgb(52), (95, 0, 0));
    assert_eq!(palette_to_rgb(196), (255, 0, 0));
    assert_eq!(palette_to_rgb(231), (255, 255, 255));
    assert_eq!(palette_to_rgb(232), (8, 8, 8));
    assert_eq!(palette_to_rgb(255), (238, 238, 238));
}

#[test]
fn inline_colors() {
    let inline = |c: ColorAttribute, var: &str| {
        let mut out = String::new();
        append_color_inline(&mut out, "color", c, var);
        out
    };
    assert_eq!(inline(ColorAttribute::Default, ""), "");
    assert_eq!(inline(ColorAttribute::Default, "--term-fg"), "color:var(--term-fg);");
    assert_eq!(inline(ColorAttribute::PaletteIndex(7), ""), "color:var(--c7);");
    assert_eq!(inline(ColorAttribute::PaletteIndex(196), ""), "color:#ff0000;");
    assert_eq!(
        inline(ColorAttribute::TrueColorWithDefaultFallback(rgb(1, 0xab, 255)), "--x"),
        "color:#01abff;"
    );
    assert_eq!(
        inline(ColorAttribute::TrueColorWithPaletteFallback(rgb(0, 16, 9), 3), ""),
        "color:#001009;"
    );
}

#[test]
fn classes_and_styles() {
    let of = |a: &CellAttributes| cell_class_and_style(a);
    assert_eq!(of(&plain()), (String::new(), String::new()));
    let all = CellAttributes {
        intensity: Intensity::Half,
        italic: true,
        underline: Underline::Curly,
        invisible: true,
        strikethrough: true,
        foreground: ColorAttribute::PaletteIndex(3),
        background: ColorAttribute::PaletteIndex(15),
        ..plain()
    };
    assert_eq!(of(&all), (" sd si su sx ss f3 b15".to_string(), String::new()));
    let far = CellAttributes {
        foreground: ColorAttribute::PaletteIndex(196),
        background: ColorAttribute::TrueColorWithDefaultFallback(rgb(0, 1, 2)),
        ..bold()
    };
    assert_eq!(of(&far), (" sb".to_string(), "color:#ff0000;background:#000102;".to_string()));
}

#[test]
fn reverse_swaps_the_colors() {
    let reversed = CellAttributes {
        reverse: true,
        foreground: ColorAttribute::PaletteIndex(1),
        ..plain()
    };
    assert_eq!(
        cell_class_and_style(&reversed),
        (String::new(), "color:var(--term-bg);background:var(--c1);".to_string())
    );
    let bare = CellAttributes {
        reverse: true,
        ..plain()
    };
    assert_eq!(
        cell_class_and_style(&bare),
        (String::new(), "color:var(--term-bg);background:var(--term-fg);".to_string())
    );
}

#[test]
fn looks_ignore_links() {
    assert!(attrs_equiv(&plain(), &linked("http://x")));
    assert!(!attrs_equiv(&plain(), &bold()));
    let near = |exact: u128| CellAttributes {
        foreground: ColorAttribute::TrueColorWithDefaultFallback(TrueColor {
            red: 1,
            green: 2,
            blue: 3,
            exact,
        }),
        ..plain()
    };
    assert!(attrs_equiv(&near(5), &near(5)));
    assert!(!attrs_equiv(&near(5), &near(6)));
}

#[test]
fn hrefs_are_gated_by_scheme() {
    assert_eq!(safe_href("http://a"), Some("http://a"));
    assert_eq!(safe_href(" HTTPS://a/b \n"), Some("HTTPS://a/b"));
    assert_eq!(safe_href("MailTo:a@b"), Some("MailTo:a@b"));
    assert_eq!(safe_href("javascript:alert(1)"), None);
    assert_eq!(safe_href("data:text/html,x"), None);
    assert_eq!(safe_href("ftp://a"), None);
    assert_eq!(safe_href("http:/"), None);
    assert_eq!(safe_href("http://"), Some("http://"));
    assert_eq!(safe_href(""), None);
    assert_eq!(safe_href("httpé://"), None);
}

#[test]
fn safe_hrefs_are_stable() {
    for uri in ["http://a", "  https://b\t", "mailto:c", "x"] {
        if let Some(u) = safe_href(uri) {
            assert_eq!(safe_href(u), Some(u));
        }
    }
}

#[test]
fn plain_row_drops_trailing_blanks() {
    let cells = vec![
        cell(0, "a", plain()),
        cell(1, " ", plain()),
        cell(2, "b", plain()),
        cell(3, " ", plain()),
        cell(4, "", plain()),
    ];
    assert_eq!(row(cells, 80), row_of("a b"));
    assert_eq!(row(vec![], 80), row_of(""));
}

#[test]
fn gaps_become_blanks() {
    assert_eq!(row(vec![cell(3, "x", plain())], 80), row_of("   x"));
}

#[test]
fn runs_share_a_wrapper() {
    let cells = vec![
        cell(0, "a", bold()),
        cell(1, "b", bold()),
        cell(2, "c", plain()),
        cell(3, "d", bold()),
    ];
    assert_eq!(
        row(cells, 80),
        row_of("<span class=\"c sb\">ab</span>c<span class=\"c sb\">d</span>")
    );
}

#[test]
fn styled_blanks_are_kept_and_default_blanks_close_a_run() {
    let cells = vec![
        cell(0, "a", bold()),
        cell(1, " ", bold()),
        cell(2, " ", plain()),
        cell(3, "b", bold()),
        cell(4, "", bold()),
    ];
    assert_eq!(
        row(cells, 80),
        row_of("<span class=\"c sb\">a </span> <span class=\"c sb\">b </span>")
    );
}

#[test]
fn links_become_anchors() {
    let cells = vec![
        cell(0, "x", linked("http://a?b&c")),
        cell(1, "y", linked(" http://a?b&c ")),
        cell(2, "z", linked("https://d")),
        cell(3, "w", linked("javascript:1")),
    ];
    assert_eq!(
        row(cells, 80),
        row_of(
            "<a href=\"http://a?b&amp;c\" target=\"_blank\" rel=\"noopener\">xy</a>\
             <a href=\"https://d\" target=\"_blank\" rel=\"noopener\">z</a>w"
        )
    );
}

#[test]
fn styled_links_carry_class_and_style() {
    let attrs = CellAttributes {
        hyperlink: Some("mailto:a@b".to_string()),
        background: ColorAttribute::PaletteIndex(200),
        ..bold()
    };
    assert_eq!(
        row(vec![cell(0, "q", attrs)], 80),
        row_of(
            "<a href=\"mailto:a@b\" target=\"_blank\" rel=\"noopener\" class=\"c sb\" \
             style=\"background:#ff00d7;\">q</a>"
        )
    );
}

#[test]
fn wide_cells_get_a_box_and_cover_what_is_under_them() {
    let wide = Cell {
        index: 0,
        width: 2,
        text: "世".to_string(),
        attrs: plain(),
    };
    let cells = vec![wide, cell(1, "!", plain()), cell(2, "<", plain())];
    assert_eq!(
        row(cells, 80),
        row_of("<span class=\"wc\" style=\"--w:2\">世</span>&lt;")
    );
}

#[test]
fn cells_without_width_take_one_column() {
    let odd = Cell {
        index: 0,
        width: 0,
        text: "a".to_string(),
        attrs: plain(),
    };
    assert_eq!(row(vec![odd, cell(1, "b", plain())], 80), row_of("ab"));
}

#[test]
fn cells_beyond_the_columns_are_cut() {
    let cells = vec![
        cell(0, "a", plain()),
        cell(1, "b", plain()),
        cell(2, "c", plain()),
    ];
    assert_eq!(row(cells, 2), row_of("ab"));
}

#[test]
fn negative_row_ids_are_written_with_a_sign() {
    let mut out = String::new();
    render_row_into(&mut out, "g", &Line { cells: vec![] }, 80, -3);
    assert_eq!(out, "<div class=\"row\" id=\"g-r--3\"></div>");
}

/// The text of markup: tags removed, then entities decoded.
fn reading(html: &str) -> String {
    let mut text = String::new();
    let mut inside = false;
    for c in html.chars() {
        match (inside, c) {
            (true, '>') => inside = false,
            (false, '<') => inside = true,
            (false, c) => text.push(c),
            _ => {}
        }
    }
    text.replace("&lt;", "<").replace("&gt;", ">").replace("&quot;", "\"").replace("&amp;", "&")
}

#[test]
fn a_row_reads_as_the_text_of_its_cells() {
    let wide = Cell {
        index: 9,
        width: 2,
        text: "世".to_string(),
        attrs: bold(),
    };
    let cells = vec![
        cell(0, "<", plain()),
        cell(1, "&", bold()),
        cell(2, "", bold()),
        cell(5, ">", linked("http://a?b=\"<>&")),
        cell(6, "&lt;", plain()),
        cell(7, "\"", CellAttributes { reverse: true, ..plain() }),
        wide,
        cell(10, "x", plain()),
        cell(12, " ", plain()),
        cell(13, "", plain()),
    ];
    assert_eq!(reading(&row(cells, 80)), "<& \u{20}\u{20}>&lt;\" 世");
}

#[test]
fn styled_and_linked_blanks_at_the_end_are_read() {
    assert_eq!(reading(&row(vec![cell(2, " ", bold())], 80)), "   ");
    assert_eq!(reading(&row(vec![cell(0, "", linked("mailto:a@b"))], 80)), " ");
    assert_eq!(reading(&row(vec![cell(2, " ", linked("x:y"))], 80)), "");
}
