//! Hyperlinks: which uris may become anchors, and which rows need a scan for
//! bare urls.
use crate::text;
use vstd::prelude::*;

verus! {

/// The schemes that may reach the page. Anything else, `javascript:` and
/// `data:` among it, is never made clickable.
pub open spec fn allowed_scheme(uri: Seq<char>) -> bool {
    ||| text::starts_ignoring_case(uri, "http://"@)
    ||| text::starts_ignoring_case(uri, "https://"@)
    ||| text::starts_ignoring_case(uri, "mailto:"@)
}

/// What a uri becomes as the target of an anchor: itself without surrounding
/// white space, where the scheme is allowed.
pub open spec fn link_target(uri: Seq<char>) -> Option<Seq<char>> {
    if allowed_scheme(text::trim(uri)) {
        Some(text::trim(uri))
    } else {
        None
    }
}

/// The uri to use as an `href`, or nothing where its scheme is not allowed.
pub fn safe_href(uri: &str) -> (res: Option<&str>)
    ensures
        match res {
            Some(u) => link_target(uri@) == Some(u@),
            None => link_target(uri@) is None,
        },
{
    let cs = text::chars_of(uri);
    let (lo, hi) = text::trim_bounds(&cs);
    if text::has_prefix_ignoring_case(&cs, lo, hi, "http://") || text::has_prefix_ignoring_case(
        &cs,
        lo,
        hi,
        "https://",
    ) || text::has_prefix_ignoring_case(&cs, lo, hi, "mailto:") {
        Some(uri.substring_char(lo, hi))
    } else {
        None
    }
}

/// A link target is an allowed uri as it stands: checking it again gives it
/// back unchanged.
pub proof fn link_target_is_stable(uri: Seq<char>)
    ensures
        link_target(uri) matches Some(u) ==> allowed_scheme(u) && link_target(u) == Some(u),
{
    text::trim_is_final(uri);
}

// --- rules for bare urls -----------------------------------------------------

/// What a rule looks for: a regular expression of its own, or one of the two
/// that the emulator exports.
#[derive(Clone, Copy, Debug)]
pub enum LinkPattern {
    Regex(&'static str),
    ClosingParenthesis,
    Generic,
}

/// A rule for links in plain text: what it looks for, the uri it makes of a
/// match, and the capture group that is highlighted where that is not the
/// whole match.
#[derive(Clone, Copy, Debug)]
pub struct LinkRule {
    pub pattern: LinkPattern,
    pub format: &'static str,
    pub highlight: Option<usize>,
}

/// Whether a rule is the given one.
pub open spec fn is_regex_rule(
    rule: LinkRule,
    regex: Seq<char>,
    format: Seq<char>,
    highlight: Option<usize>,
) -> bool {
    &&& rule.pattern matches LinkPattern::Regex(r) && r@ == regex
    &&& rule.format@ == format
    &&& rule.highlight == highlight
}

/// URL detection rules for bare (non-OSC-8) text, in the order they apply.
///
/// The bracket rules link the URL without its surrounding `()`/`[]`/`<>`
/// (capture group 1 is the highlighted range). Then come bare URLs, with a
/// balanced closing parenthesis first and the generic form after it, and
/// implicit mailto links.
pub fn hyperlink_rules() -> (res: Vec<LinkRule>)
    ensures
        res@.len() == 6,
        is_regex_rule(res@[0], "\\((\\w+://\\S+)\\)"@, "$1"@, Some(1)),
        is_regex_rule(res@[1], "\\[(\\w+://\\S+)\\]"@, "$1"@, Some(1)),
        is_regex_rule(res@[2], "<(\\w+://\\S+)>"@, "$1"@, Some(1)),
        res@[3].pattern is ClosingParenthesis && res@[3].format@ == "$0"@,
        res@[3].highlight is None,
        res@[4].pattern is Generic && res@[4].format@ == "$0"@ && res@[4].highlight is None,
        is_regex_rule(res@[5], "\\b\\w+@[\\w-]+(\\.[\\w-]+)+\\b"@, "mailto:$0"@, None),
{
    let mut res: Vec<LinkRule> = Vec::new();
    res.push(
        LinkRule {
            pattern: LinkPattern::Regex("\\((\\w+://\\S+)\\)"),
            format: "$1",
            highlight: Some(1),
        },
    );
    res.push(
        LinkRule {
            pattern: LinkPattern::Regex("\\[(\\w+://\\S+)\\]"),
            format: "$1",
            highlight: Some(1),
        },
    );
    res.push(
        LinkRule {
            pattern: LinkPattern::Regex("<(\\w+://\\S+)>"),
            format: "$1",
            highlight: Some(1),
        },
    );
    res.push(LinkRule { pattern: LinkPattern::ClosingParenthesis, format: "$0", highlight: None });
    res.push(LinkRule { pattern: LinkPattern::Generic, format: "$0", highlight: None });
    res.push(
        LinkRule {
            pattern: LinkPattern::Regex("\\b\\w+@[\\w-]+(\\.[\\w-]+)+\\b"),
            format: "mailto:$0",
            highlight: None,
        },
    );
    res
}

// --- which lines are scanned -------------------------------------------------

/// The stable rows to look for changes in: those the terminal has, from `lo`
/// on where it is given. Nothing where the terminal has no rows.
pub open spec fn scan_rows(base: int, total: nat, lo: Option<isize>) -> Option<(int, int)> {
    if total == 0 {
        None
    } else {
        Some(
            (
                match lo {
                    Some(l) => if l > base {
                        l as int
                    } else {
                        base
                    },
                    None => base,
                },
                base + total,
            ),
        )
    }
}

/// The range of stable rows to look for changes in since the last scan.
/// `lo` clamps it to rows that can still change (the old viewport top: rows
/// above it are frozen); without it everything is looked at.
pub fn scan_range(base: isize, total: usize, lo: Option<isize>) -> (res: Option<(isize, isize)>)
    requires
        base + total <= isize::MAX,
        total <= isize::MAX,
    ensures
        match res {
            Some((from, to)) => scan_rows(base as int, total as nat, lo) == Some(
                (from as int, to as int),
            ),
            None => scan_rows(base as int, total as nat, lo) is None,
        },
{
    if total == 0 {
        return None;
    }
    let from: isize = match lo {
        Some(l) => if l > base {
            l
        } else {
            base
        },
        None => base,
    };
    Some((from, base + total as isize))
}

/// The range of stable rows from the first to the last that changed, whose
/// logical lines are visited. Nothing where no row changed.
pub fn changed_range(changed: &Vec<isize>) -> (res: Option<(isize, isize)>)
    requires
        changed@.len() > 0 ==> changed@.last() < isize::MAX,
    ensures
        res == (if changed@.len() == 0 {
            None
        } else {
            Some((changed@.first(), (changed@.last() + 1) as isize))
        }),
{
    let n: usize = changed.len();
    if n == 0 {
        None
    } else {
        Some((changed[0], changed[n - 1] + 1))
    }
}

/// What the scan needs to know of a row of a logical line: its text, and for
/// each visible cell whether it carries a link.
#[derive(Debug)]
pub struct ScanRow {
    pub text: String,
    pub linked: Vec<bool>,
}

/// Whether a text may hold a link: it has the marker of a url or of a mail
/// address.
pub open spec fn has_marker(s: Seq<char>) -> bool {
    text::contains_text(s, "://"@) || s.contains('@')
}

/// Whether a row is a reason to scan its logical line: its text may hold a
/// link, or a cell still carries one that a scan may need to clear.
pub open spec fn wants_scan(row: ScanRow) -> bool {
    has_marker(row.text@) || row.linked@.contains(true)
}

fn row_wants_scan(row: &ScanRow) -> (res: bool)
    ensures
        res == wants_scan(*row),
{
    if text::has_text(row.text.as_str(), "://") {
        return true;
    }
    let cs = text::chars_of(row.text.as_str());
    for i in 0..cs.len()
        invariant
            cs@ == row.text@,
            forall|k: int| 0 <= k < i ==> cs@[k] != '@',
    {
        if cs[i] == '@' {
            assert(row.text@.contains('@'));
            return true;
        }
    }
    for i in 0..row.linked.len()
        invariant
            forall|k: int| 0 <= k < i ==> !row.linked@[k],
    {
        if row.linked[i] {
            assert(row.linked@.contains(true));
            return true;
        }
    }
    false
}

/// Whether a logical line has to be scanned for links. Url-free output, the
/// common case, pays a substring check instead of the rules.
pub fn scan_candidate(rows: &Vec<ScanRow>) -> (res: bool)
    ensures
        res == exists|i: int| 0 <= i < rows@.len() && wants_scan(#[trigger] rows@[i]),
{
    for i in 0..rows.len()
        invariant
            forall|k: int| 0 <= k < i ==> !wants_scan(#[trigger] rows@[k]),
    {
        if row_wants_scan(&rows[i]) {
            assert(wants_scan(rows@[i as int]));
            return true;
        }
    }
    false
}

// --- laws --------------------------------------------------------------------

/// Text that holds a web url is never passed over: the url has a marker,
/// whatever the case of its scheme.
pub proof fn web_links_have_a_marker(before: Seq<char>, uri: Seq<char>, after: Seq<char>)
    requires
        text::starts_ignoring_case(uri, "http://"@) || text::starts_ignoring_case(
            uri,
            "https://"@,
        ),
    ensures
        has_marker(before + uri + after),
{
    let all = before + uri + after;
    reveal_strlit("http://");
    reveal_strlit("https://");
    reveal_strlit("://");
    let k: int = if text::starts_ignoring_case(uri, "http://"@) {
        4
    } else {
        5
    };
    let p = if k == 4 {
        "http://"@
    } else {
        "https://"@
    };
    assert(text::ascii_lower(uri[k]) == text::ascii_lower(p[k]));
    assert(text::ascii_lower(uri[k + 1]) == text::ascii_lower(p[k + 1]));
    assert(text::ascii_lower(uri[k + 2]) == text::ascii_lower(p[k + 2]));
    let at = before.len() + k;
    assert(all[at] == uri[k] && all[at + 1] == uri[k + 1] && all[at + 2] == uri[k + 2]);
    assert(all.subrange(at, at + "://"@.len()) =~= "://"@);
    assert(text::found_at(all, "://"@, at));
}

/// Rows below the clamp are never looked at, and no row of the terminal from
/// the clamp on is missed.
pub proof fn scan_misses_no_live_row(base: int, total: nat, lo: Option<isize>, row: int)
    requires
        base <= row < base + total,
    ensures
        scan_rows(base, total, lo) matches Some((from, to)) && (from <= row < to <==> match lo {
            Some(l) => l <= row,
            None => true,
        }),
{
}

/// Whether a text begins with the given letters, each of them small or
/// capital.
pub open spec fn spells(s: Seq<char>, small: Seq<char>, capital: Seq<char>) -> bool {
    s.len() >= small.len() && forall|i: int|
        0 <= i < small.len() ==> (#[trigger] s[i] == small[i] || s[i] == capital[i])
}

proof fn spelled_ignoring_case(s: Seq<char>, small: Seq<char>, capital: Seq<char>)
    requires
        small.len() == capital.len(),
        forall|i: int|
            0 <= i < small.len() ==> if 'a' <= #[trigger] small[i] && small[i] <= 'z' {
                capital[i] as int == small[i] as int - 32
            } else {
                capital[i] == small[i] && !('A' <= small[i] && small[i] <= 'Z')
            },
    ensures
        text::starts_ignoring_case(s, small) <==> spells(s, small, capital),
{
    if s.len() >= small.len() {
        assert forall|i: int| 0 <= i < small.len() implies (text::ascii_lower(s[i])
            == text::ascii_lower(#[trigger] small[i])) == (s[i] == small[i] || s[i]
            == capital[i]) by {}
        if text::starts_ignoring_case(s, small) {
            assert forall|i: int| 0 <= i < small.len() implies (#[trigger] s[i] == small[i] || s[i]
                == capital[i]) by {
                assert(text::ascii_lower(s[i]) == text::ascii_lower(small[i]));
            }
        }
        if spells(s, small, capital) {
            assert forall|i: int| 0 <= i < small.len() implies text::ascii_lower(#[trigger] s[i])
                == text::ascii_lower(small[i]) by {
                assert(s[i] == small[i] || s[i] == capital[i]);
            }
        }
    }
}

/// What is linked: a uri that, once trimmed, begins with `http://`,
/// `https://` or `mailto:` in letters of either case, and nothing else. The
/// target is the trimmed uri.
pub proof fn only_web_and_mail_are_linked(uri: Seq<char>)
    ensures
        link_target(uri) is Some <==> {
            ||| spells(text::trim(uri), "http://"@, "HTTP://"@)
            ||| spells(text::trim(uri), "https://"@, "HTTPS://"@)
            ||| spells(text::trim(uri), "mailto:"@, "MAILTO:"@)
        },
        link_target(uri) matches Some(u) ==> u == text::trim(uri),
{
    reveal_strlit("http://");
    reveal_strlit("HTTP://");
    reveal_strlit("https://");
    reveal_strlit("HTTPS://");
    reveal_strlit("mailto:");
    reveal_strlit("MAILTO:");
    let u = text::trim(uri);
    spelled_ignoring_case(u, "http://"@, "HTTP://"@);
    spelled_ignoring_case(u, "https://"@, "HTTPS://"@);
    spelled_ignoring_case(u, "mailto:"@, "MAILTO:"@);
}

/// A row is scanned for one of three reasons, and for no other: its text has a
/// colon and two slashes in a row, its text has an at sign, or one of its
/// cells carries a link.
pub proof fn scans_have_a_reason(row: ScanRow)
    ensures
        wants_scan(row) <==> {
            ||| exists|i: int|
                0 <= i && i + 3 <= row.text@.len() && #[trigger] row.text@[i] == ':'
                    && row.text@[i + 1] == '/' && row.text@[i + 2] == '/'
            ||| exists|i: int| 0 <= i < row.text@.len() && #[trigger] row.text@[i] == '@'
            ||| exists|i: int| 0 <= i < row.linked@.len() && #[trigger] row.linked@[i]
        },
{
    reveal_strlit("://");
    let s = row.text@;
    if text::contains_text(s, "://"@) {
        let i = choose|i: int| text::found_at(s, "://"@, i);
        let part = s.subrange(i, i + 3);
        assert(part[0] == s[i] && part[1] == s[i + 1] && part[2] == s[i + 2]);
    }
    if exists|i: int|
        0 <= i && i + 3 <= s.len() && #[trigger] s[i] == ':' && s[i + 1] == '/' && s[i + 2] == '/' {
        let i = choose|i: int|
            0 <= i && i + 3 <= s.len() && #[trigger] s[i] == ':' && s[i + 1] == '/' && s[i + 2]
                == '/';
        assert(s.subrange(i, i + "://"@.len()) =~= "://"@);
        assert(text::found_at(s, "://"@, i));
    }
    if s.contains('@') {
        let i = choose|i: int| 0 <= i < s.len() && s[i] == '@';
        assert(s[i] == '@');
    }
    if row.linked@.contains(true) {
        let i = choose|i: int| 0 <= i < row.linked@.len() && row.linked@[i] == true;
        assert(row.linked@[i]);
    }
    if exists|i: int| 0 <= i < row.linked@.len() && #[trigger] row.linked@[i] {
        let i = choose|i: int| 0 <= i < row.linked@.len() && #[trigger] row.linked@[i];
        assert(row.linked@[i] == true);
    }
}

} // verus!
