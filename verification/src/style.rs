//! Cell attributes and the CSS they turn into: class names for the common
//! cases, inline declarations for everything a class cannot express.
use crate::markup;
use crate::text;
use crate::text::{push_decimal, push_hex2};
use vstd::prelude::*;

verus! {

/// Weight of a cell's text.
#[derive(Clone, Copy, PartialEq, Eq, Debug, Structural)]
pub enum Intensity {
    Normal,
    Bold,
    Half,
}

/// Underline style of a cell.
#[derive(Clone, Copy, PartialEq, Eq, Debug, Structural)]
pub enum Underline {
    Off,
    Single,
    Double,
    Curly,
    Dotted,
    Dashed,
}

/// A direct color. `red`, `green` and `blue` are the channels rounded to a
/// byte; `exact` identifies the color as the emulator holds it, so two colors
/// that round alike are still told apart.
#[derive(Clone, Copy, PartialEq, Eq, Debug, Structural)]
pub struct TrueColor {
    pub red: u8,
    pub green: u8,
    pub blue: u8,
    pub exact: u128,
}

/// A foreground or background color.
#[derive(Clone, Copy, PartialEq, Eq, Debug, Structural)]
pub enum ColorAttribute {
    Default,
    PaletteIndex(u8),
    TrueColorWithPaletteFallback(TrueColor, u8),
    TrueColorWithDefaultFallback(TrueColor),
}

/// Everything about a cell but its text: the rendered attributes, and the uri
/// of the hyperlink it belongs to.
#[derive(Debug)]
pub struct CellAttributes {
    pub intensity: Intensity,
    pub italic: bool,
    pub underline: Underline,
    pub invisible: bool,
    pub strikethrough: bool,
    pub reverse: bool,
    pub foreground: ColorAttribute,
    pub background: ColorAttribute,
    pub hyperlink: Option<String>,
}

/// The attributes that the renderer maps to output. Hyperlinks are not among
/// them: a link is a separate part of a run's identity.
pub struct Look {
    pub intensity: Intensity,
    pub italic: bool,
    pub underline: Underline,
    pub invisible: bool,
    pub strikethrough: bool,
    pub reverse: bool,
    pub foreground: ColorAttribute,
    pub background: ColorAttribute,
}

impl CellAttributes {
    /// The rendered part of the attributes.
    pub open spec fn look(self) -> Look {
        Look {
            intensity: self.intensity,
            italic: self.italic,
            underline: self.underline,
            invisible: self.invisible,
            strikethrough: self.strikethrough,
            reverse: self.reverse,
            foreground: self.foreground,
            background: self.background,
        }
    }
}

/// The look of a cell that nothing was set on.
pub open spec fn default_look() -> Look {
    Look {
        intensity: Intensity::Normal,
        italic: false,
        underline: Underline::Off,
        invisible: false,
        strikethrough: false,
        reverse: false,
        foreground: ColorAttribute::Default,
        background: ColorAttribute::Default,
    }
}

impl Default for CellAttributes {
    fn default() -> (res: Self)
        ensures
            res.look() == default_look(),
            res.hyperlink is None,
    {
        CellAttributes {
            intensity: Intensity::Normal,
            italic: false,
            underline: Underline::Off,
            invisible: false,
            strikethrough: false,
            reverse: false,
            foreground: ColorAttribute::Default,
            background: ColorAttribute::Default,
            hyperlink: None,
        }
    }
}

/// Whether two cells look the same. Whatever is not rendered, the hyperlink
/// among it, plays no part, so runs do not split on invisible differences.
pub fn attrs_equiv(a: &CellAttributes, b: &CellAttributes) -> (res: bool)
    ensures
        res == (a.look() == b.look()),
{
    a.intensity == b.intensity && a.italic == b.italic && a.underline == b.underline && a.invisible
        == b.invisible && a.strikethrough == b.strikethrough && a.reverse == b.reverse
        && a.foreground == b.foreground && a.background == b.background
}

/// The channel value of step `c` of the color cube.
pub open spec fn cube_level(c: nat) -> nat {
    if c == 0 {
        0
    } else {
        55 + 40 * c
    }
}

/// The sixteen base colors.
pub open spec fn base_color(i: u8) -> (u8, u8, u8) {
    if i == 0 {
        (0, 0, 0)
    } else if i == 1 {
        (0xcd, 0, 0)
    } else if i == 2 {
        (0, 0xcd, 0)
    } else if i == 3 {
        (0xcd, 0xcd, 0)
    } else if i == 4 {
        (0x1e, 0x90, 0xff)
    } else if i == 5 {
        (0xcd, 0, 0xcd)
    } else if i == 6 {
        (0, 0xcd, 0xcd)
    } else if i == 7 {
        (0xe5, 0xe5, 0xe5)
    } else if i == 8 {
        (0x4d, 0x4d, 0x4d)
    } else if i == 9 {
        (0xff, 0x54, 0x54)
    } else if i == 10 {
        (0x54, 0xff, 0x54)
    } else if i == 11 {
        (0xff, 0xff, 0x54)
    } else if i == 12 {
        (0x54, 0x54, 0xff)
    } else if i == 13 {
        (0xff, 0x54, 0xff)
    } else if i == 14 {
        (0x54, 0xff, 0xff)
    } else {
        (0xff, 0xff, 0xff)
    }
}

/// The rgb value of palette entry `i`: the base colors, then a cube of six
/// levels per channel, then a ramp of twenty-four grays.
pub open spec fn palette_color(i: u8) -> (u8, u8, u8) {
    if i < 16 {
        base_color(i)
    } else if i < 232 {
        let n = (i - 16) as nat;
        (
            cube_level(n / 36) as u8,
            cube_level((n / 6) % 6) as u8,
            cube_level(n % 6) as u8,
        )
    } else {
        let l = (8 + 10 * (i - 232)) as u8;
        (l, l, l)
    }
}

fn cube_channel(c: u8) -> (res: u8)
    requires
        c < 6,
    ensures
        res == cube_level(c as nat),
{
    if c == 0 {
        0
    } else {
        55 + c * 40
    }
}

/// Palette index to rgb.
pub fn palette_to_rgb(i: u8) -> (res: (u8, u8, u8))
    ensures
        res == palette_color(i),
{
    if i < 16 {
        return match i {
            0 => (0, 0, 0),
            1 => (0xcd, 0, 0),
            2 => (0, 0xcd, 0),
            3 => (0xcd, 0xcd, 0),
            4 => (0x1e, 0x90, 0xff),
            5 => (0xcd, 0, 0xcd),
            6 => (0, 0xcd, 0xcd),
            7 => (0xe5, 0xe5, 0xe5),
            8 => (0x4d, 0x4d, 0x4d),
            9 => (0xff, 0x54, 0x54),
            10 => (0x54, 0xff, 0x54),
            11 => (0xff, 0xff, 0x54),
            12 => (0x54, 0x54, 0xff),
            13 => (0xff, 0x54, 0xff),
            14 => (0x54, 0xff, 0xff),
            _ => (0xff, 0xff, 0xff),
        };
    }
    if i < 232 {
        let n: u8 = i - 16;
        return (cube_channel(n / 36), cube_channel((n / 6) % 6), cube_channel(n % 6));
    }
    let l: u8 = 8 + (i - 232) * 10;
    (l, l, l)
}

/// The css hex form of an rgb color.
pub open spec fn css_hex(rgb: (u8, u8, u8)) -> Seq<char> {
    seq!['#'] + text::hex2(rgb.0) + text::hex2(rgb.1) + text::hex2(rgb.2)
}

/// The inline declaration of property `prop` for color `c`. A default color
/// becomes the variable `default_var`, or nothing where that is empty.
pub open spec fn color_inline(
    prop: Seq<char>,
    c: ColorAttribute,
    default_var: Seq<char>,
) -> Seq<char> {
    match c {
        ColorAttribute::Default => if default_var.len() == 0 {
            seq![]
        } else {
            prop + ":var("@ + default_var + ");"@
        },
        ColorAttribute::PaletteIndex(i) => if i < 16 {
            prop + ":var(--c"@ + text::decimal(i as nat) + ");"@
        } else {
            prop + ":"@ + css_hex(palette_color(i)) + ";"@
        },
        ColorAttribute::TrueColorWithPaletteFallback(rgb, _) => prop + ":"@ + css_hex(
            (rgb.red, rgb.green, rgb.blue),
        ) + ";"@,
        ColorAttribute::TrueColorWithDefaultFallback(rgb) => prop + ":"@ + css_hex(
            (rgb.red, rgb.green, rgb.blue),
        ) + ";"@,
    }
}

fn push_css_hex(out: &mut String, prop: &str, rgb: (u8, u8, u8))
    ensures
        final(out)@ == old(out)@ + (prop@ + ":"@ + css_hex(rgb) + ";"@),
{
    out.push_str(prop);
    out.push_str(":");
    out.push('#');
    push_hex2(out, rgb.0);
    push_hex2(out, rgb.1);
    push_hex2(out, rgb.2);
    out.push_str(";");
    assert(out@ =~= old(out)@ + (prop@ + ":"@ + css_hex(rgb) + ";"@));
}

/// Appends the inline declaration of property `prop` for color `c`.
pub fn append_color_inline(out: &mut String, prop: &str, c: ColorAttribute, default_var: &str)
    ensures
        final(out)@ == old(out)@ + color_inline(prop@, c, default_var@),
{
    match c {
        ColorAttribute::Default => {
            if !default_var.is_empty() {
                out.push_str(prop);
                out.push_str(":var(");
                out.push_str(default_var);
                out.push_str(");");
            }
            assert(out@ =~= old(out)@ + color_inline(prop@, c, default_var@));
        },
        ColorAttribute::PaletteIndex(i) => {
            if i < 16 {
                out.push_str(prop);
                out.push_str(":var(--c");
                push_decimal(out, i as u64);
                out.push_str(");");
                assert(out@ =~= old(out)@ + color_inline(prop@, c, default_var@));
            } else {
                push_css_hex(out, prop, palette_to_rgb(i));
            }
        },
        ColorAttribute::TrueColorWithPaletteFallback(rgb, _) => {
            push_css_hex(out, prop, (rgb.red, rgb.green, rgb.blue));
        },
        ColorAttribute::TrueColorWithDefaultFallback(rgb) => {
            push_css_hex(out, prop, (rgb.red, rgb.green, rgb.blue));
        },
    }
}

/// Whether a color has a class of its own: the sixteen base colors have.
pub open spec fn has_color_class(c: ColorAttribute) -> bool {
    c matches ColorAttribute::PaletteIndex(i) && i < 16
}

/// The class of color `c` under the class prefix `prefix`, if it has one.
pub open spec fn color_class(prefix: Seq<char>, c: ColorAttribute) -> Seq<char> {
    match c {
        ColorAttribute::PaletteIndex(i) if i < 16 => prefix + text::decimal(i as nat),
        _ => seq![],
    }
}

/// The inline declaration of a color that has no class.
pub open spec fn color_rest(prop: Seq<char>, c: ColorAttribute) -> Seq<char> {
    if has_color_class(c) {
        seq![]
    } else {
        color_inline(prop, c, seq![])
    }
}

/// The text `s` where `on` holds, else nothing.
pub open spec fn when(on: bool, s: Seq<char>) -> Seq<char> {
    if on {
        s
    } else {
        seq![]
    }
}

/// The class names of a look, each with a space before it.
#[verifier::opaque]
pub open spec fn classes(look: Look) -> Seq<char> {
    when(look.intensity is Bold, " sb"@) + when(look.intensity is Half, " sd"@) + when(
        look.italic,
        " si"@,
    ) + when(!(look.underline is Off), " su"@) + when(look.invisible, " sx"@) + when(
        look.strikethrough,
        " ss"@,
    ) + when(!look.reverse, color_class(" f"@, look.foreground)) + when(
        !look.reverse,
        color_class(" b"@, look.background),
    )
}

/// The inline style of a look. Reverse video swaps the two colors and has to
/// name the defaults.
#[verifier::opaque]
pub open spec fn inline_style(look: Look) -> Seq<char> {
    if look.reverse {
        color_inline("color"@, look.background, "--term-bg"@) + color_inline(
            "background"@,
            look.foreground,
            "--term-fg"@,
        )
    } else {
        color_rest("color"@, look.foreground) + color_rest("background"@, look.background)
    }
}

fn push_color(
    class_out: &mut String,
    style_out: &mut String,
    prefix: &str,
    prop: &str,
    c: ColorAttribute,
)
    ensures
        final(class_out)@ == old(class_out)@ + color_class(prefix@, c),
        final(style_out)@ == old(style_out)@ + color_rest(prop@, c),
{
    proof {
        reveal_strlit("");
    }
    let class_index: Option<u8> = match c {
        ColorAttribute::PaletteIndex(i) if i < 16 => Some(i),
        _ => None,
    };
    if let Some(i) = class_index {
        class_out.push_str(prefix);
        push_decimal(class_out, i as u64);
    } else {
        append_color_inline(style_out, prop, c, "");
        assert(""@ =~= seq![]);
    }
    assert(class_out@ =~= old(class_out)@ + color_class(prefix@, c));
    assert(style_out@ =~= old(style_out)@ + color_rest(prop@, c));
}

fn push_when(out: &mut String, on: bool, s: &str)
    ensures
        final(out)@ == old(out)@ + when(on, s@),
{
    if on {
        out.push_str(s);
    }
    assert(out@ =~= old(out)@ + when(on, s@));
}

/// The class names and the inline style of a cell.
pub fn cell_class_and_style(attrs: &CellAttributes) -> (res: (String, String))
    ensures
        res.0@ == classes(attrs.look()),
        res.1@ == inline_style(attrs.look()),
{
    let mut class_out = String::new();
    let mut style_out = String::new();
    push_when(&mut class_out, attrs.intensity == Intensity::Bold, " sb");
    push_when(&mut class_out, attrs.intensity == Intensity::Half, " sd");
    push_when(&mut class_out, attrs.italic, " si");
    push_when(&mut class_out, attrs.underline != Underline::Off, " su");
    push_when(&mut class_out, attrs.invisible, " sx");
    push_when(&mut class_out, attrs.strikethrough, " ss");
    if attrs.reverse {
        append_color_inline(&mut style_out, "color", attrs.background, "--term-bg");
        append_color_inline(&mut style_out, "background", attrs.foreground, "--term-fg");
    } else {
        push_color(&mut class_out, &mut style_out, " f", "color", attrs.foreground);
        push_color(&mut class_out, &mut style_out, " b", "background", attrs.background);
    }
    reveal(classes);
    reveal(inline_style);
    assert(class_out@ =~= classes(attrs.look()));
    assert(style_out@ =~= inline_style(attrs.look()));
    (class_out, style_out)
}

/// Every piece that a look can call for is a text with something in it.
pub proof fn parts_are_not_empty(look: Look)
    ensures
        classes(look).len() == 0 && inline_style(look).len() == 0 ==> look == default_look(),
{
    reveal(classes);
    reveal(inline_style);
    reveal_strlit(" sb");
    reveal_strlit(" sd");
    reveal_strlit(" si");
    reveal_strlit(" su");
    reveal_strlit(" sx");
    reveal_strlit(" ss");
    reveal_strlit(" f");
    reveal_strlit(" b");
    reveal_strlit("color");
    reveal_strlit("background");
    reveal_strlit("--term-bg");
    reveal_strlit("--term-fg");
}

proof fn color_inline_lacks(
    prop: Seq<char>,
    c: ColorAttribute,
    default_var: Seq<char>,
    m: char,
)
    requires
        ends_markup(m),
        text::lacks(prop, m),
        text::lacks(default_var, m),
    ensures
        text::lacks(color_inline(prop, c, default_var), m),
{
    reveal_strlit(":var(");
    reveal_strlit(");");
    reveal_strlit(":var(--c");
    reveal_strlit(":");
    reveal_strlit(";");
    match c {
        ColorAttribute::Default => {
            text::lacks_join(prop, ":var("@, m);
            text::lacks_join(prop + ":var("@, default_var, m);
            text::lacks_join(prop + ":var("@ + default_var, ");"@, m);
        },
        ColorAttribute::PaletteIndex(i) if i < 16 => {
            let d = text::decimal(i as nat);
            text::numerals_lack(i as int, m);
            text::lacks_join(prop, ":var(--c"@, m);
            text::lacks_join(prop + ":var(--c"@, d, m);
            text::lacks_join(prop + ":var(--c"@ + d, ");"@, m);
        },
        ColorAttribute::PaletteIndex(i) => {
            css_hex_lacks(prop, palette_color(i), m);
        },
        ColorAttribute::TrueColorWithPaletteFallback(rgb, _) => {
            css_hex_lacks(prop, (rgb.red, rgb.green, rgb.blue), m);
        },
        ColorAttribute::TrueColorWithDefaultFallback(rgb) => {
            css_hex_lacks(prop, (rgb.red, rgb.green, rgb.blue), m);
        },
    }
}

proof fn css_hex_lacks(prop: Seq<char>, rgb: (u8, u8, u8), m: char)
    requires
        ends_markup(m),
        text::lacks(prop, m),
    ensures
        text::lacks(prop + ":"@ + css_hex(rgb) + ";"@, m),
{
    reveal_strlit(":");
    reveal_strlit(";");
    assert(text::lacks(css_hex(rgb), m));
    text::lacks_join(prop, ":"@, m);
    text::lacks_join(prop + ":"@, css_hex(rgb), m);
    text::lacks_join(prop + ":"@ + css_hex(rgb), ";"@, m);
}

proof fn color_class_lacks(prefix: Seq<char>, c: ColorAttribute, m: char)
    requires
        ends_markup(m),
        text::lacks(prefix, m),
    ensures
        text::lacks(color_class(prefix, c), m),
{
    if let ColorAttribute::PaletteIndex(i) = c {
        text::numerals_lack(i as int, m);
        text::lacks_join(prefix, text::decimal(i as nat), m);
    }
}

/// The characters that end a tag, a value or a text.
pub open spec fn ends_markup(m: char) -> bool {
    m == '>' || m == '"' || m == '<'
}

/// No class name and no style ends a tag.
pub proof fn css_is_inert(look: Look)
    ensures
        text::lacks(classes(look), '>'),
        text::lacks(inline_style(look), '>'),
{
    css_lacks(look, '>');
}

/// No class name and no style ends a tag, a value or a text.
pub proof fn css_lacks(look: Look, m: char)
    requires
        ends_markup(m),
    ensures
        text::lacks(classes(look), m),
        text::lacks(inline_style(look), m),
{
    reveal(classes);
    reveal(inline_style);
    reveal_strlit(" sb");
    reveal_strlit(" sd");
    reveal_strlit(" si");
    reveal_strlit(" su");
    reveal_strlit(" sx");
    reveal_strlit(" ss");
    reveal_strlit(" f");
    reveal_strlit(" b");
    reveal_strlit("color");
    reveal_strlit("background");
    reveal_strlit("--term-bg");
    reveal_strlit("--term-fg");
    let p1 = when(look.intensity is Bold, " sb"@);
    let p2 = p1 + when(look.intensity is Half, " sd"@);
    let p3 = p2 + when(look.italic, " si"@);
    let p4 = p3 + when(!(look.underline is Off), " su"@);
    let p5 = p4 + when(look.invisible, " sx"@);
    let p6 = p5 + when(look.strikethrough, " ss"@);
    let p7 = p6 + when(!look.reverse, color_class(" f"@, look.foreground));
    text::lacks_join(p1, when(look.intensity is Half, " sd"@), m);
    text::lacks_join(p2, when(look.italic, " si"@), m);
    text::lacks_join(p3, when(!(look.underline is Off), " su"@), m);
    text::lacks_join(p4, when(look.invisible, " sx"@), m);
    text::lacks_join(p5, when(look.strikethrough, " ss"@), m);
    color_class_lacks(" f"@, look.foreground, m);
    color_class_lacks(" b"@, look.background, m);
    text::lacks_join(p6, when(!look.reverse, color_class(" f"@, look.foreground)), m);
    text::lacks_join(p7, when(!look.reverse, color_class(" b"@, look.background)), m);
    color_inline_lacks("color"@, look.background, "--term-bg"@, m);
    color_inline_lacks("background"@, look.foreground, "--term-fg"@, m);
    color_inline_lacks("color"@, look.foreground, seq![], m);
    color_inline_lacks("background"@, look.background, seq![], m);
    text::lacks_join(
        color_inline("color"@, look.background, "--term-bg"@),
        color_inline("background"@, look.foreground, "--term-fg"@),
        m,
    );
    text::lacks_join(
        color_rest("color"@, look.foreground),
        color_rest("background"@, look.background),
        m,
    );
}

// --- laws of looks and colors ------------------------------------------------

/// Two cells look the same exactly if they agree in every rendered
/// attribute: weight, slant, underline, visibility, strike, reverse video and
/// the two colors.
pub proof fn looks_agree_in_every_attribute(a: CellAttributes, b: CellAttributes)
    ensures
        a.look() == b.look() <==> {
            &&& a.intensity == b.intensity
            &&& a.italic == b.italic
            &&& a.underline == b.underline
            &&& a.invisible == b.invisible
            &&& a.strikethrough == b.strikethrough
            &&& a.reverse == b.reverse
            &&& a.foreground == b.foreground
            &&& a.background == b.background
        },
        a.look() == default_look() <==> {
            &&& a.intensity is Normal
            &&& !a.italic
            &&& a.underline is Off
            &&& !a.invisible
            &&& !a.strikethrough
            &&& !a.reverse
            &&& a.foreground is Default
            &&& a.background is Default
        },
{
}

/// The look of a cell has each of its rendered attributes as it is set.
pub proof fn look_has_the_attributes(a: CellAttributes)
    ensures
        a.look().intensity == a.intensity,
        a.look().italic == a.italic,
        a.look().underline == a.underline,
        a.look().invisible == a.invisible,
        a.look().strikethrough == a.strikethrough,
        a.look().reverse == a.reverse,
        a.look().foreground == a.foreground,
        a.look().background == a.background,
{
}

/// The channels of the base colors go by the bits of the index: 1 for red, 2
/// for green, 4 for blue, and from 8 on the bright ones. Four of the sixteen
/// are set apart: the blue, the two grays and the white.
pub proof fn base_colors_go_by_bits(i: u8)
    requires
        i < 16,
    ensures
        ({
            let (r, g, b) = palette_color(i);
            let dim = if i < 8 {
                0u8
            } else {
                0x54u8
            };
            let lit = if i < 8 {
                0xcdu8
            } else {
                0xffu8
            };
            let pick = |bit: int|
                if (i as int / bit) % 2 == 1 {
                    lit
                } else {
                    dim
                };
            if i == 4 {
                (r, g, b) == (0x1eu8, 0x90u8, 0xffu8)
            } else if i == 7 {
                (r, g, b) == (0xe5u8, 0xe5u8, 0xe5u8)
            } else if i == 8 {
                (r, g, b) == (0x4du8, 0x4du8, 0x4du8)
            } else {
                r == pick(1) && g == pick(2) && b == pick(4)
            }
        }),
{
}

/// The color cube: each channel goes by one digit of the index in base six,
/// red first, and the six levels are 0, 95, 135, 175, 215 and 255.
pub proof fn cube_goes_by_base_six(r: nat, g: nat, b: nat)
    requires
        r < 6,
        g < 6,
        b < 6,
    ensures
        ({
            let levels = seq![0u8, 95u8, 135u8, 175u8, 215u8, 255u8];
            palette_color((16 + 36 * r + 6 * g + b) as u8) == (
                levels[r as int],
                levels[g as int],
                levels[b as int],
            )
        }),
{
    let n = 36 * r + 6 * g + b;
    assert(n / 36 == r);
    assert(n / 6 == 6 * r + g);
    assert((6 * r + g) % 6 == g);
    assert(n % 6 == b);
}

/// The gray ramp: equal channels, from 8 up to 238 in steps of ten.
pub proof fn grays_go_up_in_steps(i: u8)
    requires
        i >= 232,
    ensures
        palette_color(i).0 == palette_color(i).1 && palette_color(i).1 == palette_color(i).2,
        i == 232 ==> palette_color(i).0 == 8,
        i == 255 ==> palette_color(i).0 == 238,
        i < 255 ==> palette_color((i + 1) as u8).0 == palette_color(i).0 + 10,
{
}

/// The number that a css hex color stands for, channel by channel.
pub open spec fn hex_read(v: Seq<char>) -> Option<(nat, nat, nat)> {
    if v.len() == 7 && v[0] == '#' {
        Some(
            (
                text::hex_number(v.subrange(1, 3)),
                text::hex_number(v.subrange(3, 5)),
                text::hex_number(v.subrange(5, 7)),
            ),
        )
    } else {
        None
    }
}

/// Whether the css value `v` stands for the color `c`, where `default_var` is
/// the variable of the default color.
pub open spec fn paints(v: Seq<char>, c: ColorAttribute, default_var: Seq<char>) -> bool {
    match c {
        ColorAttribute::Default => v == "var("@ + default_var + ")"@,
        ColorAttribute::PaletteIndex(i) => if i < 16 {
            exists|d: Seq<char>| #[trigger]
                text::all_digits(d) && text::number(d) == i && d.len() > 0 && v == "var(--c"@ + d
                    + ")"@
        } else {
            hex_read(v) == Some(
                (
                    palette_color(i).0 as nat,
                    palette_color(i).1 as nat,
                    palette_color(i).2 as nat,
                ),
            )
        },
        ColorAttribute::TrueColorWithPaletteFallback(rgb, _) => hex_read(v) == Some(
            (rgb.red as nat, rgb.green as nat, rgb.blue as nat),
        ),
        ColorAttribute::TrueColorWithDefaultFallback(rgb) => hex_read(v) == Some(
            (rgb.red as nat, rgb.green as nat, rgb.blue as nat),
        ),
    }
}

proof fn hex_reads_back(rgb: (u8, u8, u8))
    ensures
        hex_read(css_hex(rgb)) == Some((rgb.0 as nat, rgb.1 as nat, rgb.2 as nat)),
        text::lacks(css_hex(rgb), ';'),
{
    let v = css_hex(rgb);
    text::hex_reads_back(rgb.0);
    text::hex_reads_back(rgb.1);
    text::hex_reads_back(rgb.2);
    assert(v.subrange(1, 3) =~= text::hex2(rgb.0));
    assert(v.subrange(3, 5) =~= text::hex2(rgb.1));
    assert(v.subrange(5, 7) =~= text::hex2(rgb.2));
}

/// A color is one declaration of its property, whose value stands for the
/// color; a default color without a variable is none.
pub proof fn colors_are_declared(
    prop: Seq<char>,
    c: ColorAttribute,
    default_var: Seq<char>,
    rest: Seq<char>,
) -> (value: Seq<char>)
    requires
        text::lacks(prop, ':'),
        text::lacks(prop, ';'),
        text::lacks(default_var, ';'),
    ensures
        c is Default && default_var.len() == 0 ==> color_inline(prop, c, default_var).len() == 0,
        !(c is Default && default_var.len() == 0) ==> {
            &&& markup::declarations(color_inline(prop, c, default_var) + rest) == seq![
                markup::Attr { name: prop, value },
            ] + markup::declarations(rest)
            &&& paints(value, c, default_var)
        },
{
    reveal_strlit("var(");
    reveal_strlit(")");
    reveal_strlit("var(--c");
    reveal_strlit(":var(");
    reveal_strlit(");");
    reveal_strlit(":var(--c");
    reveal_strlit(":");
    reveal_strlit(";");
    let s = color_inline(prop, c, default_var);
    let value = match c {
        ColorAttribute::Default => "var("@ + default_var + ")"@,
        ColorAttribute::PaletteIndex(i) => if i < 16 {
            "var(--c"@ + text::decimal(i as nat) + ")"@
        } else {
            css_hex(palette_color(i))
        },
        ColorAttribute::TrueColorWithPaletteFallback(rgb, _) => css_hex(
            (rgb.red, rgb.green, rgb.blue),
        ),
        ColorAttribute::TrueColorWithDefaultFallback(rgb) => css_hex(
            (rgb.red, rgb.green, rgb.blue),
        ),
    };
    match c {
        ColorAttribute::Default => {
            text::lacks_join("var("@, default_var, ';');
            text::lacks_join("var("@ + default_var, ")"@, ';');
        },
        ColorAttribute::PaletteIndex(i) => {
            let d = text::decimal(i as nat);
            text::numerals_lack(i as int, ';');
            text::lacks_join("var(--c"@, d, ';');
            text::lacks_join("var(--c"@ + d, ")"@, ';');
            text::decimal_reads_back(i as nat);
            hex_reads_back(palette_color(i));
        },
        ColorAttribute::TrueColorWithPaletteFallback(rgb, _) => {
            hex_reads_back((rgb.red, rgb.green, rgb.blue));
        },
        ColorAttribute::TrueColorWithDefaultFallback(rgb) => {
            hex_reads_back((rgb.red, rgb.green, rgb.blue));
        },
    }
    if !(c is Default && default_var.len() == 0) {
        markup::declarations_first(prop, value, rest);
        assert(s + rest =~= prop + seq![':'] + value + seq![';'] + rest);
    }
    value
}

/// Whether the property `name` of the style `s` is what the color `c` calls
/// for. Reverse video names every color; otherwise a default color needs no
/// declaration, and a base color has a class instead.
pub open spec fn declared_for(
    s: Seq<char>,
    name: Seq<char>,
    c: ColorAttribute,
    reverse: bool,
    default_var: Seq<char>,
) -> bool {
    let unnamed = match c {
        ColorAttribute::Default => true,
        ColorAttribute::PaletteIndex(i) => i < 16,
        _ => false,
    };
    match markup::property(s, name) {
        Some(v) => (reverse || !unnamed) && paints(v, c, default_var),
        None => !reverse && unnamed,
    }
}

/// The style of a look paints the text in its foreground and what is behind
/// it in its background; reverse video trades the two, and names the terminal's
/// own colors for the defaults. It declares nothing else.
pub proof fn style_paints_the_look(look: Look)
    ensures
        declared_for(
            inline_style(look),
            "color"@,
            if look.reverse {
                look.background
            } else {
                look.foreground
            },
            look.reverse,
            "--term-bg"@,
        ),
        declared_for(
            inline_style(look),
            "background"@,
            if look.reverse {
                look.foreground
            } else {
                look.background
            },
            look.reverse,
            "--term-fg"@,
        ),
        forall|name: Seq<char>| #[trigger]
            markup::property(inline_style(look), name) is Some ==> name == "color"@ || name
                == "background"@,
{
    reveal(inline_style);
    reveal_strlit("color");
    reveal_strlit("background");
    reveal_strlit("--term-bg");
    reveal_strlit("--term-fg");
    assert("color"@[0] != "background"@[0]);
    reveal_with_fuel(markup::value_of, 4);
    let empty = Seq::<char>::empty();
    assert(markup::declarations(empty) =~= Seq::<markup::Attr>::empty());
    let s = inline_style(look);
    let (fg, bg, fv, bv) = if look.reverse {
        (look.background, look.foreground, "--term-bg"@, "--term-fg"@)
    } else {
        (look.foreground, look.background, empty, empty)
    };
    let has_fg = look.reverse || !(fg is Default) && !has_color_class(fg);
    let has_bg = look.reverse || !(bg is Default) && !has_color_class(bg);
    let second = if has_bg {
        color_inline("background"@, bg, bv)
    } else {
        empty
    };
    assert(s =~= (if has_fg {
        color_inline("color"@, fg, fv)
    } else {
        empty
    }) + second);
    let v2 = colors_are_declared("background"@, bg, bv, empty);
    assert(second + empty =~= second);
    let v1 = colors_are_declared("color"@, fg, fv, second);
    let d2 = if has_bg {
        seq![markup::Attr { name: "background"@, value: v2 }]
    } else {
        seq![]
    };
    assert(markup::declarations(second) =~= d2);
    let d = markup::declarations(s);
    if has_fg {
        assert(d =~= seq![markup::Attr { name: "color"@, value: v1 }] + d2);
        assert(d.drop_first() =~= d2);
    } else {
        assert(s =~= second);
        assert(d =~= d2);
    }
    assert(d2.len() == 1 ==> d2.drop_first() =~= seq![]);
}

// --- laws of class names -----------------------------------------------------

proof fn contains_join(a: Seq<Seq<char>>, b: Seq<Seq<char>>, w: Seq<char>)
    ensures
        (a + b).contains(w) <==> a.contains(w) || b.contains(w),
{
    if a.contains(w) {
        let i = choose|i: int| 0 <= i < a.len() && a[i] == w;
        assert((a + b)[i] == w);
    }
    if b.contains(w) {
        let i = choose|i: int| 0 <= i < b.len() && b[i] == w;
        assert((a + b)[a.len() + i] == w);
    }
}

/// The words of a class piece, and what else follows.
proof fn piece_words(on: bool, w: Seq<char>, rest: Seq<char>)
    requires
        text::lacks(w, ' '),
        rest.len() == 0 || rest[0] == ' ',
    ensures
        forall|x: Seq<char>| #[trigger]
            markup::words(when(on, seq![' '] + w) + rest).contains(x) <==> on && x == w
                || markup::words(rest).contains(x),
        (when(on, seq![' '] + w) + rest).len() == 0 || (when(on, seq![' '] + w) + rest)[0] == ' ',
{
    let s = when(on, seq![' '] + w) + rest;
    if on {
        markup::words_first(w, rest);
        assert forall|x: Seq<char>| #[trigger] markup::words(s).contains(x) <==> on && x == w
            || markup::words(rest).contains(x) by {
            contains_join(seq![w], markup::words(rest), x);
            assert(seq![w].contains(x) <==> x == w) by {
                if x == w {
                    assert(seq![w][0] == x);
                }
            }
        }
    } else {
        assert(s =~= rest);
    }
}

spec fn palette_slot(c: ColorAttribute) -> nat {
    match c {
        ColorAttribute::PaletteIndex(i) => i as nat,
        _ => 0,
    }
}

spec fn color_word(prefix: char, c: ColorAttribute) -> Seq<char> {
    seq![prefix] + text::decimal(palette_slot(c))
}

spec fn named(look: Look, w: Seq<char>) -> bool {
    ||| look.intensity is Bold && w == "sb"@
    ||| look.intensity is Half && w == "sd"@
    ||| look.italic && w == "si"@
    ||| !(look.underline is Off) && w == "su"@
    ||| look.invisible && w == "sx"@
    ||| look.strikethrough && w == "ss"@
    ||| !look.reverse && has_color_class(look.foreground) && w == color_word('f', look.foreground)
    ||| !look.reverse && has_color_class(look.background) && w == color_word('b', look.background)
}

/// The class names of the colors, as words.
spec fn color_tail(look: Look) -> Seq<char> {
    when(
        !look.reverse && has_color_class(look.foreground),
        seq![' '] + color_word('f', look.foreground),
    ) + (when(
        !look.reverse && has_color_class(look.background),
        seq![' '] + color_word('b', look.background),
    ) + seq![])
}

proof fn color_tail_words(look: Look)
    ensures
        color_tail(look) == when(!look.reverse, color_class(" f"@, look.foreground)) + when(
            !look.reverse,
            color_class(" b"@, look.background),
        ),
        color_tail(look).len() == 0 || color_tail(look)[0] == ' ',
        forall|x: Seq<char>| #[trigger]
            markup::words(color_tail(look)).contains(x) <==> {
                ||| !look.reverse && has_color_class(look.foreground) && x == color_word(
                    'f',
                    look.foreground,
                )
                ||| !look.reverse && has_color_class(look.background) && x == color_word(
                    'b',
                    look.background,
                )
            },
{
    reveal_strlit(" f");
    reveal_strlit(" b");
    let fw = color_word('f', look.foreground);
    let bw = color_word('b', look.background);
    let fg = palette_slot(look.foreground);
    let bg = palette_slot(look.background);
    let f_on = !look.reverse && has_color_class(look.foreground);
    let b_on = !look.reverse && has_color_class(look.background);
    text::numerals_lack(fg as int, ' ');
    text::numerals_lack(bg as int, ' ');
    text::lacks_join(seq!['f'], text::decimal(fg), ' ');
    text::lacks_join(seq!['b'], text::decimal(bg), ' ');
    assert(" f"@ + text::decimal(fg) =~= seq![' '] + fw);
    assert(" b"@ + text::decimal(bg) =~= seq![' '] + bw);
    let empty = Seq::<char>::empty();
    assert(markup::words(empty) =~= Seq::<Seq<char>>::empty());
    let t8 = when(b_on, seq![' '] + bw) + empty;
    piece_words(b_on, bw, empty);
    piece_words(f_on, fw, t8);
    assert(color_tail(look) =~= when(!look.reverse, color_class(" f"@, look.foreground)) + when(
        !look.reverse,
        color_class(" b"@, look.background),
    ));
}

proof fn regroup(
    a: Seq<char>,
    b: Seq<char>,
    c: Seq<char>,
    d: Seq<char>,
    e: Seq<char>,
    f: Seq<char>,
    g: Seq<char>,
    h: Seq<char>,
)
    ensures
        a + b + c + d + e + f + g + h == a + (b + (c + (d + (e + (f + (g + h)))))),
{
    assert(a + b + c + d + e + f + g + h =~= a + (b + (c + (d + (e + (f + (g + h)))))));
}

/// The class names of underline, visibility, strike and colors, as words.
spec fn line_tail(look: Look) -> Seq<char> {
    when(!(look.underline is Off), seq![' '] + "su"@) + (when(
        look.invisible,
        seq![' '] + "sx"@,
    ) + (when(look.strikethrough, seq![' '] + "ss"@) + color_tail(look)))
}

proof fn class_pieces(look: Look)
    ensures
        classes(look) == when(look.intensity is Bold, seq![' '] + "sb"@) + (when(
            look.intensity is Half,
            seq![' '] + "sd"@,
        ) + (when(look.italic, seq![' '] + "si"@) + line_tail(look))),
{
    reveal(classes);
    reveal_strlit(" sb");
    reveal_strlit(" sd");
    reveal_strlit(" si");
    reveal_strlit(" su");
    reveal_strlit(" sx");
    reveal_strlit(" ss");
    reveal_strlit("sb");
    reveal_strlit("sd");
    reveal_strlit("si");
    reveal_strlit("su");
    reveal_strlit("sx");
    reveal_strlit("ss");
    assert(" sb"@ =~= seq![' '] + "sb"@);
    assert(" sd"@ =~= seq![' '] + "sd"@);
    assert(" si"@ =~= seq![' '] + "si"@);
    assert(" su"@ =~= seq![' '] + "su"@);
    assert(" sx"@ =~= seq![' '] + "sx"@);
    assert(" ss"@ =~= seq![' '] + "ss"@);
    color_tail_words(look);
    regroup(
        when(look.intensity is Bold, " sb"@),
        when(look.intensity is Half, " sd"@),
        when(look.italic, " si"@),
        when(!(look.underline is Off), " su"@),
        when(look.invisible, " sx"@),
        when(look.strikethrough, " ss"@),
        when(!look.reverse, color_class(" f"@, look.foreground)),
        when(!look.reverse, color_class(" b"@, look.background)),
    );
}

proof fn class_words_lack_spaces()
    ensures
        text::lacks("sb"@, ' ') && text::lacks("sd"@, ' ') && text::lacks("si"@, ' '),
        text::lacks("su"@, ' ') && text::lacks("sx"@, ' ') && text::lacks("ss"@, ' '),
{
    reveal_strlit("sb");
    reveal_strlit("sd");
    reveal_strlit("si");
    reveal_strlit("su");
    reveal_strlit("sx");
    reveal_strlit("ss");
}

proof fn class_words(look: Look)
    ensures
        forall|w: Seq<char>| #[trigger]
            markup::words(classes(look)).contains(w) <==> named(look, w),
{
    class_pieces(look);
    class_words_lack_spaces();
    color_tail_words(look);
    let t7 = color_tail(look);
    let t6 = when(look.strikethrough, seq![' '] + "ss"@) + t7;
    let t5 = when(look.invisible, seq![' '] + "sx"@) + t6;
    let t4 = line_tail(look);
    let t3 = when(look.italic, seq![' '] + "si"@) + t4;
    let t2 = when(look.intensity is Half, seq![' '] + "sd"@) + t3;
    piece_words(look.strikethrough, "ss"@, t7);
    piece_words(look.invisible, "sx"@, t6);
    piece_words(!(look.underline is Off), "su"@, t5);
    piece_words(look.italic, "si"@, t4);
    piece_words(look.intensity is Half, "sd"@, t3);
    piece_words(look.intensity is Bold, "sb"@, t2);
}

proof fn class_words_differ()
    ensures
        "sb"@[0] == 's' && "sd"@[0] == 's' && "si"@[0] == 's',
        "su"@[0] == 's' && "sx"@[0] == 's' && "ss"@[0] == 's',
        "sb"@[1] == 'b' && "sd"@[1] == 'd' && "si"@[1] == 'i',
        "su"@[1] == 'u' && "sx"@[1] == 'x' && "ss"@[1] == 's',
{
    reveal_strlit("sb");
    reveal_strlit("sd");
    reveal_strlit("si");
    reveal_strlit("su");
    reveal_strlit("sx");
    reveal_strlit("ss");
}

/// Each class name is there exactly if the cell has the attribute it stands
/// for, and no other name is: `sb` bold, `sd` dim, `si` italic, `su` any
/// underline, `sx` invisible, `ss` struck through, `f` and `b` with a number
/// a base color in front or behind, where the two are not traded.
pub proof fn class_names_tell_the_look(look: Look)
    ensures
        markup::words(classes(look)).contains("sb"@) <==> look.intensity is Bold,
        markup::words(classes(look)).contains("sd"@) <==> look.intensity is Half,
        markup::words(classes(look)).contains("si"@) <==> look.italic,
        markup::words(classes(look)).contains("su"@) <==> !(look.underline is Off),
        markup::words(classes(look)).contains("sx"@) <==> look.invisible,
        markup::words(classes(look)).contains("ss"@) <==> look.strikethrough,
        forall|n: nat| #[trigger]
            markup::words(classes(look)).contains(seq!['f'] + text::decimal(n)) <==> !look.reverse
                && n < 16 && look.foreground == ColorAttribute::PaletteIndex(n as u8),
        forall|n: nat| #[trigger]
            markup::words(classes(look)).contains(seq!['b'] + text::decimal(n)) <==> !look.reverse
                && n < 16 && look.background == ColorAttribute::PaletteIndex(n as u8),
        forall|w: Seq<char>| #[trigger]
            markup::words(classes(look)).contains(w) ==> {
                ||| w == "sb"@ || w == "sd"@ || w == "si"@ || w == "su"@ || w == "sx"@ || w
                    == "ss"@
                ||| exists|n: nat| n < 16 && w == seq!['f'] + #[trigger] text::decimal(n)
                ||| exists|n: nat| n < 16 && w == seq!['b'] + #[trigger] text::decimal(n)
            },
{
    class_words(look);
    class_words_differ();
    let fw = color_word('f', look.foreground);
    let bw = color_word('b', look.background);
    assert(fw[0] == 'f' && bw[0] == 'b');
    assert forall|n: nat| #[trigger]
        markup::words(classes(look)).contains(seq!['f'] + text::decimal(n)) <==> !look.reverse && n
            < 16 && look.foreground == ColorAttribute::PaletteIndex(n as u8) by {
        let w = seq!['f'] + text::decimal(n);
        assert(w[0] == 'f');
        if w == fw {
            assert(w.drop_first() =~= text::decimal(n));
            assert(fw.drop_first() =~= text::decimal(palette_slot(look.foreground)));
            text::decimal_is_faithful(n, palette_slot(look.foreground));
        }
    }
    assert forall|n: nat| #[trigger]
        markup::words(classes(look)).contains(seq!['b'] + text::decimal(n)) <==> !look.reverse && n
            < 16 && look.background == ColorAttribute::PaletteIndex(n as u8) by {
        let w = seq!['b'] + text::decimal(n);
        assert(w[0] == 'b');
        if w == bw {
            assert(w.drop_first() =~= text::decimal(n));
            assert(bw.drop_first() =~= text::decimal(palette_slot(look.background)));
            text::decimal_is_faithful(n, palette_slot(look.background));
        }
    }
}

} // verus!
