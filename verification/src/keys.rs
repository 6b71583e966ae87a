//! Keys: browser key names, modifier bits, and the escape sequences of keys
//! that are held together with the meta key.
use crate::markup;
use crate::text;
use vstd::prelude::*;

verus! {

/// A key, as the emulator knows it.
#[derive(Clone, Copy, Debug, PartialEq, Eq, Structural)]
pub enum KeyCode {
    Char(char),
    UpArrow,
    DownArrow,
    LeftArrow,
    RightArrow,
    Home,
    End,
    PageUp,
    PageDown,
    Insert,
    Delete,
    Enter,
    Tab,
    Backspace,
    Escape,
    Function(u8),
}

/// The modifiers that are held with a key.
#[derive(Clone, Copy, Debug, PartialEq, Eq, Structural)]
pub struct KeyModifiers {
    pub shift: bool,
    pub alt: bool,
    pub ctrl: bool,
    pub meta: bool,
}

// --- names -------------------------------------------------------------------

/// The keys of the editing and navigation cluster, by name.
pub open spec fn cluster_key(name: Seq<char>) -> Option<KeyCode> {
    if name == "ArrowUp"@ {
        Some(KeyCode::UpArrow)
    } else if name == "ArrowDown"@ {
        Some(KeyCode::DownArrow)
    } else if name == "ArrowLeft"@ {
        Some(KeyCode::LeftArrow)
    } else if name == "ArrowRight"@ {
        Some(KeyCode::RightArrow)
    } else if name == "Home"@ {
        Some(KeyCode::Home)
    } else if name == "End"@ {
        Some(KeyCode::End)
    } else if name == "PageUp"@ {
        Some(KeyCode::PageUp)
    } else if name == "PageDown"@ {
        Some(KeyCode::PageDown)
    } else if name == "Insert"@ {
        Some(KeyCode::Insert)
    } else if name == "Delete"@ {
        Some(KeyCode::Delete)
    } else if name == "Enter"@ {
        Some(KeyCode::Enter)
    } else if name == "Tab"@ {
        Some(KeyCode::Tab)
    } else if name == "Backspace"@ {
        Some(KeyCode::Backspace)
    } else if name == "Escape"@ {
        Some(KeyCode::Escape)
    } else {
        None
    }
}

/// The digits of a numeral: a plus sign may stand before them.
pub open spec fn after_sign(s: Seq<char>) -> Seq<char> {
    if s.len() > 0 && s[0] == '+' {
        s.skip(1)
    } else {
        s
    }
}

/// The number of a function key name: an `F` and a numeral from 1 to 24.
pub open spec fn function_number(name: Seq<char>) -> Option<nat> {
    let digits = after_sign(name.skip(1));
    if name.len() > 0 && name[0] == 'F' && digits.len() > 0 && text::all_digits(digits) && 1
        <= text::number(digits) <= 24 {
        Some(text::number(digits))
    } else {
        None
    }
}

/// The key of a name: a single character is itself, other keys go by their
/// names.
pub open spec fn key_named(name: Seq<char>) -> Option<KeyCode> {
    if name.len() == 1 {
        Some(KeyCode::Char(name[0]))
    } else if cluster_key(name) is Some {
        cluster_key(name)
    } else {
        match function_number(name) {
            Some(n) => Some(KeyCode::Function(n as u8)),
            None => None,
        }
    }
}

fn parse_cluster_key(cs: &Vec<char>) -> (res: Option<KeyCode>)
    ensures
        res == cluster_key(cs@),
{
    if text::same_text(cs, "ArrowUp") {
        Some(KeyCode::UpArrow)
    } else if text::same_text(cs, "ArrowDown") {
        Some(KeyCode::DownArrow)
    } else if text::same_text(cs, "ArrowLeft") {
        Some(KeyCode::LeftArrow)
    } else if text::same_text(cs, "ArrowRight") {
        Some(KeyCode::RightArrow)
    } else if text::same_text(cs, "Home") {
        Some(KeyCode::Home)
    } else if text::same_text(cs, "End") {
        Some(KeyCode::End)
    } else if text::same_text(cs, "PageUp") {
        Some(KeyCode::PageUp)
    } else if text::same_text(cs, "PageDown") {
        Some(KeyCode::PageDown)
    } else if text::same_text(cs, "Insert") {
        Some(KeyCode::Insert)
    } else if text::same_text(cs, "Delete") {
        Some(KeyCode::Delete)
    } else if text::same_text(cs, "Enter") {
        Some(KeyCode::Enter)
    } else if text::same_text(cs, "Tab") {
        Some(KeyCode::Tab)
    } else if text::same_text(cs, "Backspace") {
        Some(KeyCode::Backspace)
    } else if text::same_text(cs, "Escape") {
        Some(KeyCode::Escape)
    } else {
        None
    }
}

fn parse_function_key(cs: &Vec<char>) -> (res: Option<KeyCode>)
    ensures
        res == (match function_number(cs@) {
            Some(n) => Some(KeyCode::Function(n as u8)),
            None => None,
        }),
{
    if cs.len() < 2 || cs[0] != 'F' {
        return None;
    }
    let lo: usize = if cs[1] == '+' {
        2
    } else {
        1
    };
    assert(after_sign(cs@.skip(1)) =~= cs@.skip(lo as int));
    if cs.len() == lo {
        return None;
    }
    match text::read_number(cs, lo, 25) {
        Some(n) => if n == 0 || n > 24 {
            None
        } else {
            Some(KeyCode::Function(n as u8))
        },
        None => None,
    }
}

/// The key of a browser `KeyboardEvent.key` name. Single characters pass
/// through; named keys cover the editing/navigation cluster and F1-F24.
pub fn parse_key(k: &str) -> (res: Option<KeyCode>)
    ensures
        res == key_named(k@),
{
    let cs = text::chars_of(k);
    if cs.len() == 1 {
        return Some(KeyCode::Char(cs[0]));
    }
    let named = parse_cluster_key(&cs);
    if named.is_some() {
        return named;
    }
    parse_function_key(&cs)
}

// --- escape sequences --------------------------------------------------------

/// The first parameter of the tilde form of function keys from F5 on.
pub open spec fn tilde_number(n: u8) -> nat {
    if n == 5 {
        15
    } else if n <= 10 {
        (n + 11) as nat
    } else {
        (n + 12) as nat
    }
}

/// The first parameter and the final character of a key's CSI form.
pub open spec fn csi_form(key: KeyCode) -> Option<(nat, char)> {
    match key {
        KeyCode::UpArrow => Some((1, 'A')),
        KeyCode::DownArrow => Some((1, 'B')),
        KeyCode::RightArrow => Some((1, 'C')),
        KeyCode::LeftArrow => Some((1, 'D')),
        KeyCode::Home => Some((1, 'H')),
        KeyCode::End => Some((1, 'F')),
        KeyCode::Insert => Some((2, '~')),
        KeyCode::Delete => Some((3, '~')),
        KeyCode::PageUp => Some((5, '~')),
        KeyCode::PageDown => Some((6, '~')),
        KeyCode::Function(n) => if 1 <= n <= 4 {
            Some((1, ('P' as nat + n - 1) as char))
        } else if 5 <= n <= 12 {
            Some((tilde_number(n), '~'))
        } else {
            None
        },
        _ => None,
    }
}

/// A control sequence with two parameters.
pub open spec fn csi(first: nat, second: nat, last: char) -> Seq<char> {
    seq!['\u{1b}', '['] + text::decimal(first) + seq![';'] + text::decimal(second) + seq![last]
}

/// What a key with modifiers is sent as: the second parameter is one more
/// than the modifier bits.
pub open spec fn modified_key(key: KeyCode, mods_bits: u8) -> Option<Seq<char>> {
    match csi_form(key) {
        Some((first, last)) => Some(csi(first, 1 + mods_bits as nat, last)),
        None => None,
    }
}

fn key_form(key: &KeyCode) -> (res: Option<(u8, char)>)
    ensures
        match res {
            Some((first, last)) => csi_form(*key) == Some((first as nat, last)),
            None => csi_form(*key) is None,
        },
{
    match key {
        KeyCode::UpArrow => Some((1, 'A')),
        KeyCode::DownArrow => Some((1, 'B')),
        KeyCode::RightArrow => Some((1, 'C')),
        KeyCode::LeftArrow => Some((1, 'D')),
        KeyCode::Home => Some((1, 'H')),
        KeyCode::End => Some((1, 'F')),
        KeyCode::Insert => Some((2, '~')),
        KeyCode::Delete => Some((3, '~')),
        KeyCode::PageUp => Some((5, '~')),
        KeyCode::PageDown => Some((6, '~')),
        KeyCode::Function(n) => {
            let n: u8 = *n;
            if 1 <= n && n <= 4 {
                Some((1, (('P' as u8) + n - 1) as char))
            } else if 5 <= n && n <= 12 {
                let intros: [u8; 8] = [15, 17, 18, 19, 20, 21, 23, 24];
                Some((intros[(n - 5) as usize], '~'))
            } else {
                None
            }
        },
        _ => None,
    }
}

/// Encodes a named key held with meta as its xterm CSI form: the second
/// parameter is 1 + shift|alt|ctrl|meta bits, e.g. Cmd+Left = CSI 1;9D.
/// Modified cursor keys use CSI even in application cursor mode, so no
/// terminal state is needed. None = no CSI form (meta+char etc); the caller
/// falls back.
pub fn encode_super_key(kc: &KeyCode, mods_bits: u8) -> (res: Option<String>)
    requires
        mods_bits < 255,
    ensures
        match res {
            Some(s) => modified_key(*kc, mods_bits) == Some(s@),
            None => modified_key(*kc, mods_bits) is None,
        },
{
    let p: u8 = 1 + mods_bits;
    match key_form(kc) {
        Some((first, last)) => {
            let mut out = String::new();
            out.push('\u{1b}');
            out.push('[');
            text::push_decimal(&mut out, first as u64);
            out.push(';');
            text::push_decimal(&mut out, p as u64);
            out.push(last);
            assert(out@ =~= csi(first as nat, p as nat, last));
            Some(out)
        },
        None => None,
    }
}

// --- modifiers ---------------------------------------------------------------

/// The modifiers that client bits stand for.
pub open spec fn modifiers(bits: u8) -> KeyModifiers {
    KeyModifiers {
        shift: bits & 1 != 0,
        alt: bits & 2 != 0,
        ctrl: bits & 4 != 0,
        meta: bits & 8 != 0,
    }
}

/// The modifiers of client bits: 1 shift, 2 alt, 4 ctrl, 8 meta.
pub fn parse_mods(bits: u8) -> (res: KeyModifiers)
    ensures
        res == modifiers(bits),
{
    KeyModifiers {
        shift: bits & 1 != 0,
        alt: bits & 2 != 0,
        ctrl: bits & 4 != 0,
        meta: bits & 8 != 0,
    }
}

// --- laws --------------------------------------------------------------------

/// Every function key from F1 to F24 goes by `F` and its number.
pub proof fn function_keys_go_by_number(n: u8)
    requires
        1 <= n <= 24,
    ensures
        key_named(seq!['F'] + text::decimal(n as nat)) == Some(KeyCode::Function(n)),
{
    let d = text::decimal(n as nat);
    let name = seq!['F'] + d;
    text::decimal_reads_back(n as nat);
    assert(text::is_digit(d[0]));
    assert(name.skip(1) =~= d);
    assert(after_sign(d) == d);
    assert(name[1] == d[0]);
    reveal_strlit("ArrowUp");
    reveal_strlit("ArrowDown");
    reveal_strlit("ArrowLeft");
    reveal_strlit("ArrowRight");
    reveal_strlit("Home");
    reveal_strlit("End");
    reveal_strlit("PageUp");
    reveal_strlit("PageDown");
    reveal_strlit("Insert");
    reveal_strlit("Delete");
    reveal_strlit("Enter");
    reveal_strlit("Tab");
    reveal_strlit("Backspace");
    reveal_strlit("Escape");
    assert(name[0] == 'F');
    assert(cluster_key(name) is None);
}

/// A name gives a character key exactly if it is one character long, and
/// then that character.
pub proof fn characters_are_themselves(name: Seq<char>)
    ensures
        name.len() == 1 <==> key_named(name) matches Some(KeyCode::Char(_)),
        name.len() == 1 ==> key_named(name) == Some(KeyCode::Char(name[0])),
{
}

/// No function key outside F1-F24 is ever named.
pub proof fn function_numbers_are_bounded(name: Seq<char>, n: u8)
    requires
        key_named(name) == Some(KeyCode::Function(n)),
    ensures
        1 <= n <= 24,
{
}

proof fn digits_end(a: Seq<char>, b: Seq<char>, x: Seq<char>, y: Seq<char>)
    requires
        text::all_digits(a),
        text::all_digits(b),
        a + seq![';'] + x == b + seq![';'] + y,
    ensures
        a == b,
        x == y,
{
    let s = a + seq![';'] + x;
    assert(s[a.len() as int] == ';');
    assert(s[b.len() as int] == ';');
    if a.len() < b.len() {
        assert(s[a.len() as int] == b[a.len() as int]);
        assert(text::is_digit(b[a.len() as int]));
    }
    if b.len() < a.len() {
        assert(s[b.len() as int] == a[b.len() as int]);
        assert(text::is_digit(a[b.len() as int]));
    }
    assert(a =~= s.take(a.len() as int));
    assert(b =~= s.take(b.len() as int));
    assert(x =~= s.skip(a.len() as int + 1));
    assert(y =~= s.skip(b.len() as int + 1));
}

/// No two keys with modifiers share a sequence: the sequence tells both the
/// key and the modifier bits.
pub proof fn sequences_tell_keys_apart(a: KeyCode, am: u8, b: KeyCode, bm: u8)
    requires
        modified_key(a, am) is Some,
        modified_key(a, am) == modified_key(b, bm),
    ensures
        a == b,
        am == bm,
{
    let (af, al) = csi_form(a).unwrap();
    let (bf, bl) = csi_form(b).unwrap();
    let ap = 1 + am as nat;
    let bp = 1 + bm as nat;
    let s = modified_key(a, am).unwrap();
    let x = text::decimal(ap) + seq![al];
    let y = text::decimal(bp) + seq![bl];
    assert(s.skip(2) =~= text::decimal(af) + seq![';'] + x);
    assert(s.skip(2) =~= text::decimal(bf) + seq![';'] + y);
    text::decimal_reads_back(af);
    text::decimal_reads_back(bf);
    digits_end(text::decimal(af), text::decimal(bf), x, y);
    text::decimal_is_faithful(af, bf);
    assert(x.last() == al && y.last() == bl);
    assert(x.drop_last() =~= text::decimal(ap));
    assert(y.drop_last() =~= text::decimal(bp));
    text::decimal_is_faithful(ap, bp);
}

/// The bits of modifiers.
pub open spec fn modifier_bits(m: KeyModifiers) -> u8 {
    (if m.shift {
        1u8
    } else {
        0u8
    }) | (if m.alt {
        2u8
    } else {
        0u8
    }) | (if m.ctrl {
        4u8
    } else {
        0u8
    }) | (if m.meta {
        8u8
    } else {
        0u8
    })
}

/// Four bits tell every set of modifiers.
pub proof fn modifiers_have_bits(m: KeyModifiers)
    ensures
        modifiers(modifier_bits(m)) == m,
{
    let s = m.shift;
    let a = m.alt;
    let c = m.ctrl;
    let t = m.meta;
    let x: u8 = if s {
        1u8
    } else {
        0u8
    };
    let y: u8 = if a {
        2u8
    } else {
        0u8
    };
    let z: u8 = if c {
        4u8
    } else {
        0u8
    };
    let w: u8 = if t {
        8u8
    } else {
        0u8
    };
    assert((x == 0 || x == 1) && (y == 0 || y == 2) && (z == 0 || z == 4) && (w == 0 || w == 8)
        ==> (((x | y | z | w) & 1 != 0) == (x == 1)) && (((x | y | z | w) & 2 != 0) == (y == 2))
        && (((x | y | z | w) & 4 != 0) == (z == 4)) && (((x | y | z | w) & 8 != 0) == (w == 8)))
        by (bit_vector);
}

/// Dropping the meta bit drops meta and nothing else.
pub proof fn dropping_meta_keeps_the_rest(bits: u8)
    ensures
        modifiers(bits & !8u8) == (KeyModifiers { meta: false, ..modifiers(bits) }),
{
    assert((bits & !8u8) & 1 == bits & 1) by (bit_vector);
    assert((bits & !8u8) & 2 == bits & 2) by (bit_vector);
    assert((bits & !8u8) & 4 == bits & 4) by (bit_vector);
    assert((bits & !8u8) & 8 == 0) by (bit_vector);
}

/// Client bits are binary: 1 shift, 2 alt, 4 ctrl, 8 meta.
pub proof fn modifiers_are_binary(bits: u8)
    ensures
        modifiers(bits).shift <==> bits as nat % 2 == 1,
        modifiers(bits).alt <==> (bits as nat / 2) % 2 == 1,
        modifiers(bits).ctrl <==> (bits as nat / 4) % 2 == 1,
        modifiers(bits).meta <==> (bits as nat / 8) % 2 == 1,
{
    assert((bits & 1 != 0) == (bits % 2 == 1)) by (bit_vector);
    assert((bits & 2 != 0) == ((bits / 2) % 2 == 1)) by (bit_vector);
    assert((bits & 4 != 0) == ((bits / 4) % 2 == 1)) by (bit_vector);
    assert((bits & 8 != 0) == ((bits / 8) % 2 == 1)) by (bit_vector);
}

/// The text of a sequence between its introducer and its final character.
pub open spec fn parameters(s: Seq<char>) -> Seq<char> {
    s.subrange(2, s.len() - 1)
}

/// The first parameter of a sequence.
pub open spec fn first_parameter(s: Seq<char>) -> Seq<char> {
    markup::to_index(parameters(s), markup::first_index(parameters(s), ';'))
}

/// The second parameter of a sequence.
pub open spec fn second_parameter(s: Seq<char>) -> Seq<char> {
    markup::from_index(parameters(s), markup::first_index(parameters(s), ';') + 1)
}

proof fn csi_reads_back(first: nat, second: nat, last: char)
    ensures
        ({
            let s = csi(first, second, last);
            &&& s.len() > 3 && s[0] == '\u{1b}' && s[1] == '[' && s.last() == last
            &&& first_parameter(s) == text::decimal(first)
            &&& second_parameter(s) == text::decimal(second)
        }),
{
    let s = csi(first, second, last);
    let a = text::decimal(first);
    let b = text::decimal(second);
    text::decimal_reads_back(first);
    text::decimal_reads_back(second);
    text::numerals_lack(first as int, ';');
    let p = parameters(s);
    assert(p =~= a + (seq![';'] + b));
    markup::first_index_after(a, seq![';'] + b, ';');
    assert(p.take(a.len() as int) =~= a);
    assert(p.skip(a.len() as int + 1) =~= b);
}

/// The second parameter of a modified key, read as a number, is one more than
/// the modifier bits: less one it is odd exactly if shift is held, and so on
/// for alt, ctrl and meta. Both parameters are plain numerals.
pub proof fn second_parameter_tells_the_modifiers(key: KeyCode, bits: u8)
    ensures
        modified_key(key, bits) matches Some(s) ==> {
            let held = (text::number(second_parameter(s)) - 1) as nat;
            &&& s[0] == '\u{1b}' && s[1] == '['
            &&& text::all_digits(first_parameter(s)) && first_parameter(s).len() > 0
            &&& text::all_digits(second_parameter(s)) && second_parameter(s).len() > 0
            &&& text::number(second_parameter(s)) - 1 == bits
            &&& modifiers(bits).shift <==> held % 2 == 1
            &&& modifiers(bits).alt <==> (held / 2) % 2 == 1
            &&& modifiers(bits).ctrl <==> (held / 4) % 2 == 1
            &&& modifiers(bits).meta <==> (held / 8) % 2 == 1
        },
{
    modifiers_are_binary(bits);
    if let Some((first, last)) = csi_form(key) {
        csi_reads_back(first, 1 + bits as nat, last);
        text::decimal_reads_back(first);
        text::decimal_reads_back(1 + bits as nat);
    }
}

/// Modifiers change the second parameter and nothing else, and which keys
/// have a sequence does not depend on them: the cursor and editing keys and
/// F1 to F12 have one.
pub proof fn modifiers_touch_one_parameter(key: KeyCode, a: u8, b: u8)
    ensures
        modified_key(key, a) is Some <==> match key {
            KeyCode::UpArrow | KeyCode::DownArrow | KeyCode::LeftArrow | KeyCode::RightArrow => true,
            KeyCode::Home | KeyCode::End | KeyCode::Insert | KeyCode::Delete => true,
            KeyCode::PageUp | KeyCode::PageDown => true,
            KeyCode::Function(n) => 1 <= n <= 12,
            _ => false,
        },
        modified_key(key, a) matches Some(s) ==> (modified_key(key, b) matches Some(t)
            ==> first_parameter(s) == first_parameter(t) && s.last() == t.last()),
{
    if let Some((first, last)) = csi_form(key) {
        csi_reads_back(first, 1 + a as nat, last);
        csi_reads_back(first, 1 + b as nat, last);
    }
}

/// The xterm codes: letters for the cursor keys and F1 to F4, numbers with a
/// tilde for the others.
pub proof fn sequences_follow_xterm(key: KeyCode, bits: u8)
    ensures
        modified_key(key, bits) matches Some(s) ==> match key {
                KeyCode::UpArrow => s.last() == 'A' && text::number(first_parameter(s)) == 1,
                KeyCode::DownArrow => s.last() == 'B' && text::number(first_parameter(s)) == 1,
                KeyCode::RightArrow => s.last() == 'C' && text::number(first_parameter(s)) == 1,
                KeyCode::LeftArrow => s.last() == 'D' && text::number(first_parameter(s)) == 1,
                KeyCode::End => s.last() == 'F' && text::number(first_parameter(s)) == 1,
                KeyCode::Home => s.last() == 'H' && text::number(first_parameter(s)) == 1,
                KeyCode::Insert => s.last() == '~' && text::number(first_parameter(s)) == 2,
                KeyCode::Delete => s.last() == '~' && text::number(first_parameter(s)) == 3,
                KeyCode::PageUp => s.last() == '~' && text::number(first_parameter(s)) == 5,
                KeyCode::PageDown => s.last() == '~' && text::number(first_parameter(s)) == 6,
                KeyCode::Function(n) => if n <= 4 {
                    text::number(first_parameter(s)) == 1 && s.last() == seq!['P', 'Q', 'R', 'S'][n
                        - 1]
                } else {
                    s.last() == '~' && text::number(first_parameter(s)) == seq![
                        15int,
                        17,
                        18,
                        19,
                        20,
                        21,
                        23,
                        24,
                    ][n - 5]
                },
                _ => false,
            },
{
    if let Some((first, last)) = csi_form(key) {
        csi_reads_back(first, 1 + bits as nat, last);
        text::decimal_reads_back(first);
    }
}

/// A name of the editing and navigation cluster gives its own key, and no two
/// names of any length but one share such a key.
pub proof fn cluster_names_are_their_own(a: Seq<char>, b: Seq<char>)
    ensures
        key_named("ArrowUp"@) == Some(KeyCode::UpArrow),
        key_named("ArrowDown"@) == Some(KeyCode::DownArrow),
        key_named("ArrowLeft"@) == Some(KeyCode::LeftArrow),
        key_named("ArrowRight"@) == Some(KeyCode::RightArrow),
        key_named("Home"@) == Some(KeyCode::Home),
        key_named("End"@) == Some(KeyCode::End),
        key_named("PageUp"@) == Some(KeyCode::PageUp),
        key_named("PageDown"@) == Some(KeyCode::PageDown),
        key_named("Insert"@) == Some(KeyCode::Insert),
        key_named("Delete"@) == Some(KeyCode::Delete),
        key_named("Enter"@) == Some(KeyCode::Enter),
        key_named("Tab"@) == Some(KeyCode::Tab),
        key_named("Backspace"@) == Some(KeyCode::Backspace),
        key_named("Escape"@) == Some(KeyCode::Escape),
        key_named(a) is Some && key_named(a) == key_named(b) && !(key_named(
            a,
        )->0 is Function) ==> a == b,
{
    reveal_strlit("ArrowUp");
    reveal_strlit("ArrowDown");
    reveal_strlit("ArrowLeft");
    reveal_strlit("ArrowRight");
    reveal_strlit("Home");
    reveal_strlit("End");
    reveal_strlit("PageUp");
    reveal_strlit("PageDown");
    reveal_strlit("Insert");
    reveal_strlit("Delete");
    reveal_strlit("Enter");
    reveal_strlit("Tab");
    reveal_strlit("Backspace");
    reveal_strlit("Escape");
    assert("ArrowUp"@[5] == 'U' && "ArrowDown"@[5] == 'D' && "ArrowLeft"@[5] == 'L'
        && "ArrowRight"@[5] == 'R');
    assert("Home"@[0] == 'H' && "End"@[0] == 'E' && "Insert"@[0] == 'I' && "Delete"@[0] == 'D');
    assert("End"@[1] == 'n' && "Enter"@[1] == 'n' && "Escape"@[1] == 's');
    assert("Enter"@[0] == 'E' && "Escape"@[0] == 'E' && "Tab"@[0] == 'T' && "Backspace"@[0] == 'B');
    assert("PageUp"@[0] == 'P' && "PageDown"@[0] == 'P' && "ArrowUp"@[0] == 'A' && "ArrowDown"@[0]
        == 'A' && "ArrowLeft"@[0] == 'A' && "ArrowRight"@[0] == 'A');
    if key_named(a) is Some && key_named(a) == key_named(b) {
        if a.len() == 1 {
            assert(b.len() == 1);
            assert(a =~= b);
        }
    }
}

/// A function key is named by an `F`, perhaps a plus sign, and digits whose
/// number is that of the key.
pub proof fn function_names_are_numerals(name: Seq<char>, n: u8)
    ensures
        key_named(name) == Some(KeyCode::Function(n)) <==> {
            &&& name.len() >= 2 && name[0] == 'F'
            &&& 1 <= n <= 24
            &&& exists|d: Seq<char>| #[trigger]
                text::all_digits(d) && d.len() > 0 && text::number(d) == n && (name == seq!['F'] + d
                    || name == seq!['F', '+'] + d)
        },
{
    reveal_strlit("ArrowUp");
    reveal_strlit("ArrowDown");
    reveal_strlit("ArrowLeft");
    reveal_strlit("ArrowRight");
    reveal_strlit("Home");
    reveal_strlit("End");
    reveal_strlit("PageUp");
    reveal_strlit("PageDown");
    reveal_strlit("Insert");
    reveal_strlit("Delete");
    reveal_strlit("Enter");
    reveal_strlit("Tab");
    reveal_strlit("Backspace");
    reveal_strlit("Escape");
    if name.len() >= 2 && name[0] == 'F' {
        assert(cluster_key(name) is None);
        let own = after_sign(name.skip(1));
        if key_named(name) == Some(KeyCode::Function(n)) {
            assert(text::all_digits(own));
            if name[1] == '+' {
                assert(name =~= seq!['F', '+'] + own);
            } else {
                assert(name =~= seq!['F'] + own);
            }
        }
        if exists|d: Seq<char>| #[trigger]
            text::all_digits(d) && d.len() > 0 && text::number(d) == n && (name == seq!['F'] + d
                || name == seq!['F', '+'] + d) {
            let d = choose|d: Seq<char>| #[trigger]
                text::all_digits(d) && d.len() > 0 && text::number(d) == n && (name == seq!['F'] + d
                    || name == seq!['F', '+'] + d);
            if name == seq!['F'] + d {
                assert(text::is_digit(d[0]));
                assert(name.skip(1) =~= d);
            } else {
                assert(name.skip(1) =~= seq!['+'] + d);
                assert(name.skip(1).skip(1) =~= d);
            }
        }
    }
}

} // verus!
