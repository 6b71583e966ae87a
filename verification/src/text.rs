//! Text building blocks: decimal and hexadecimal numerals, trimming,
//! substring search and ASCII case folding, all over sequences of characters.
use vstd::prelude::*;

verus! {

/// `String::push` appends one character.
pub assume_specification[ String::push ](s: &mut String, ch: char)
    ensures
        final(s)@ == old(s)@.push(ch),
;

/// `String::push_str` appends a whole string slice.
pub assume_specification[ String::push_str ](s: &mut String, string: &str)
    ensures
        final(s)@ == old(s)@ + string@,
;

/// The decimal digit of `d`, for `d` below ten.
pub open spec fn digit(d: nat) -> char {
    (48 + d) as char
}

/// The decimal numeral of `n`, without leading zeros.
pub open spec fn decimal(n: nat) -> Seq<char>
    decreases n,
{
    if n < 10 {
        seq![digit(n)]
    } else {
        decimal(n / 10).push(digit(n % 10))
    }
}

/// The decimal numeral of `n`, with a minus sign when it is negative.
pub open spec fn decimal_int(n: int) -> Seq<char> {
    if n < 0 {
        seq!['-'] + decimal((-n) as nat)
    } else {
        decimal(n as nat)
    }
}

/// Appends the decimal numeral of `n`.
pub fn push_decimal(out: &mut String, n: u64)
    ensures
        final(out)@ == old(out)@ + decimal(n as nat),
    decreases n,
{
    if n >= 10 {
        push_decimal(out, n / 10);
    }
    let d: u8 = (n % 10) as u8;
    out.push((48u8 + d) as char);
    assert(out@ =~= old(out)@ + decimal(n as nat));
}

/// Appends the decimal numeral of `n`, with a minus sign when it is negative.
pub fn push_decimal_int(out: &mut String, n: i64)
    ensures
        final(out)@ == old(out)@ + decimal_int(n as int),
{
    if n < 0 {
        out.push('-');
        let m: u64 = (-(n + 1)) as u64 + 1;
        push_decimal(out, m);
        assert(out@ =~= old(out)@ + decimal_int(n as int));
    } else {
        push_decimal(out, n as u64);
    }
}

/// The lower case hexadecimal digit of `d`, for `d` below sixteen.
pub open spec fn hex_digit(d: nat) -> char {
    if d < 10 {
        (48 + d) as char
    } else {
        (87 + d) as char
    }
}

/// A byte as two lower case hexadecimal digits.
pub open spec fn hex2(b: u8) -> Seq<char> {
    seq![hex_digit(b as nat / 16), hex_digit(b as nat % 16)]
}

fn hex_char(d: u8) -> (res: char)
    requires
        d < 16,
    ensures
        res == hex_digit(d as nat),
{
    if d < 10 {
        (48u8 + d) as char
    } else {
        (87u8 + d) as char
    }
}

/// Appends a byte as two lower case hexadecimal digits.
pub fn push_hex2(out: &mut String, b: u8)
    ensures
        final(out)@ == old(out)@ + hex2(b),
{
    out.push(hex_char(b / 16));
    out.push(hex_char(b % 16));
    assert(out@ =~= old(out)@ + hex2(b));
}

/// The characters of a string, in order.
pub fn chars_of(s: &str) -> (res: Vec<char>)
    ensures
        res@ == s@,
{
    let mut res: Vec<char> = Vec::new();
    for c in it: s.chars()
        invariant
            it.seq() == s@,
            res@ == s@.take(it.index()),
    {
        res.push(c);
        assert(res@ =~= s@.take(it.index() + 1));
    }
    assert(s@.take(s@.len() as int) =~= s@);
    res
}

/// Whether a string holds exactly the characters of `cs`.
pub fn same_text(cs: &Vec<char>, s: &str) -> (res: bool)
    ensures
        res == (cs@ == s@),
{
    let ds = chars_of(s);
    if cs.len() != ds.len() {
        return false;
    }
    for i in 0..cs.len()
        invariant
            ds@ == s@,
            cs@.len() == ds@.len(),
            forall|j: int| 0 <= j < i ==> cs@[j] == ds@[j],
    {
        if cs[i] != ds[i] {
            return false;
        }
    }
    assert(cs@ =~= s@);
    true
}

/// The characters with the Unicode `White_Space` property.
pub open spec fn is_white(c: char) -> bool {
    let n = c as u32;
    ||| 0x9 <= n <= 0xd
    ||| n == 0x20
    ||| n == 0x85
    ||| n == 0xa0
    ||| n == 0x1680
    ||| 0x2000 <= n <= 0x200a
    ||| n == 0x2028
    ||| n == 0x2029
    ||| n == 0x202f
    ||| n == 0x205f
    ||| n == 0x3000
}

/// `s` without the white space at its end.
pub open spec fn trim_end(s: Seq<char>) -> Seq<char>
    decreases s.len(),
{
    if s.len() > 0 && is_white(s.last()) {
        trim_end(s.drop_last())
    } else {
        s
    }
}

/// `s` without the white space at its start.
pub open spec fn trim_start(s: Seq<char>) -> Seq<char>
    decreases s.len(),
{
    if s.len() > 0 && is_white(s.first()) {
        trim_start(s.drop_first())
    } else {
        s
    }
}

/// `s` without the white space at either end.
pub open spec fn trim(s: Seq<char>) -> Seq<char> {
    trim_start(trim_end(s))
}

/// Whether `c` is white space.
pub fn is_white_space(c: char) -> (res: bool)
    ensures
        res == is_white(c),
{
    let n: u32 = c as u32;
    (0x9 <= n && n <= 0xd) || n == 0x20 || n == 0x85 || n == 0xa0 || n == 0x1680 || (0x2000 <= n
        && n <= 0x200a) || n == 0x2028 || n == 0x2029 || n == 0x202f || n == 0x205f || n == 0x3000
}

/// The bounds within which the trimmed text lies.
pub fn trim_bounds(cs: &Vec<char>) -> (res: (usize, usize))
    ensures
        res.0 <= res.1 <= cs@.len(),
        cs@.subrange(res.0 as int, res.1 as int) == trim(cs@),
{
    let mut hi: usize = cs.len();
    assert(cs@.take(hi as int) =~= cs@);
    while hi > 0 && is_white_space(cs[hi - 1])
        invariant
            hi <= cs@.len(),
            trim_end(cs@.take(hi as int)) == trim_end(cs@),
        decreases hi,
    {
        assert(cs@.take(hi as int).drop_last() =~= cs@.take(hi - 1));
        hi = hi - 1;
    }
    let ghost t = cs@.take(hi as int);
    assert(trim_end(cs@) == t);
    let mut lo: usize = 0;
    assert(t.skip(0) =~= t);
    while lo < hi && is_white_space(cs[lo])
        invariant
            lo <= hi <= cs@.len(),
            t == cs@.take(hi as int),
            trim_start(t.skip(lo as int)) == trim_start(t),
        decreases hi - lo,
    {
        assert(t.skip(lo as int).drop_first() =~= t.skip(lo + 1));
        lo = lo + 1;
    }
    assert(t.skip(lo as int) =~= cs@.subrange(lo as int, hi as int));
    (lo, hi)
}

proof fn trim_end_ends(s: Seq<char>)
    ensures
        trim_end(s).len() <= s.len(),
        trim_end(s) == s.take(trim_end(s).len() as int),
        trim_end(s).len() > 0 ==> !is_white(trim_end(s).last()),
    decreases s.len(),
{
    if s.len() > 0 && is_white(s.last()) {
        trim_end_ends(s.drop_last());
        let n = trim_end(s).len() as int;
        assert(s.drop_last().take(n) =~= s.take(n));
    } else {
        assert(s.take(s.len() as int) =~= s);
    }
}

proof fn trim_start_ends(s: Seq<char>)
    ensures
        trim_start(s).len() <= s.len(),
        trim_start(s) == s.skip(s.len() - trim_start(s).len()),
        trim_start(s).len() > 0 ==> !is_white(trim_start(s).first()),
    decreases s.len(),
{
    if s.len() > 0 && is_white(s.first()) {
        trim_start_ends(s.drop_first());
        let n = trim_start(s).len();
        assert(s.drop_first().skip(s.len() - 1 - n) =~= s.skip(s.len() - n));
    } else {
        assert(s.skip(0) =~= s);
    }
}

/// Trimmed text has no white space at either end, and trimming it again
/// changes nothing.
pub proof fn trim_is_final(s: Seq<char>)
    ensures
        trim(s).len() > 0 ==> !is_white(trim(s).first()) && !is_white(trim(s).last()),
        trim(trim(s)) == trim(s),
{
    let t = trim_end(s);
    trim_end_ends(s);
    trim_start_ends(t);
    let u = trim_start(t);
    if u.len() > 0 {
        assert(u.last() == t.last());
    }
    assert(trim_end(u) == u);
}

/// Whether `needle` stands in `s` at position `i`.
pub open spec fn found_at(s: Seq<char>, needle: Seq<char>, i: int) -> bool {
    0 <= i && i + needle.len() <= s.len() && s.subrange(i, i + needle.len()) == needle
}

/// Whether `needle` stands anywhere in `s`.
pub open spec fn contains_text(s: Seq<char>, needle: Seq<char>) -> bool {
    exists|i: int| found_at(s, needle, i)
}

fn stands_at(cs: &Vec<char>, needle: &Vec<char>, i: usize) -> (res: bool)
    requires
        i + needle@.len() <= cs@.len(),
    ensures
        res == found_at(cs@, needle@, i as int),
{
    let total: usize = cs.len();
    for j in 0..needle.len()
        invariant
            total == cs@.len(),
            i + needle@.len() <= total,
            forall|k: int| 0 <= k < j ==> cs@[i + k] == needle@[k],
    {
        if cs[i + j] != needle[j] {
            assert(cs@.subrange(i as int, i + needle@.len())[j as int] != needle@[j as int]);
            return false;
        }
    }
    assert(cs@.subrange(i as int, i + needle@.len()) =~= needle@);
    true
}

/// Whether `needle` stands anywhere in `s`.
pub fn has_text(s: &str, needle: &str) -> (res: bool)
    ensures
        res == contains_text(s@, needle@),
{
    let cs = chars_of(s);
    let ns = chars_of(needle);
    if ns.len() > cs.len() {
        return false;
    }
    let last: usize = cs.len() - ns.len();
    let mut i: usize = 0;
    while i <= last
        invariant
            cs@ == s@,
            ns@ == needle@,
            last == cs@.len() - ns@.len(),
            i <= last + 1,
            forall|k: int| 0 <= k < i ==> !found_at(s@, needle@, k),
        decreases last + 1 - i,
    {
        if stands_at(&cs, &ns, i) {
            return true;
        }
        if i == last {
            return false;
        }
        i = i + 1;
    }
    false
}

/// `c` with an ASCII capital turned into the small letter.
pub open spec fn ascii_lower(c: char) -> char {
    if 'A' <= c && c <= 'Z' {
        (c as u32 + 32) as char
    } else {
        c
    }
}

/// Whether `s` starts with `prefix` when ASCII case is ignored.
pub open spec fn starts_ignoring_case(s: Seq<char>, prefix: Seq<char>) -> bool {
    s.len() >= prefix.len() && forall|i: int|
        0 <= i < prefix.len() ==> ascii_lower(#[trigger] s[i]) == ascii_lower(prefix[i])
}

fn fold_ascii(c: char) -> (res: char)
    ensures
        res == ascii_lower(c),
{
    if 'A' <= c && c <= 'Z' {
        ((c as u8) + 32u8) as char
    } else {
        c
    }
}

/// Whether the part of `cs` from `lo` up to `hi` starts with `prefix` when
/// ASCII case is ignored.
pub fn has_prefix_ignoring_case(cs: &Vec<char>, lo: usize, hi: usize, prefix: &str) -> (res: bool)
    requires
        lo <= hi <= cs@.len(),
    ensures
        res == starts_ignoring_case(cs@.subrange(lo as int, hi as int), prefix@),
{
    let ps = chars_of(prefix);
    if hi - lo < ps.len() {
        return false;
    }
    let ghost part = cs@.subrange(lo as int, hi as int);
    for i in 0..ps.len()
        invariant
            lo <= hi <= cs@.len(),
            ps@ == prefix@,
            hi - lo >= ps@.len(),
            part == cs@.subrange(lo as int, hi as int),
            forall|k: int| 0 <= k < i ==> ascii_lower(#[trigger] part[k]) == ascii_lower(ps@[k]),
    {
        if fold_ascii(cs[lo + i]) != fold_ascii(ps[i]) {
            assert(ascii_lower(part[i as int]) != ascii_lower(prefix@[i as int]));
            return false;
        }
    }
    true
}

// --- reading numerals --------------------------------------------------------

/// Whether `c` is a decimal digit.
pub open spec fn is_digit(c: char) -> bool {
    '0' <= c && c <= '9'
}

/// Whether `s` is made of decimal digits alone.
pub open spec fn all_digits(s: Seq<char>) -> bool {
    forall|i: int| 0 <= i < s.len() ==> is_digit(#[trigger] s[i])
}

/// The number that decimal digits stand for.
pub open spec fn number(s: Seq<char>) -> nat
    decreases s.len(),
{
    if s.len() == 0 {
        0
    } else {
        number(s.drop_last()) * 10 + (s.last() as nat - 48) as nat
    }
}

/// The number that the digits of `cs` from `lo` on stand for, or `cap` where
/// it is not below `cap`; nothing where other characters are among them.
pub fn read_number(cs: &Vec<char>, lo: usize, cap: u32) -> (res: Option<u32>)
    requires
        lo <= cs@.len(),
        cap <= 1_000_000,
    ensures
        match res {
            Some(n) => all_digits(cs@.skip(lo as int)) && (if number(cs@.skip(lo as int)) < cap {
                n == number(cs@.skip(lo as int))
            } else {
                n == cap
            }),
            None => !all_digits(cs@.skip(lo as int)),
        },
{
    let ghost ds = cs@.skip(lo as int);
    let mut n: u32 = 0;
    let mut i: usize = lo;
    let total: usize = cs.len();
    while i < total
        invariant
            total == cs@.len(),
            lo <= i <= total,
            cap <= 1_000_000,
            ds == cs@.skip(lo as int),
            all_digits(ds.take(i - lo)),
            n <= cap,
            if number(ds.take(i - lo)) < cap {
                n == number(ds.take(i - lo))
            } else {
                n == cap
            },
        decreases total - i,
    {
        let c = cs[i];
        let ghost seen = ds.take(i - lo);
        let ghost next = ds.take(i + 1 - lo);
        assert(next.drop_last() =~= seen);
        assert(next.last() == c);
        if c < '0' || c > '9' {
            assert(ds[i - lo] == c);
            return None;
        }
        let d: u32 = (c as u32) - 48;
        let grown: u32 = n * 10 + d;
        n = if grown < cap {
            grown
        } else {
            cap
        };
        assert forall|k: int| 0 <= k < next.len() implies is_digit(#[trigger] next[k]) by {
            if k < seen.len() {
                assert(next[k] == seen[k]);
            }
        }
        i = i + 1;
    }
    assert(ds.take(total - lo) =~= ds);
    Some(n)
}

/// Reading a numeral gives back the number it was written for.
pub proof fn decimal_reads_back(n: nat)
    ensures
        all_digits(decimal(n)),
        decimal(n).len() > 0,
        number(decimal(n)) == n,
    decreases n,
{
    if n >= 10 {
        decimal_reads_back(n / 10);
        let head = decimal(n / 10);
        assert(decimal(n).drop_last() =~= head);
        assert forall|k: int| 0 <= k < decimal(n).len() implies is_digit(
            #[trigger] decimal(n)[k],
        ) by {
            if k < head.len() {
                assert(decimal(n)[k] == head[k]);
            }
        }
    } else {
        assert(decimal(n).drop_last() =~= seq![]);
        assert(number(seq![]) == 0);
    }
}

/// Different numbers have different numerals.
pub proof fn decimal_is_faithful(a: nat, b: nat)
    requires
        decimal(a) == decimal(b),
    ensures
        a == b,
{
    decimal_reads_back(a);
    decimal_reads_back(b);
}

// --- absent characters -------------------------------------------------------

/// Whether `c` is nowhere in `s`.
pub open spec fn lacks(s: Seq<char>, c: char) -> bool {
    forall|i: int| 0 <= i < s.len() ==> #[trigger] s[i] != c
}

/// What neither part holds, the whole does not hold.
pub proof fn lacks_join(a: Seq<char>, b: Seq<char>, c: char)
    requires
        lacks(a, c),
        lacks(b, c),
    ensures
        lacks(a + b, c),
{
    assert forall|i: int| 0 <= i < (a + b).len() implies #[trigger] (a + b)[i] != c by {
        if i < a.len() {
            assert((a + b)[i] == a[i]);
        } else {
            assert((a + b)[i] == b[i - a.len()]);
        }
    }
}

/// A numeral is digits and perhaps a sign.
pub proof fn numerals_lack(n: int, c: char)
    requires
        !is_digit(c),
        c != '-',
    ensures
        lacks(decimal_int(n), c),
        n >= 0 ==> lacks(decimal(n as nat), c),
{
    let m = if n < 0 {
        (-n) as nat
    } else {
        n as nat
    };
    decimal_reads_back(m);
    assert forall|i: int| 0 <= i < decimal(m).len() implies #[trigger] decimal(m)[i] != c by {
        assert(is_digit(decimal(m)[i]));
    }
    lacks_join(seq!['-'], decimal(m), c);
}

// --- laws of numerals and letters --------------------------------------------

/// The number that hexadecimal digits stand for.
pub open spec fn hex_number(s: Seq<char>) -> nat
    decreases s.len(),
{
    if s.len() == 0 {
        0
    } else {
        let c = s.last();
        hex_number(s.drop_last()) * 16 + (if '0' <= c && c <= '9' {
            c as nat - 48
        } else {
            c as nat - 87
        }) as nat
    }
}

/// Reading two hexadecimal digits gives back the byte they were written for.
pub proof fn hex_reads_back(b: u8)
    ensures
        hex2(b).len() == 2,
        hex_number(hex2(b)) == b,
        forall|i: int|
            0 <= i < 2 ==> is_digit(#[trigger] hex2(b)[i]) || ('a' <= hex2(b)[i] && hex2(b)[i]
                <= 'f'),
{
    let s = hex2(b);
    reveal_with_fuel(hex_number, 3);
    assert(s.drop_last().last() == s[0]);
    assert(s.drop_last().drop_last() =~= seq![]);
}

/// A numeral has no needless zero in front, and a sign exactly if the number
/// is negative.
pub proof fn numerals_are_plain(n: int)
    ensures
        n < 0 ==> decimal_int(n)[0] == '-' && decimal_int(n).skip(1) == decimal((-n) as nat),
        n >= 0 ==> decimal_int(n) == decimal(n as nat),
        n == 0 ==> decimal(n as nat) == seq!['0'],
        n > 0 ==> decimal(n as nat)[0] != '0',
    decreases (if n < 0 {
        0
    } else {
        n
    }),
{
    if n < 0 {
        assert(decimal_int(n).skip(1) =~= decimal((-n) as nat));
    } else if n >= 10 {
        numerals_are_plain(n / 10);
        decimal_reads_back((n / 10) as nat);
    }
}

/// Only white space goes when a text is trimmed: what is left stands in the
/// text with nothing but white space before and after it.
pub proof fn only_white_space_is_trimmed(s: Seq<char>) -> (lo: int)
    ensures
        0 <= lo <= s.len() - trim(s).len(),
        s.subrange(lo, lo + trim(s).len()) == trim(s),
        forall|i: int| 0 <= i < lo ==> is_white(#[trigger] s[i]),
        forall|i: int| lo + trim(s).len() <= i < s.len() ==> is_white(#[trigger] s[i]),
{
    let t = trim_end(s);
    trim_end_ends(s);
    trim_start_ends(t);
    trim_end_white(s);
    trim_start_white(t);
    let lo = t.len() - trim(s).len();
    assert(s.subrange(lo, lo + trim(s).len()) =~= trim(s));
    assert forall|i: int| 0 <= i < lo implies is_white(#[trigger] s[i]) by {
        assert(s[i] == t[i]);
    }
    lo
}

proof fn trim_end_white(s: Seq<char>)
    ensures
        forall|i: int| trim_end(s).len() <= i < s.len() ==> is_white(#[trigger] s[i]),
    decreases s.len(),
{
    if s.len() > 0 && is_white(s.last()) {
        trim_end_white(s.drop_last());
        assert forall|i: int| trim_end(s).len() <= i < s.len() implies is_white(
            #[trigger] s[i],
        ) by {
            if i < s.len() - 1 {
                assert(s[i] == s.drop_last()[i]);
            }
        }
    }
}

proof fn trim_start_white(s: Seq<char>)
    ensures
        forall|i: int| 0 <= i < s.len() - trim_start(s).len() ==> is_white(#[trigger] s[i]),
    decreases s.len(),
{
    if s.len() > 0 && is_white(s.first()) {
        trim_start_white(s.drop_first());
        assert forall|i: int| 0 <= i < s.len() - trim_start(s).len() implies is_white(
            #[trigger] s[i],
        ) by {
            if i > 0 {
                assert(s[i] == s.drop_first()[i - 1]);
            }
        }
    }
}

/// Folding case pairs the capitals with the small letters, and leaves every
/// other character alone.
pub proof fn letters_fold_in_pairs(c: char)
    ensures
        ({
            let capitals = "ABCDEFGHIJKLMNOPQRSTUVWXYZ"@;
            let small = "abcdefghijklmnopqrstuvwxyz"@;
            &&& capitals.len() == 26 && small.len() == 26
            &&& forall|i: int| 0 <= i < 26 ==> ascii_lower(#[trigger] capitals[i]) == small[i]
            &&& !capitals.contains(c) ==> ascii_lower(c) == c
        }),
{
    reveal_strlit("ABCDEFGHIJKLMNOPQRSTUVWXYZ");
    reveal_strlit("abcdefghijklmnopqrstuvwxyz");
    let capitals = "ABCDEFGHIJKLMNOPQRSTUVWXYZ"@;
    if 'A' <= c && c <= 'Z' {
        let i = c as int - 65;
        assert(capitals[i] == c);
    }
}

/// What counts as white space: the control characters from tab to carriage
/// return, the space, and the other white space of Unicode.
pub proof fn white_space_is_unicodes(c: char)
    ensures
        is_white(c) <==> seq![
            0x9int,
            0xa,
            0xb,
            0xc,
            0xd,
            0x20,
            0x85,
            0xa0,
            0x1680,
            0x2000,
            0x2001,
            0x2002,
            0x2003,
            0x2004,
            0x2005,
            0x2006,
            0x2007,
            0x2008,
            0x2009,
            0x200a,
            0x2028,
            0x2029,
            0x202f,
            0x205f,
            0x3000,
        ].contains(c as int),
{
    let all = seq![
        0x9int,
        0xa,
        0xb,
        0xc,
        0xd,
        0x20,
        0x85,
        0xa0,
        0x1680,
        0x2000,
        0x2001,
        0x2002,
        0x2003,
        0x2004,
        0x2005,
        0x2006,
        0x2007,
        0x2008,
        0x2009,
        0x200a,
        0x2028,
        0x2029,
        0x202f,
        0x205f,
        0x3000,
    ];
    let n = c as int;
    assert(all.len() == 25);
    assert(all[0] == 0x9 && all[1] == 0xa && all[2] == 0xb && all[3] == 0xc && all[4] == 0xd && all[5]
        == 0x20 && all[6] == 0x85 && all[7] == 0xa0 && all[8] == 0x1680 && all[9] == 0x2000
        && all[10] == 0x2001 && all[11] == 0x2002 && all[12] == 0x2003 && all[13] == 0x2004
        && all[14] == 0x2005 && all[15] == 0x2006 && all[16] == 0x2007 && all[17] == 0x2008
        && all[18] == 0x2009 && all[19] == 0x200a && all[20] == 0x2028 && all[21] == 0x2029
        && all[22] == 0x202f && all[23] == 0x205f && all[24] == 0x3000);
}

} // verus!
