//! Commands: what one line of input asks for.
use crate::keys;
use crate::keys::{encode_super_key, parse_key, parse_mods, KeyCode, KeyModifiers};
use crate::text;
use vstd::prelude::*;

verus! {

/// The bit of the meta key among the modifier bits.
pub const META: u8 = 8;

/// One command of the input.
#[derive(Debug)]
pub enum Cmd {
    /// raw bytes to the pty (composed IME text, tests, escape hatches)
    Input { b: String },
    /// a semantic key event; the emulator encodes it per its current modes
    /// (application cursor keys, modifyOtherKeys, kitty protocol, ...)
    Key { key: String, mods: u8 },
    /// pasted text; wrapped in bracketed-paste markers when the app enabled
    /// them
    Paste { s: String },
    /// a new size for pty and terminal
    Resize { cols: u16, rows: u16 },
}

/// What a command has to be answered with.
#[derive(Debug)]
pub enum Action {
    /// write the text to the pty and flush it
    Write(String),
    /// hand the key to the emulator, which encodes it
    KeyDown(KeyCode, KeyModifiers),
    /// hand the text to the emulator as a paste
    Paste(String),
    /// resize pty and terminal, and have the screen drawn
    Resize { cols: u16, rows: u16 },
    /// say on the error stream that the command makes no sense
    Complain(String),
}

/// Whether a line holds nothing but white space, and so no command.
pub fn is_blank(line: &str) -> (res: bool)
    ensures
        res == (text::trim(line@).len() == 0),
{
    let cs = text::chars_of(line);
    let (lo, hi) = text::trim_bounds(&cs);
    assert(cs@.subrange(lo as int, hi as int).len() == hi - lo);
    lo == hi
}

/// What is said of a line that is no command.
pub fn bad_command(line: &str) -> (res: String)
    ensures
        res@ == "ptyZZZ: bad command: "@ + line@,
{
    let mut out = String::new();
    out.push_str("ptyZZZ: bad command: ");
    out.push_str(line);
    assert(out@ =~= "ptyZZZ: bad command: "@ + line@);
    out
}

/// Whether a key event has a meaning: adding one to the modifier bits of a
/// known key that is held with meta stays within a byte.
pub open spec fn key_fits(key: Seq<char>, mods: u8) -> bool {
    mods < 255 || keys::key_named(key) is None
}

/// What a key event asks for. A known key held with meta is encoded here
/// where it has a CSI form, since the emulator's encoder drops that modifier;
/// every other known key is left to the emulator, without meta.
pub open spec fn key_answer(key: Seq<char>, mods: u8, action: Action) -> bool {
    match keys::key_named(key) {
        None => action matches Action::Complain(s) && s@ == "ptyZZZ: unknown key: "@ + key,
        Some(kc) => if mods & META == 0 {
            action == Action::KeyDown(kc, keys::modifiers(mods))
        } else {
            match keys::modified_key(kc, mods) {
                Some(seq) => action matches Action::Write(s) && s@ == seq,
                None => action == Action::KeyDown(
                    kc,
                    KeyModifiers { meta: false, ..keys::modifiers(mods) },
                ),
            }
        },
    }
}

/// Answers a key event.
pub fn answer_key(key: &str, mods: u8) -> (res: Action)
    requires
        key_fits(key@, mods),
    ensures
        key_answer(key@, mods, res),
{
    match parse_key(key) {
        Some(kc) => {
            if mods & META != 0 {
                match encode_super_key(&kc, mods) {
                    Some(s) => Action::Write(s),
                    None => {
                        proof {
                            keys::dropping_meta_keeps_the_rest(mods);
                        }
                        Action::KeyDown(kc, parse_mods(mods & !8u8))
                    },
                }
            } else {
                Action::KeyDown(kc, parse_mods(mods))
            }
        },
        None => {
            let mut out = String::new();
            out.push_str("ptyZZZ: unknown key: ");
            out.push_str(key);
            assert(out@ =~= "ptyZZZ: unknown key: "@ + key@);
            Action::Complain(out)
        },
    }
}

/// Answers a command.
pub fn answer(cmd: Cmd) -> (res: Action)
    requires
        cmd matches Cmd::Key { key, mods } ==> key_fits(key@, mods),
    ensures
        match cmd {
            Cmd::Input { b } => res == Action::Write(b),
            Cmd::Key { key, mods } => key_answer(key@, mods, res),
            Cmd::Paste { s } => res == Action::Paste(s),
            Cmd::Resize { cols, rows } => res == (Action::Resize { cols, rows }),
        },
{
    match cmd {
        Cmd::Input { b } => Action::Write(b),
        Cmd::Key { key, mods } => answer_key(key.as_str(), mods),
        Cmd::Paste { s } => Action::Paste(s),
        Cmd::Resize { cols, rows } => Action::Resize { cols, rows },
    }
}

/// Whether an answer asks for the screen to be drawn again by itself. All
/// others show only in what the shell sends back.
pub fn redraws(action: &Action) -> (res: bool)
    ensures
        res == (action is Resize),
{
    match action {
        Action::Resize { .. } => true,
        _ => false,
    }
}

/// The emulator is never handed a key with meta.
pub proof fn emulator_never_sees_meta(key: Seq<char>, mods: u8, action: Action)
    requires
        key_answer(key, mods, action),
    ensures
        action matches Action::KeyDown(_, m) ==> !m.meta,
{
    assert(mods & META == 0 ==> mods & 8 == 0);
}

/// A key event is complained about exactly if the key is unknown, whatever
/// the modifiers.
pub proof fn only_unknown_keys_are_refused(key: Seq<char>, mods: u8, action: Action)
    requires
        key_answer(key, mods, action),
    ensures
        action is Complain <==> keys::key_named(key) is None,
{
}

/// A known key goes where it is meant to go. Held with meta, a key that has a
/// sequence is written as it; any other key is handed to the emulator as it
/// is named, with exactly the shift, alt and ctrl that the bits say.
pub proof fn known_keys_arrive(key: Seq<char>, mods: u8, action: Action)
    requires
        key_answer(key, mods, action),
        keys::key_named(key) is Some,
    ensures
        ({
            let kc = keys::key_named(key)->0;
            let meta = (mods as nat / 8) % 2 == 1;
            let written = meta && keys::modified_key(kc, mods) is Some;
            &&& written <==> action is Write
            &&& !written <==> action is KeyDown
            &&& action matches Action::Write(s) ==> keys::modified_key(kc, mods) == Some(s@)
            &&& action matches Action::KeyDown(k, m) ==> {
                &&& k == kc
                &&& m.shift <==> mods as nat % 2 == 1
                &&& m.alt <==> (mods as nat / 2) % 2 == 1
                &&& m.ctrl <==> (mods as nat / 4) % 2 == 1
                &&& !m.meta
            }
        }),
{
    keys::modifiers_are_binary(mods);
    assert((mods & 8 != 0) == ((mods / 8) % 2 == 1)) by (bit_vector);
}

} // verus!
