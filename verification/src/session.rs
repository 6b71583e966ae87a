//! The session around the terminal: the child process, the reader of its
//! output, and the ways a session ends.
use crate::text;
use vstd::prelude::*;

verus! {

/// Which emulation engine this build carries; exported to the child so a
/// session can identify its backend.
pub const ENGINE: &'static str = "wezterm-term";

// --- the child process -------------------------------------------------------

/// The command to run: the one given, else the shell of the environment, else
/// nu.
pub fn child_command(cmd: Vec<String>, shell: Option<String>) -> (res: Vec<String>)
    ensures
        cmd@.len() > 0 ==> res@ == cmd@,
        cmd@.len() == 0 ==> res@.len() == 1 && res@[0]@ == (match shell {
            Some(s) => s@,
            None => "nu"@,
        }),
{
    if cmd.len() > 0 {
        return cmd;
    }
    let mut res: Vec<String> = Vec::new();
    match shell {
        Some(s) => res.push(s),
        None => {
            let mut nu = String::new();
            nu.push_str("nu");
            assert(nu@ =~= "nu"@);
            res.push(nu);
        },
    }
    res
}

/// What is set in the child's environment over what it inherits.
pub fn child_environment() -> (res: Vec<(&'static str, &'static str)>)
    ensures
        res@.len() == 3,
        res@[0].0@ == "TERM"@ && res@[0].1@ == "xterm-256color"@,
        res@[1].0@ == "COLORTERM"@ && res@[1].1@ == "truecolor"@,
        res@[2].0@ == "PTYZZZ_ENGINE"@ && res@[2].1@ == ENGINE@,
{
    let mut res: Vec<(&'static str, &'static str)> = Vec::new();
    res.push(("TERM", "xterm-256color"));
    res.push(("COLORTERM", "truecolor"));
    res.push(("PTYZZZ_ENGINE", ENGINE));
    res
}

/// The code that the session ends with: the child's, or -1 where it could not
/// be had.
pub fn exit_code(status: Option<u32>) -> (res: i64)
    ensures
        res == (match status {
            Some(code) => code as int,
            None => -1,
        }),
{
    match status {
        Some(code) => code as i64,
        None => -1,
    }
}

// --- dying with the parent ---------------------------------------------------

/// The arguments of a `prctl` call.
#[derive(Clone, Copy, Debug, PartialEq, Eq, Structural)]
pub struct Prctl {
    pub option: i32,
    pub arg2: u64,
    pub arg3: u64,
    pub arg4: u64,
    pub arg5: u64,
}

/// `PR_SET_PDEATHSIG`: ask for a signal when the parent dies.
pub const PR_SET_PDEATHSIG: i32 = 1;

pub const SIGTERM: u64 = 15;

/// The call that arms the parent-death signal. It fires when the spawning
/// thread dies, which for a supervisor (a service's run thread) is exactly
/// when the session should go too.
pub fn arm_pdeathsig() -> (res: Prctl)
    ensures
        res == (Prctl { option: PR_SET_PDEATHSIG, arg2: SIGTERM, arg3: 0, arg4: 0, arg5: 0 }),
{
    Prctl { option: PR_SET_PDEATHSIG, arg2: SIGTERM, arg3: 0, arg4: 0, arg5: 0 }
}

/// Whether the parent died before the signal was armed: the process has been
/// handed to init, and has to go at once.
pub fn orphaned(parent: i32) -> (res: bool)
    ensures
        res == (parent == 1),
{
    parent == 1
}

/// Whether the end of the input kills the child: the supervisor that fed the
/// commands is gone, unless the caller opted out for finite piped scripts.
pub fn kills_on_eof(policy: &str) -> (res: bool)
    ensures
        res == (policy@ == "exit"@),
{
    let cs = text::chars_of(policy);
    text::same_text(&cs, "exit")
}

// --- the reader --------------------------------------------------------------

/// The outcome of one read of the pty.
#[derive(Clone, Copy, Debug, PartialEq, Eq, Structural)]
pub enum Read {
    Bytes(usize),
    Interrupted,
    Failed,
}

/// What the reader does next: feed that many bytes to the terminal (and to
/// the record, where there is one), read again, or end.
#[derive(Clone, Copy, Debug, PartialEq, Eq, Structural)]
pub enum ReaderStep {
    Feed(usize),
    Again,
    End,
}

/// What follows a read. No bytes is the end of the output.
pub fn after_read(read: Read) -> (res: ReaderStep)
    ensures
        res == (match read {
            Read::Bytes(n) => if n == 0 {
                ReaderStep::End
            } else {
                ReaderStep::Feed(n)
            },
            Read::Interrupted => ReaderStep::Again,
            Read::Failed => ReaderStep::End,
        }),
{
    match read {
        Read::Bytes(n) => if n == 0 {
            ReaderStep::End
        } else {
            ReaderStep::Feed(n)
        },
        Read::Interrupted => ReaderStep::Again,
        Read::Failed => ReaderStep::End,
    }
}

/// The generation after `g`. It wraps around at the end of its range.
pub open spec fn bumped(g: u64) -> u64 {
    if g == u64::MAX {
        0
    } else {
        (g + 1) as u64
    }
}

/// Marks the terminal as touched: the generation moves on.
pub fn bump(generation: &mut u64)
    ensures
        *final(generation) == bumped(*old(generation)),
        *final(generation) as int == (*old(generation) + 1) % 0x1_0000_0000_0000_0000,
{
    *generation = generation.wrapping_add(1);
}

/// A bump always shows: the generation is never the one from before.
pub proof fn bump_always_shows(g: u64)
    ensures
        bumped(g) != g,
{
}

/// The generation counts the touches, modulo the range of 64 bits.
pub proof fn generation_counts_touches(g: u64)
    ensures
        bumped(g) as int == (g + 1) % 0x1_0000_0000_0000_0000,
{
}

} // verus!
