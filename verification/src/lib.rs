//! A terminal as a unix pipe: keystrokes in as JSONL, the screen out as
//! rendered HTML. This is the verified core: rendering, frame production,
//! input, pacing and the wire format, over plain values.

pub mod text;
pub mod style;
pub mod links;
pub mod row;
pub mod cache;
pub mod emit;
pub mod page;
pub mod vt;
pub mod keys;
pub mod command;
pub mod session;
pub mod pacing;
pub mod wire;
pub mod json;
pub mod markup;
pub mod shown;
pub mod client;
