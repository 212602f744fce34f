//! A short form of the error kinds, and messages that name a position.

use vstd::prelude::*;
use crate::text::{decimal, push_decimal};

verus! {

/// The three kinds that a position-only message can be about.
#[derive(Clone, Copy, Debug, PartialEq, Eq, Structural)]
pub enum BFParseError {
    /// A `[` that no `]` closes.
    BraNoClose,
    /// A `]` that no `[` opens.
    BraNoOpen,
    /// A cell value that left the range of a byte.
    CellValOvrfl,
}

/// The text of a message about position `pos`.
pub open spec fn msg_pos(msg: Seq<char>, pos: nat) -> Seq<char> {
    msg + " at pos "@ + decimal(pos)
}

/// `msg`, followed by the position it is about.
pub fn err_msg_pos(msg: &'static str, pos: usize) -> (text: String)
    ensures
        text@ == msg_pos(msg@, pos as nat),
{
    let mut text = String::from_str(msg);
    text.append(" at pos ");
    push_decimal(&mut text, pos);
    text
}

} // verus!
