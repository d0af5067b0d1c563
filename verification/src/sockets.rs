//! What to do with a message that arrives on the socket.

use crate::text::to_chars;
use vstd::prelude::*;

verus! {

/// What arrived on the socket.
pub enum Incoming {
    /// A message of text.
    Text(String),
    /// A message of another kind.
    Other,
    /// Nothing: receiving failed.
    Failed,
}

/// What is done about it.
#[derive(Clone, Copy, Debug, PartialEq, Eq, Structural)]
pub enum Reaction {
    /// The message is sent back as it came.
    Echo,
    /// The socket is left.
    Close,
}

/// The reaction to what arrived: a text that reads `serve` is sent back,
/// everything else ends the exchange.
pub open spec fn reaction_to(incoming: Incoming) -> Reaction {
    match incoming {
        Incoming::Text(text) => if text@ == "serve"@ {
            Reaction::Echo
        } else {
            Reaction::Close
        },
        _ => Reaction::Close,
    }
}

/// Whether two texts hold the same characters.
pub fn same_text(a: &str, b: &str) -> (same: bool)
    ensures
        same == (a@ == b@),
{
    let left = to_chars(a);
    let right = to_chars(b);
    if left.len() != right.len() {
        return false;
    }
    let mut i: usize = 0;
    while i < left.len()
        invariant
            i <= left.len(),
            left.len() == right.len(),
            left@ == a@,
            right@ == b@,
            forall|k: int| 0 <= k < i ==> left@[k] == right@[k],
        decreases left.len() - i,
    {
        if left[i] != right[i] {
            assert(a@[i as int] != b@[i as int]);
            return false;
        }
        i += 1;
    }
    assert(left@ =~= right@);
    true
}

/// Decides what to do with what arrived.
pub fn react(incoming: &Incoming) -> (reaction: Reaction)
    ensures
        reaction == reaction_to(*incoming),
{
    match incoming {
        Incoming::Text(text) => if same_text(text.as_str(), "serve") {
            Reaction::Echo
        } else {
            Reaction::Close
        },
        _ => Reaction::Close,
    }
}

} // verus!
