//! The bounded-purpose message log shown in the game console.

use vstd::prelude::*;

verus! {

/// Messages logged for the player to read.
#[derive(Debug, Clone)]
pub struct GameLog {
    pub entries: Vec<String>,
}

impl GameLog {
    /// An empty log.
    pub fn new() -> (r: GameLog)
        ensures
            r.entries@ == Seq::<String>::empty(),
    {
        GameLog { entries: Vec::new() }
    }

    /// Append an entry to the game log.
    pub fn log(&mut self, msg: String)
        ensures
            final(self).entries@ == old(self).entries@.push(msg),
    {
        self.entries.push(msg);
    }
}

} // verus!
