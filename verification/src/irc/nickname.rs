//! How a nostr user is called on IRC.
use vstd::prelude::*;

verus! {

/// A user's IRC name: the name from their nostr metadata once it is known,
/// their public key (lowercase hexadecimal) until then.
pub enum IRCNickname {
    Nick(String),
    Key(String),
}

impl IRCNickname {
    /// The name shown on IRC.
    pub open spec fn displayed_name(self) -> Seq<char> {
        match self {
            IRCNickname::Nick(s) => s@,
            IRCNickname::Key(k) => k@,
        }
    }

    pub fn get_displayed_name(&self) -> (name: String)
        ensures
            name@ == self.displayed_name(),
    {
        match self {
            IRCNickname::Nick(s) => s.clone(),
            IRCNickname::Key(k) => k.clone(),
        }
    }
}

} // verus!
