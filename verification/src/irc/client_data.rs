//! What a connection knows of its user: the nostr secret key given as the
//! IRC password and the public key derived from it.
use vstd::prelude::*;
use crate::outside::{public_key_from_secret, public_key_of_secret};

verus! {

/// A nostr key pair: the secret key as the user wrote it and the public key
/// (lowercase hexadecimal) that it yields.
pub struct Identity {
    pub secret_key: String,
    pub public_key: String,
}

impl Clone for Identity {
    fn clone(&self) -> (r: Self)
        ensures
            r == *self,
    {
        Identity { secret_key: self.secret_key.clone(), public_key: self.public_key.clone() }
    }
}

/// The keys of one IRC connection, set by its `PASS` command.
pub struct IRCClientData {
    pub private_key: Option<String>,
    pub public_key: Option<String>,
    pub identity: Option<Identity>,
}

/// A copy of an optional string.
pub fn clone_option_string(s: &Option<String>) -> (r: Option<String>)
    ensures
        r == *s,
{
    match s {
        Some(v) => Some(v.clone()),
        None => None,
    }
}

impl IRCClientData {
    /// No keys yet.
    pub fn new() -> (d: Self)
        ensures
            d.private_key is None,
            d.public_key is None,
            d.identity is None,
    {
        IRCClientData { private_key: None, public_key: None, identity: None }
    }

    pub fn get_public_key(&self) -> (k: Option<String>)
        ensures
            k == self.public_key,
    {
        clone_option_string(&self.public_key)
    }

    pub fn get_private_key(&self) -> (k: Option<String>)
        ensures
            k == self.private_key,
    {
        clone_option_string(&self.private_key)
    }

    /// Takes `private_key` as the user's secret key; the public key is the
    /// one nostr derives from it.
    pub fn set_private_key(&mut self, private_key: String)
        requires
            public_key_of_secret(private_key@) is Some,
        ensures
            final(self).private_key == Some(private_key),
            final(self).public_key matches Some(k) && public_key_of_secret(private_key@) == Some(
                k@,
            ),
            final(self).identity == Some(
                Identity { secret_key: private_key, public_key: final(self).public_key.unwrap() },
            ),
    {
        let public_key = match public_key_from_secret(private_key.as_str()) {
            Some(k) => k,
            None => {
                proof {
                    assert(false);
                }
                String::new()
            },
        };
        self.public_key = Some(public_key.clone());
        self.private_key = Some(private_key.clone());
        self.identity = Some(Identity { secret_key: private_key, public_key });
    }

    /// [`IRCClientData::set_private_key`] where nostr accepts the key;
    /// otherwise nothing changes and the result is `false`.
    pub fn try_set_private_key(&mut self, private_key: String) -> (ok: bool)
        ensures
            ok == (public_key_of_secret(private_key@) is Some),
            ok ==> {
                &&& final(self).private_key == Some(private_key)
                &&& final(self).public_key matches Some(k) && public_key_of_secret(private_key@)
                    == Some(k@)
                &&& final(self).identity == Some(
                    Identity {
                        secret_key: private_key,
                        public_key: final(self).public_key.unwrap(),
                    },
                )
            },
            !ok ==> *final(self) == *old(self),
    {
        match public_key_from_secret(private_key.as_str()) {
            Some(_) => {
                self.set_private_key(private_key);
                true
            },
            None => false,
        }
    }
}

} // verus!
