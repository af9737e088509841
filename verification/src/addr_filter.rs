//! Which of its own addresses a node announces: all of them, or only a whitelisted one.
use vstd::prelude::*;

use crate::graph::bytes_eq;

verus! {

/// The address that alone may be announced, by the bytes of its multiaddress, if one
/// was set.
pub struct Whitelist {
    whitelist: Option<Vec<u8>>,
}

impl Whitelist {
    /// The whitelisted address, if one was set.
    pub closed spec fn allowed(&self) -> Option<Seq<u8>> {
        match self.whitelist {
            Some(w) => Some(w@),
            None => None,
        }
    }

    /// No whitelist: every address is announced.
    pub fn new() -> (r: Whitelist)
        ensures
            r.allowed() is None,
    {
        Whitelist { whitelist: None }
    }

    /// Only `whitelist` is announced from now on.
    pub fn with_whitelist(&mut self, whitelist: Vec<u8>)
        ensures
            final(self).allowed() == Some(whitelist@),
    {
        self.whitelist = Some(whitelist);
    }

    /// Whether a new listen address or address candidate is passed on: always without a
    /// whitelist, else only the whitelisted address.
    pub fn admits(&self, addr: &Vec<u8>) -> (r: bool)
        ensures
            r == match self.allowed() {
                Some(w) => w == addr@,
                None => true,
            },
    {
        match &self.whitelist {
            Some(w) => bytes_eq(w, addr),
            None => true,
        }
    }
}

} // verus!
