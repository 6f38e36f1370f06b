//! The message this round builds up: the sender's identifier plus the bytes
//! emitted at each observable point, keyed by the path's textual form.

use vstd::prelude::*;

use crate::kv::AbsKey;
use crate::kv::kv_get;
use crate::kv::kv_map;
use crate::path::Path;
use crate::path::path_text;
use crate::valuetree::bytes_of;

verus! {

/// One round's outgoing values, keyed by the textual form of the path each
/// was written at.
#[derive(Debug)]
pub struct OutboundMessage<Id> {
    pub sender: Id,
    entries: Vec<(String, Vec<u8>)>,
}

impl<Id> View for OutboundMessage<Id> {
    type V = Map<Seq<char>, Seq<u8>>;

    closed spec fn view(&self) -> Map<Seq<char>, Seq<u8>> {
        bytes_of(kv_map(self.entries@))
    }
}

impl<Id> OutboundMessage<Id> {
    /// The sender this message names.
    pub closed spec fn sender_spec(&self) -> Id {
        self.sender
    }

    /// A message with no entry yet.
    pub fn empty(sender: Id) -> (r: Self)
        ensures
            r@ == Map::<Seq<char>, Seq<u8>>::empty(),
            r.sender_spec() == sender,
    {
        let r = OutboundMessage { sender, entries: Vec::new() };
        proof {
            assert(r@ =~= Map::<Seq<char>, Seq<u8>>::empty());
        }
        r
    }

    /// Writes the bytes under the path's textual form, replacing whatever
    /// the path held.
    pub fn append(&mut self, path: &Path, value: Vec<u8>)
        ensures
            final(self)@ == old(self)@.insert(path_text(path@), value@),
            final(self).sender_spec() == old(self).sender_spec(),
    {
        let ghost v0 = value@;
        let key = path.text();
        crate::kv::kv_set(&mut self.entries, key, value);
        proof {
            assert(self@ =~= old(self)@.insert(path_text(path@), v0));
        }
    }

    /// The bytes written at the path, if any.
    pub fn at(&self, path: &Path) -> (r: Option<&Vec<u8>>)
        ensures
            match r {
                Some(b) => self@.contains_key(path_text(path@)) && b@ == self@[path_text(path@)],
                None => !self@.contains_key(path_text(path@)),
            },
    {
        let key = path.text();
        kv_get(&self.entries, &key)
    }

    /// The bytes written at the path, if any.
    pub fn get(&self, path: &Path) -> (r: Option<&Vec<u8>>)
        ensures
            match r {
                Some(b) => self@.contains_key(path_text(path@)) && b@ == self@[path_text(path@)],
                None => !self@.contains_key(path_text(path@)),
            },
    {
        self.at(path)
    }

    /// The written entries, for the host to serialize at end of round.
    pub fn entries(&self) -> (r: &Vec<(String, Vec<u8>)>)
        ensures
            bytes_of(kv_map(r@)) == self@,
    {
        &self.entries
    }
}

/// What a round's evaluator exposes to the host: the message built during
/// the round.
pub trait Exportable<Id> {
    fn export(&self) -> OutboundMessage<Id>;
}

} // verus!
