use vstd::prelude::*;
use std::collections::HashMap;
use vstd::std_specs::iter::IteratorSpec;

use crate::connection_id::{ConnectionId, id_values, is_v4_value};
use crate::error::{WebsocKitError, WebsocKitResult};

verus! {

broadcast use vstd::std_specs::hash::group_hash_axioms;

/// The open connections, each with the sender that writes to it.
#[verifier::reject_recursive_types(S)]
pub struct ConnectionTable<S> {
    senders: HashMap<u128, S>,
}

impl<S> View for ConnectionTable<S> {
    type V = Map<u128, S>;

    closed spec fn view(&self) -> Map<u128, S> {
        self.senders@
    }
}

/// The next step of sending one payload to a list of connections.
pub enum DeliveryStep {
    /// Send the payload to this connection, which is open.
    Deliver(ConnectionId),
    /// Stop sending, with this result.
    Finish(WebsocKitResult<()>),
}

/// How far sending one payload has come: how many targets were dealt with,
/// and whether the last send failed.
pub struct DeliveryProgress {
    pub sent: usize,
    pub last_failed: bool,
}

impl DeliveryProgress {
    /// Nothing sent yet.
    pub fn new() -> (progress: DeliveryProgress)
        ensures
            progress.sent == 0,
            !progress.last_failed,
    {
        DeliveryProgress { sent: 0, last_failed: false }
    }

    /// Records one more send to a target, and whether it went through.
    pub fn record_send(&mut self, succeeded: bool)
        requires
            old(self).sent < usize::MAX,
        ensures
            final(self).sent == old(self).sent + 1,
            final(self).last_failed == !succeeded,
    {
        self.sent = self.sent + 1;
        self.last_failed = !succeeded;
    }
}

impl<S> ConnectionTable<S> {
    pub fn new() -> (table: ConnectionTable<S>)
        ensures
            table@ == Map::<u128, S>::empty(),
    {
        ConnectionTable { senders: HashMap::new() }
    }

    /// Stores `sender` under the identifier with the random version-4 UUID
    /// value `value`, and returns that identifier. Should the identifier
    /// already be in use, its old sender is replaced.
    pub fn register_with(&mut self, value: u128, sender: S) -> (id: ConnectionId)
        requires
            is_v4_value(value),
        ensures
            id@ == value,
            final(self)@ == old(self)@.insert(value, sender),
    {
        let id = ConnectionId::from_u128(value);
        self.senders.insert(value, sender);
        id
    }

    /// Forgets connection `id`, handing back its sender if it was open.
    pub fn discard(&mut self, id: ConnectionId) -> (sender: Option<S>)
        ensures
            final(self)@ == old(self)@.remove(id@),
            match sender {
                Some(s) => old(self)@.contains_key(id@) && s == old(self)@[id@],
                None => !old(self)@.contains_key(id@),
            },
    {
        self.senders.remove(&id.as_u128())
    }

    /// Closes the books on connection `id` once listening to it is over: the
    /// connection is forgotten either way. When listening ended normally, its
    /// sender, if it was still stored, is handed back; when it ended with an
    /// error, that error is handed back.
    pub fn finish_connection(&mut self, id: ConnectionId, listened: WebsocKitResult<()>) -> (finished:
        WebsocKitResult<Option<S>>)
        ensures
            final(self)@ == old(self)@.remove(id@),
            match listened {
                Ok(()) => match finished {
                    Ok(Some(s)) => old(self)@.contains_key(id@) && s == old(self)@[id@],
                    Ok(None) => !old(self)@.contains_key(id@),
                    Err(_) => false,
                },
                Err(error) => finished == Err::<Option<S>, WebsocKitError>(error),
            },
    {
        let sender = self.discard(id);
        match listened {
            Ok(()) => Ok(sender),
            Err(error) => Err(error),
        }
    }

    pub fn contains(&self, id: ConnectionId) -> (open: bool)
        ensures
            open == self@.contains_key(id@),
    {
        self.senders.contains_key(&id.as_u128())
    }

    /// The sender of connection `id`, if it is open.
    pub fn get(&self, id: ConnectionId) -> (sender: Option<&S>)
        ensures
            match sender {
                Some(s) => self@.contains_key(id@) && *s == self@[id@],
                None => !self@.contains_key(id@),
            },
    {
        self.senders.get(&id.as_u128())
    }

    /// The identifiers of all open connections, each once, in no set order.
    pub fn connection_ids(&self) -> (ids: Vec<ConnectionId>)
        ensures
            id_values(ids@).to_set() == self@.dom(),
            id_values(ids@).no_duplicates(),
    {
        let m = &self.senders;
        let mut ids: Vec<ConnectionId> = Vec::new();
        let ghost s = vstd::std_specs::hash::spec_hash_map_iter(m).remaining();
        for (key, sender) in it: m.iter()
            invariant
                it.seq() == s,
                s.no_duplicates(),
                forall|a: int| 0 <= a < s.len() ==> m@.contains_key(*s[a].0) && m@[*s[a].0] == *s[a].1,
                forall|j: int| 0 <= j < ids@.len() ==> m@.contains_key(#[trigger] ids@[j]@),
                forall|j: int, i: int|
                    0 <= j < ids@.len() && it.index() <= i < s.len() ==> (#[trigger] ids@[j])@ != *#[trigger] s[i].0,
                forall|i: int| 0 <= i < it.index() ==> id_values(ids@).contains(*s[i].0),
                id_values(ids@).no_duplicates(),
        {
            let ghost idx: int = it.index();
            assert(s[idx] == (key, sender));
            assert forall|b: int| 0 <= b < s.len() && b != idx implies *s[b].0 != *key by {
                if *s[b].0 == *key {
                    assert(s[b] == s[idx]);
                }
            }
            let ghost old_ids = ids@;
            ids.push(ConnectionId::from_u128(*key));
            proof {
                assert(id_values(ids@) == id_values(old_ids).push(*key));
                assert forall|i: int| 0 <= i < it.index() + 1 implies id_values(ids@).contains(*s[i].0) by {
                    if i < idx {
                        assert(id_values(old_ids).contains(*s[i].0));
                        let j: int = choose|j: int| 0 <= j < id_values(old_ids).len() && id_values(old_ids)[j] == *s[i].0;
                        assert(id_values(ids@)[j] == *s[i].0);
                    } else {
                        assert(id_values(ids@)[ids@.len() - 1] == *s[i].0);
                    }
                }
            }
        }
        proof {
            assert forall|id: u128| m@.contains_key(id) implies id_values(ids@).contains(id) by {
                assert(s.contains((&id, &m@[id])));
            }
            assert forall|id: u128| id_values(ids@).contains(id) implies m@.contains_key(id) by {
                let j: int = choose|j: int| 0 <= j < id_values(ids@).len() && id_values(ids@)[j] == id;
                assert(m@.contains_key(ids@[j]@));
            }
            assert(id_values(ids@).to_set() =~= self@.dom());
        }
        ids
    }

    /// The next step of sending a payload to `targets` in order, when the
    /// first `sent` of them are done and `last_failed` tells whether the last
    /// send failed. A failed send ends the round without an error; a target
    /// that is not open ends it with `ConnectionDoesNotExist`; after the last
    /// target, the round ends well.
    pub fn next_delivery(&self, targets: &Vec<ConnectionId>, sent: usize, last_failed: bool) -> (step: DeliveryStep)
        ensures
            (last_failed || sent >= targets@.len()) ==> step == DeliveryStep::Finish(Ok(())),
            (!last_failed && sent < targets@.len() && !self@.contains_key(targets@[sent as int]@)) ==> step
                == DeliveryStep::Finish(Err(WebsocKitError::ConnectionDoesNotExist(targets@[sent as int]))),
            (!last_failed && sent < targets@.len() && self@.contains_key(targets@[sent as int]@)) ==> step
                == DeliveryStep::Deliver(targets@[sent as int]),
    {
        if last_failed || sent >= targets.len() {
            DeliveryStep::Finish(Ok(()))
        } else {
            let target = targets[sent];
            if self.contains(target) {
                DeliveryStep::Deliver(target)
            } else {
                DeliveryStep::Finish(Err(WebsocKitError::ConnectionDoesNotExist(target)))
            }
        }
    }
}

/// Registering a sender under an identifier that was not in use and then
/// discarding that identifier hands the same sender back and leaves the table
/// as it was.
pub proof fn law_register_then_discard<S>(table: ConnectionTable<S>, id: ConnectionId, sender: S)
    requires
        !table@.contains_key(id@),
    ensures
        table@.insert(id@, sender).contains_key(id@),
        table@.insert(id@, sender)[id@] == sender,
        table@.insert(id@, sender).remove(id@) == table@,
{
    assert(table@.insert(id@, sender).remove(id@) =~= table@);
}

} // verus!
