//! Transport session state: the identity this client was assigned and the
//! last tick observed from the server, together with the per-bundle intake
//! step that maintains both and hands the remaining events onward.

use vstd::prelude::*;

use crate::protocol::{Clientbound, ClientId, ClientboundBundle, Tick};

verus! {

/// The identity carried by the first `AuthSuccess` event of a message
/// sequence, if any. Later `AuthSuccess` events are a protocol anomaly and
/// carry no weight.
pub open spec fn first_auth(msgs: Seq<Clientbound>) -> Option<ClientId>
    decreases msgs.len(),
{
    if msgs.len() == 0 {
        None
    } else {
        match msgs[0] {
            Clientbound::AuthSuccess(id) => Some(id),
            _ => first_auth(msgs.drop_first()),
        }
    }
}

/// The session identity after taking a message sequence in: an identity,
/// once assigned, never changes; an unassigned one takes the first
/// `AuthSuccess` on offer.
pub open spec fn id_after(id: Option<ClientId>, msgs: Seq<Clientbound>) -> Option<ClientId> {
    if id is Some {
        id
    } else {
        first_auth(msgs)
    }
}

/// The events a bundle hands on for reconciliation: everything but the
/// `AuthSuccess` events, which the session itself absorbs, in arrival order.
pub open spec fn forwarded(msgs: Seq<Clientbound>) -> Seq<Clientbound>
    decreases msgs.len(),
{
    if msgs.len() == 0 {
        Seq::empty()
    } else {
        let rest = forwarded(msgs.drop_last());
        match msgs.last() {
            Clientbound::AuthSuccess(_) => rest,
            m => rest.push(m),
        }
    }
}

/// Mutable state owned by the transport session. Invariant: `id` is set at
/// most once, transitioning from absent to present and never reverting.
pub struct Session {
    pub id: Option<ClientId>,
    pub tick: Tick,
}

impl Session {
    /// A fresh session: no identity assigned yet, no tick observed.
    pub fn new() -> (r: Session)
        ensures
            r.id is None,
            r.tick == Tick(0),
    {
        Session { id: None, tick: Tick(0) }
    }

    /// Take one received bundle in: the last-known tick moves to the
    /// bundle's tick unconditionally (even when the bundle is empty), the
    /// first `AuthSuccess` assigns the identity if none is held (later ones
    /// are ignored rather than trusted), and every other event is handed
    /// back, in order, for reconciliation.
    pub fn receive_bundle(&mut self, bundle: &ClientboundBundle) -> (events: Vec<Clientbound>)
        ensures
            final(self).tick == bundle.tick,
            final(self).id == id_after(old(self).id, bundle.messages@),
            events@ == forwarded(bundle.messages@),
            old(self).id is Some ==> final(self).id == old(self).id,
    {
        self.tick = bundle.tick;
        let mut events: Vec<Clientbound> = Vec::new();
        let ghost msgs = bundle.messages@;
        let mut i: usize = 0;
        proof {
            assert(msgs.skip(0) =~= msgs);
            assert(msgs.subrange(0, 0) =~= Seq::<Clientbound>::empty());
        }
        while i < bundle.messages.len()
            invariant
                i <= msgs.len(),
                msgs == bundle.messages@,
                events@ == forwarded(msgs.subrange(0, i as int)),
                id_after(old(self).id, msgs) == id_after(self.id, msgs.skip(i as int)),
                old(self).id is Some ==> self.id == old(self).id,
                self.tick == bundle.tick,
            decreases msgs.len() - i,
        {
            let message = bundle.messages[i];
            proof {
                assert(msgs.subrange(0, i + 1).drop_last() =~= msgs.subrange(0, i as int));
                assert(msgs.skip(i as int).drop_first() =~= msgs.skip(i + 1));
                assert(msgs.skip(i as int)[0] == msgs[i as int]);
            }
            match message {
                Clientbound::AuthSuccess(id) => {
                    if self.id.is_none() {
                        self.id = Some(id);
                    }
                },
                _ => {
                    events.push(message);
                },
            }
            i = i + 1;
        }
        proof {
            assert(msgs.subrange(0, msgs.len() as int) =~= msgs);
            assert(msgs.skip(msgs.len() as int) =~= Seq::<Clientbound>::empty());
        }
        events
    }
}

} // verus!
