//! Event dispatch: what happens to each payload taken off a connection's
//! inbound queue.
use vstd::prelude::*;
use tokio::sync::mpsc::UnboundedSender;
use crate::event::{ChatEvent, EventView, encoding, parse_event};
use crate::registry::{PeerRegistry, Push};

verus! {

/// The event that a payload stands for, if it stands for one.
pub open spec fn decoded(p: Seq<char>) -> Option<EventView> {
    parse_event(p)
}

/// The registry after dispatching payload `p` on registry `m`: a
/// `Disconnect` removes its peer, anything else leaves `m` as it is.
pub open spec fn dispatched(
    m: Map<Seq<char>, UnboundedSender<String>>,
    p: Seq<char>,
) -> Map<Seq<char>, UnboundedSender<String>> {
    match decoded(p) {
        Some(EventView::Disconnect(a)) => m.remove(a),
        _ => m,
    }
}

/// The result of dispatching one payload.
pub enum DispatchOutcome<'a> {
    /// The payload is not an event; it was dropped and nothing is to be sent.
    Rejected,
    /// The event was re-encoded; these sends broadcast it.
    Broadcast(Vec<Push<'a>>),
}

/// Decodes `payload`; on success removes the peer of a `Disconnect` from the
/// registry first, then re-encodes the event and returns the sends that
/// broadcast it to every peer still registered, one each. A payload that does
/// not decode is rejected and touches nothing.
pub fn dispatch<'a>(registry: &'a mut PeerRegistry, payload: &str) -> (r: DispatchOutcome<'a>)
    requires
        old(registry).wf(),
    ensures
        final(registry).wf(),
        final(registry)@ == dispatched(old(registry)@, payload@),
        r is Rejected <==> decoded(payload@) is None,
        r is Rejected ==> *final(registry) == *old(registry),
        r matches DispatchOutcome::Broadcast(pushes) ==> {
            &&& pushes@.len() == final(registry).order().len()
            &&& pushes@.len() == final(registry)@.dom().len()
            &&& forall|i: int|
                #![trigger pushes@[i]]
                0 <= i < pushes@.len() ==> {
                    &&& pushes@[i].peer@ == final(registry).order()[i]
                    &&& *pushes@[i].channel == final(registry)@[final(registry).order()[i]]
                    &&& pushes@[i].payload@ == encoding(decoded(payload@)->0)
                }
        },
{
    let ghost p = payload@;
    match ChatEvent::decode(payload) {
        None => {
            DispatchOutcome::Rejected
        },
        Some(event) => {
            if let ChatEvent::Disconnect { addr } = &event {
                let id = crate::registry::PeerId::new(addr.clone());
                registry.unregister(&id);
            }
            let reg: &'a PeerRegistry = registry;
            DispatchOutcome::Broadcast(reg.broadcast(&event))
        },
    }
}

/// Once a peer's `Disconnect` has been dispatched, the peer is no longer
/// registered, whatever the registry held before; every later broadcast
/// sends to registered peers only, so none reaches it until it connects again.
pub proof fn lemma_disconnect_unregisters(
    m: Map<Seq<char>, UnboundedSender<String>>,
    p: Seq<char>,
    a: Seq<char>,
)
    requires
        decoded(p) == Some(EventView::Disconnect(a)),
    ensures
        dispatched(m, p) == m.remove(a),
        !dispatched(m, p).dom().contains(a),
{
}

/// A payload that does not decode changes nothing, so whatever a valid
/// payload does next (on any connection) it does as if the bad one had never
/// come.
pub proof fn lemma_malformed_is_isolated(
    m: Map<Seq<char>, UnboundedSender<String>>,
    bad: Seq<char>,
    good: Seq<char>,
)
    requires
        decoded(bad) is None,
    ensures
        dispatched(m, bad) == m,
        dispatched(dispatched(m, bad), good) == dispatched(m, good),
{
}

} // verus!
