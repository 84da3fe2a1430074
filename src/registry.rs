//! The peer registry: the relay's one piece of shared mutable state.
//!
//! It maps each connected peer to the sending side of that peer's outbound
//! channel. The registry itself is a plain value; whoever shares it between
//! connection tasks wraps it in a lock and holds the lock only for the length
//! of one call.
use vstd::prelude::*;
use tokio::sync::mpsc::UnboundedSender;
use crate::event::{ChatEvent, encoding};

verus! {

/// Declares tokio's `UnboundedSender`, held opaquely as a peer's outbound
/// channel.
#[verifier::external_type_specification]
#[verifier::external_body]
#[verifier::reject_recursive_types(T)]
pub struct ExUnboundedSender<T>(UnboundedSender<T>);

/// The identity of one live connection, taken from its remote address.
#[derive(Debug)]
pub struct PeerId {
    pub addr: String,
}

impl View for PeerId {
    type V = Seq<char>;

    open spec fn view(&self) -> Seq<char> {
        self.addr@
    }
}

impl PeerId {
    pub fn new(addr: String) -> (r: PeerId)
        ensures
            r@ == addr@,
    {
        PeerId { addr }
    }

    pub fn same(&self, other: &PeerId) -> (r: bool)
        ensures
            r == (self@ == other@),
    {
        self.addr.eq(&other.addr)
    }

    pub fn copy(&self) -> (r: PeerId)
        ensures
            r@ == self@,
    {
        PeerId { addr: self.addr.clone() }
    }
}

/// The map that a sequence of (peer, handle) entries stands for.
pub open spec fn map_of(entries: Seq<(PeerId, UnboundedSender<String>)>) -> Map<
    Seq<char>,
    UnboundedSender<String>,
>
    decreases entries.len(),
{
    if entries.len() == 0 {
        Map::empty()
    } else {
        map_of(entries.drop_last()).insert(entries.last().0@, entries.last().1)
    }
}

/// The peers of a sequence of entries, by address.
pub open spec fn peers_of(entries: Seq<(PeerId, UnboundedSender<String>)>) -> Seq<Seq<char>> {
    entries.map_values(|e: (PeerId, UnboundedSender<String>)| e.0@)
}

/// The outbound channels of all connected peers.
pub struct PeerRegistry {
    entries: Vec<(PeerId, UnboundedSender<String>)>,
}

/// One send that a broadcast asks for: `payload` goes onto `channel`, the
/// outbound channel of `peer`. Whoever holds the registry's lock carries it
/// out before releasing the lock; a channel whose receiving side is gone is
/// skipped without error.
pub struct Push<'a> {
    pub peer: &'a PeerId,
    pub channel: &'a UnboundedSender<String>,
    pub payload: String,
}

impl View for PeerRegistry {
    type V = Map<Seq<char>, UnboundedSender<String>>;

    closed spec fn view(&self) -> Map<Seq<char>, UnboundedSender<String>> {
        map_of(self.entries@)
    }
}

proof fn lemma_map_of_dom(entries: Seq<(PeerId, UnboundedSender<String>)>)
    ensures
        map_of(entries).dom() == peers_of(entries).to_set(),
    decreases entries.len(),
{
    if entries.len() > 0 {
        lemma_map_of_dom(entries.drop_last());
        assert(peers_of(entries) =~= peers_of(entries.drop_last()).push(entries.last().0@));
        peers_of(entries.drop_last()).lemma_push_to_set_commute(entries.last().0@);
    } else {
        assert(peers_of(entries).to_set() =~= Set::empty());
    }
    assert(map_of(entries).dom() =~= peers_of(entries).to_set());
}

impl PeerRegistry {
    /// The registry holds no two entries for one peer.
    pub closed spec fn wf(&self) -> bool {
        peers_of(self.entries@).no_duplicates()
    }

    /// The registered peers, each once, in the order a broadcast visits them.
    pub closed spec fn order(&self) -> Seq<Seq<char>> {
        peers_of(self.entries@)
    }

    pub proof fn lemma_order(&self)
        requires
            self.wf(),
        ensures
            self.order().no_duplicates(),
            self.order().to_set() == self@.dom(),
            self.order().len() == self@.dom().len(),
    {
        lemma_map_of_dom(self.entries@);
        self.order().unique_seq_to_set();
    }

    pub fn new() -> (r: PeerRegistry)
        ensures
            r.wf(),
            r@ == Map::<Seq<char>, UnboundedSender<String>>::empty(),
    {
        PeerRegistry { entries: Vec::new() }
    }
}

proof fn lemma_remove_keeps_unique(s: Seq<Seq<char>>, k: int)
    requires
        s.no_duplicates(),
        0 <= k < s.len(),
    ensures
        s.remove(k).no_duplicates(),
{
    let r = s.remove(k);
    assert forall|i: int, j: int| 0 <= i < r.len() && 0 <= j < r.len() && i != j implies r[i]
        != r[j] by {
        let si = if i < k { i } else { i + 1 };
        let sj = if j < k { j } else { j + 1 };
        assert(r[i] == s[si] && r[j] == s[sj]);
    }
}

proof fn lemma_map_of_index(entries: Seq<(PeerId, UnboundedSender<String>)>, k: int)
    requires
        peers_of(entries).no_duplicates(),
        0 <= k < entries.len(),
    ensures
        map_of(entries).dom().contains(entries[k].0@),
        map_of(entries)[entries[k].0@] == entries[k].1,
    decreases entries.len(),
{
    let dl = entries.drop_last();
    assert(peers_of(dl) =~= peers_of(entries).drop_last());
    if k < entries.len() - 1 {
        lemma_map_of_index(dl, k);
        assert(peers_of(entries)[k] != peers_of(entries)[entries.len() - 1]);
    }
}

proof fn lemma_map_of_remove(entries: Seq<(PeerId, UnboundedSender<String>)>, k: int)
    requires
        peers_of(entries).no_duplicates(),
        0 <= k < entries.len(),
    ensures
        map_of(entries.remove(k)) == map_of(entries).remove(entries[k].0@),
        peers_of(entries.remove(k)) == peers_of(entries).remove(k),
    decreases entries.len(),
{
    let key = entries[k].0@;
    let dl = entries.drop_last();
    assert(peers_of(dl) =~= peers_of(entries).drop_last());
    lemma_map_of_dom(dl);
    if k == entries.len() - 1 {
        assert(entries.remove(k) =~= dl);
        assert(!peers_of(dl).contains(key)) by {
            if peers_of(dl).contains(key) {
                let j = choose|j: int| 0 <= j < peers_of(dl).len() && peers_of(dl)[j] == key;
                assert(peers_of(entries)[j] == peers_of(entries)[k]);
            }
        }
        assert(map_of(entries.remove(k)) =~= map_of(entries).remove(key));
    } else {
        lemma_map_of_remove(dl, k);
        assert(entries.remove(k).drop_last() =~= dl.remove(k));
        assert(entries.remove(k).last() == entries.last());
        assert(peers_of(entries)[k] != peers_of(entries)[entries.len() - 1]);
        assert(map_of(entries.remove(k)) =~= map_of(entries).remove(key));
    }
    assert(peers_of(entries.remove(k)) =~= peers_of(entries).remove(k));
}

impl PeerRegistry {
    fn position(&self, id: &PeerId) -> (r: Option<usize>)
        ensures
            r is Some ==> r->0 < self.entries@.len() && self.entries@[r->0 as int].0@ == id@,
            r is None ==> !peers_of(self.entries@).contains(id@),
    {
        let mut i: usize = 0;
        while i < self.entries.len()
            invariant
                i <= self.entries@.len(),
                forall|j: int| 0 <= j < i ==> self.entries@[j].0@ != id@,
            decreases self.entries@.len() - i,
        {
            if self.entries[i].0.same(id) {
                return Some(i);
            }
            i = i + 1;
        }
        None
    }

    /// Removes `id` if it is registered; otherwise changes nothing. Returns
    /// whether it was registered.
    pub fn unregister(&mut self, id: &PeerId) -> (was_present: bool)
        requires
            old(self).wf(),
        ensures
            final(self).wf(),
            final(self)@ == old(self)@.remove(id@),
            was_present == old(self)@.dom().contains(id@),
            !was_present ==> *final(self) == *old(self),
    {
        proof {
            lemma_map_of_dom(self.entries@);
        }
        match self.position(id) {
            Some(k) => {
                proof {
                    lemma_map_of_remove(self.entries@, k as int);
                    lemma_remove_keeps_unique(peers_of(self.entries@), k as int);
                    assert(peers_of(self.entries@).contains(id@)) by {
                        assert(peers_of(self.entries@)[k as int] == id@);
                    }
                }
                self.entries.remove(k);
                true
            },
            None => {
                assert(old(self)@.remove(id@) =~= old(self)@);
                false
            },
        }
    }

    /// Registers `id` with its outbound channel, replacing any channel it
    /// had before.
    pub fn register(&mut self, id: PeerId, tx: UnboundedSender<String>)
        requires
            old(self).wf(),
        ensures
            final(self).wf(),
            final(self)@ == old(self)@.insert(id@, tx),
    {
        self.unregister(&id);
        proof {
            lemma_map_of_dom(self.entries@);
        }
        let ghost key = id@;
        let ghost before = self.entries@;
        self.entries.push((id, tx));
        proof {
            assert(self.entries@.drop_last() =~= before);
            assert(peers_of(self.entries@) =~= peers_of(before).push(key));
            assert(!peers_of(before).contains(key)) by {
                assert(!old(self)@.remove(key).dom().contains(key));
            }
            let ps = peers_of(self.entries@);
            assert forall|i: int, j: int| 0 <= i < ps.len() && 0 <= j < ps.len() && i != j implies ps[i]
                != ps[j] by {
                if i == ps.len() - 1 {
                    assert(peers_of(before)[j] == ps[j]);
                } else if j == ps.len() - 1 {
                    assert(peers_of(before)[i] == ps[i]);
                }
            }
            assert(self@ =~= old(self)@.insert(key, tx));
        }
    }

    /// The sends that broadcast `event` to every registered peer: one per
    /// peer, in `order()`, each carrying the event's encoding (made once and
    /// copied) to that peer's channel.
    pub fn broadcast<'a>(&'a self, event: &ChatEvent) -> (r: Vec<Push<'a>>)
        requires
            self.wf(),
        ensures
            r@.len() == self.order().len(),
            r@.len() == self@.dom().len(),
            forall|i: int|
                #![trigger r@[i]]
                0 <= i < r@.len() ==> {
                    &&& r@[i].peer@ == self.order()[i]
                    &&& *r@[i].channel == self@[self.order()[i]]
                    &&& r@[i].payload@ == encoding(event@)
                },
    {
        proof {
            self.lemma_order();
        }
        let payload = event.encode();
        let mut pushes: Vec<Push<'a>> = Vec::new();
        let mut i: usize = 0;
        while i < self.entries.len()
            invariant
                i <= self.entries@.len(),
                self.wf(),
                payload@ == encoding(event@),
                pushes@.len() == i,
                forall|j: int|
                    #![trigger pushes@[j]]
                    0 <= j < i ==> {
                        &&& pushes@[j].peer@ == self.order()[j]
                        &&& *pushes@[j].channel == self@[self.order()[j]]
                        &&& pushes@[j].payload@ == encoding(event@)
                    },
            decreases self.entries@.len() - i,
        {
            let entry = &self.entries[i];
            proof {
                lemma_map_of_index(self.entries@, i as int);
            }
            pushes.push(Push { peer: &entry.0, channel: &entry.1, payload: payload.clone() });
            i = i + 1;
        }
        pushes
    }
}

/// The registry that registering `conns` in turn builds from an empty one.
pub open spec fn registered(conns: Seq<(Seq<char>, UnboundedSender<String>)>) -> Map<
    Seq<char>,
    UnboundedSender<String>,
>
    decreases conns.len(),
{
    if conns.len() == 0 {
        Map::empty()
    } else {
        registered(conns.drop_last()).insert(conns.last().0, conns.last().1)
    }
}

/// One more connect extends the registry that the earlier ones built, exactly
/// as `register` changes the registry it is called on; a new registry is the
/// one built by no connects.
pub proof fn lemma_registered_step(
    conns: Seq<(Seq<char>, UnboundedSender<String>)>,
    id: Seq<char>,
    tx: UnboundedSender<String>,
)
    ensures
        registered(conns.push((id, tx))) == registered(conns).insert(id, tx),
        registered(Seq::<(Seq<char>, UnboundedSender<String>)>::empty())
            == Map::<Seq<char>, UnboundedSender<String>>::empty(),
{
    assert(conns.push((id, tx)).drop_last() =~= conns);
}

/// After `n` connects of distinct peers and no disconnect, the registry
/// holds exactly those `n` peers; a broadcast then targets each of them once
/// (its targets are `order()`, as long as the registry's domain).
pub proof fn lemma_connects_fill_registry(conns: Seq<(Seq<char>, UnboundedSender<String>)>)
    requires
        conns.map_values(|c: (Seq<char>, UnboundedSender<String>)| c.0).no_duplicates(),
    ensures
        registered(conns).dom() == conns.map_values(|c: (Seq<char>, UnboundedSender<String>)| c.0).to_set(),
        registered(conns).dom().len() == conns.len(),
    decreases conns.len(),
{
    let ids = conns.map_values(|c: (Seq<char>, UnboundedSender<String>)| c.0);
    if conns.len() == 0 {
        assert(ids.to_set() =~= Set::empty());
        assert(registered(conns).dom() =~= Set::empty());
    } else {
        let dl = conns.drop_last();
        let dids = dl.map_values(|c: (Seq<char>, UnboundedSender<String>)| c.0);
        assert(dids =~= ids.drop_last());
        assert(dids.no_duplicates());
        lemma_connects_fill_registry(dl);
        assert(ids =~= dids.push(conns.last().0));
        dids.lemma_push_to_set_commute(conns.last().0);
        assert(!dids.contains(conns.last().0)) by {
            if dids.contains(conns.last().0) {
                let j = choose|j: int| 0 <= j < dids.len() && dids[j] == conns.last().0;
                assert(ids[j] == ids[ids.len() - 1]);
            }
        }
        assert(registered(conns).dom() =~= ids.to_set());
    }
}

/// Unregistering a peer that is not registered leaves the registry as it is.
pub proof fn lemma_unregister_absent(m: Map<Seq<char>, UnboundedSender<String>>, id: Seq<char>)
    requires
        !m.dom().contains(id),
    ensures
        m.remove(id) == m,
{
    assert(m.remove(id) =~= m);
}

} // verus!
