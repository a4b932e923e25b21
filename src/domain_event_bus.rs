//! The routing of domain events to their subscribers. Subscribers are known by
//! the position at which they were added; running them is the caller's part.
use vstd::prelude::*;
use crate::index_file::names_of;
use crate::text::str_eq;

verus! {

broadcast use vstd::seq_lib::group_seq_properties;

/// The subscribers, in order of addition, subscribed to the event named `name`.
pub open spec fn subscriber_ids(subscriptions: Seq<Seq<char>>, name: Seq<char>) -> Seq<usize> {
    Seq::new(subscriptions.len(), |i: int| i as usize).filter(
        |i: usize| subscriptions[i as int] == name,
    )
}

/// The deliveries for the events named `events`, event by event, each to its
/// subscribers in order of addition: pairs of event position and subscriber.
pub open spec fn deliveries(subscriptions: Seq<Seq<char>>, events: Seq<Seq<char>>) -> Seq<(usize, usize)> {
    Seq::new(events.len(), |e: int| e).map_values(
        |e: int| subscriber_ids(subscriptions, events[e]).map_values(|s: usize| (e as usize, s)),
    ).flatten()
}

/// An event bus held in memory: which event each subscriber listens to.
pub struct InMemoryDomainEventBus {
    subscriptions: Vec<String>,
}

impl View for InMemoryDomainEventBus {
    type V = Seq<Seq<char>>;

    closed spec fn view(&self) -> Seq<Seq<char>> {
        names_of(self.subscriptions@)
    }
}

impl InMemoryDomainEventBus {
    pub fn new() -> (r: InMemoryDomainEventBus)
        ensures
            r@.len() == 0,
    {
        InMemoryDomainEventBus { subscriptions: Vec::new() }
    }

    /// Adds a subscriber to the events named `event_name`; it is known by the
    /// position returned.
    pub fn add_subscriber(&mut self, event_name: String) -> (r: usize)
        requires
            old(self)@.len() < usize::MAX,
        ensures
            r == old(self)@.len(),
            final(self)@ == old(self)@.push(event_name@),
    {
        let r = self.subscriptions.len();
        let ghost before = self@;
        self.subscriptions.push(event_name);
        proof {
            assert(self@ =~= before.push(event_name@));
        }
        r
    }

    /// The subscribers to the events named `event_name`, in order of addition.
    pub fn subscribers_of(&self, event_name: &str) -> (r: Vec<usize>)
        ensures
            r@ == subscriber_ids(self@, event_name@),
    {
        let ghost subs = self@;
        let ghost pred = |i: usize| subs[i as int] == event_name@;
        let ghost all = Seq::new(subs.len(), |i: int| i as usize);
        let mut r: Vec<usize> = Vec::new();
        let mut i: usize = 0;
        while i < self.subscriptions.len()
            invariant
                i <= self.subscriptions.len(),
                subs == self@,
                subs.len() == self.subscriptions.len(),
                all == Seq::new(subs.len(), |i: int| i as usize),
                pred == (|i: usize| subs[i as int] == event_name@),
                r@ == all.subrange(0, i as int).filter(pred),
            decreases self.subscriptions.len() - i,
        {
            proof {
                assert(all.subrange(0, i + 1) =~= all.subrange(0, i as int).push(i));
                all.subrange(0, i as int).lemma_filter_push(i, pred);
                assert(subs[i as int] == self.subscriptions@[i as int]@);
            }
            if str_eq(self.subscriptions[i].as_str(), event_name) {
                r.push(i);
            }
            i = i + 1;
        }
        proof {
            assert(all.subrange(0, all.len() as int) =~= all);
        }
        r
    }

    /// The deliveries for the events named `events`, in the order they are to be made.
    pub fn dispatch_plan(&self, events: &Vec<String>) -> (r: Vec<(usize, usize)>)
        ensures
            r@ == deliveries(self@, names_of(events@)),
    {
        let ghost ev = names_of(events@);
        let ghost subs = self@;
        let ghost f = |e: int| subscriber_ids(subs, ev[e]).map_values(|s: usize| (e as usize, s));
        let ghost idx = Seq::new(ev.len(), |e: int| e);
        let mut r: Vec<(usize, usize)> = Vec::new();
        let mut e: usize = 0;
        while e < events.len()
            invariant
                e <= events.len(),
                ev == names_of(events@),
                subs == self@,
                idx == Seq::new(ev.len(), |e: int| e),
                f == (|e: int| subscriber_ids(subs, ev[e]).map_values(|s: usize| (e as usize, s))),
                r@ == idx.subrange(0, e as int).map_values(f).flatten(),
            decreases events.len() - e,
        {
            let ids = self.subscribers_of(events[e].as_str());
            let ghost base = r@;
            let mut k: usize = 0;
            while k < ids.len()
                invariant
                    k <= ids.len(),
                    e < events.len(),
                    ids@ == subscriber_ids(subs, ev[e as int]),
                    r@ == base + ids@.subrange(0, k as int).map_values(|s: usize| (e, s)),
                decreases ids.len() - k,
            {
                r.push((e, ids[k]));
                proof {
                    assert(ids@.subrange(0, k + 1).map_values(|s: usize| (e, s)) =~= ids@.subrange(0, k as int).map_values(|s: usize| (e, s)).push((e, ids@[k as int])));
                }
                k = k + 1;
            }
            proof {
                assert(ids@.subrange(0, ids@.len() as int) =~= ids@);
                assert(f(e as int) =~= ids@.map_values(|s: usize| (e, s)));
                assert(idx.subrange(0, e + 1).map_values(f) =~= idx.subrange(0, e as int).map_values(f).push(f(e as int)));
                idx.subrange(0, e as int).map_values(f).lemma_flatten_push(f(e as int));
            }
            e = e + 1;
        }
        proof {
            assert(idx.subrange(0, idx.len() as int) =~= idx);
        }
        r
    }
}

} // verus!
