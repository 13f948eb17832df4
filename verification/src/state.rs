//! State transactions: a working copy of the world and a queue of events,
//! merged into the state on commit and dropped on failure.

use vstd::prelude::*;
use crate::events::{lemma_views_concat, lemma_views_push, views_of, Event, EventView};
use crate::asset::{AssetDefinitionView, AssetView};
use crate::domain::{AccountView, DomainView};
use crate::nft::NftView;
use crate::world::{World, WorldView};

verus! {

/// A state transaction as plain values.
pub struct TxView {
    pub world: WorldView,
    /// The events emitted so far, oldest first.
    pub events: Seq<EventView>,
}

/// A scoped, atomic mutation context over the world: instructions write to
/// its working copy of the world and append to its event queue. Nothing of
/// either is seen outside until the transaction is committed.
#[derive(Debug, PartialEq, Eq)]
pub struct StateTransaction {
    pub world: World,
    pub events: Vec<Event>,
}

impl View for StateTransaction {
    type V = TxView;

    open spec fn view(&self) -> TxView {
        TxView { world: self.world@, events: views_of(self.events@) }
    }
}

impl StateTransaction {
    /// The working copy of the world is well formed.
    pub open spec fn wf(&self) -> bool {
        self.world.wf()
    }

    /// Appends `event` to the queue.
    pub fn emit(&mut self, event: Event)
        ensures
            final(self).world == old(self).world,
            final(self).events@ == old(self).events@.push(event),
            final(self)@.events == old(self)@.events.push(event@),
    {
        proof {
            lemma_views_push(self.events@, event);
        }
        self.events.push(event);
    }
}

/// The committed state as plain values.
pub struct StateView {
    pub world: WorldView,
    /// The events delivered so far, oldest first.
    pub events: Seq<EventView>,
}

/// The committed world and the stream of events that led to it.
#[derive(Debug, PartialEq, Eq)]
pub struct State {
    pub world: World,
    /// Every event of every committed transaction, in the order of commit
    /// and, within a transaction, in the order of emission.
    pub events: Vec<Event>,
}

impl View for State {
    type V = StateView;

    open spec fn view(&self) -> StateView {
        StateView { world: self.world@, events: views_of(self.events@) }
    }
}

impl State {
    pub open spec fn wf(&self) -> bool {
        self.world.wf()
    }

    /// The state of an empty world that has seen no event.
    pub fn new() -> (r: State)
        ensures
            r.wf(),
            r@.world == World::new_view(),
            r@.events == Seq::<EventView>::empty(),
            r.events@ == Seq::<Event>::empty(),
            r.world.domains.rows() == Seq::<DomainView>::empty(),
            r.world.accounts.rows() == Seq::<AccountView>::empty(),
            r.world.asset_definitions.rows() == Seq::<AssetDefinitionView>::empty(),
            r.world.assets.rows() == Seq::<AssetView>::empty(),
            r.world.nfts.rows() == Seq::<NftView>::empty(),
    {
        let r = State { world: World::new(), events: Vec::new() };
        proof {
            assert(views_of(r.events@) =~= Seq::<EventView>::empty());
        }
        r
    }

    /// Opens a transaction on a snapshot of the world, with an empty event
    /// queue.
    pub fn transaction(&self) -> (tx: StateTransaction)
        ensures
            tx@.world == self@.world,
            tx@.events == Seq::<EventView>::empty(),
            tx.wf() == self.wf(),
            tx.world.assets.rows() == self.world.assets.rows(),
    {
        let tx = StateTransaction { world: self.world.duplicate(), events: Vec::new() };
        proof {
            assert(views_of(tx.events@) =~= Seq::<EventView>::empty());
        }
        tx
    }

    /// Merges a transaction into the state: its world becomes the world,
    /// and its events are delivered after those already delivered, in the
    /// order in which they were emitted.
    pub fn commit(&mut self, tx: StateTransaction)
        ensures
            final(self).world == tx.world,
            final(self)@.world == tx@.world,
            final(self)@.events == old(self)@.events + tx@.events,
            final(self).wf() == tx.wf(),
    {
        let StateTransaction { world, events } = tx;
        let mut events = events;
        proof {
            lemma_views_concat(self.events@, events@);
        }
        self.world = world;
        self.events.append(&mut events);
    }
}

} // verus!
