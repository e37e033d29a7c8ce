//! Where the orders of the book rest.

use crate::level::same_id;
use crate::order::Side;
use pricelevel::OrderId;
use vstd::prelude::*;

verus! {

/// Where an order rests.
#[derive(Clone, Copy, Debug, PartialEq, Eq, Structural)]
pub struct Location {
    /// The price of its level.
    pub price: u64,
    /// Its side of the book.
    pub side: Side,
    /// Whether it came as a market order.
    pub market: bool,
}

/// The places of the orders, by identifier.
pub struct Locations {
    entries: Vec<(OrderId, Location)>,
}

/// Whether an entry is for `id`.
spec fn listed(entries: Seq<(OrderId, Location)>, id: OrderId) -> bool {
    exists|i: int| 0 <= i < entries.len() && (#[trigger] entries[i]).0 == id
}

/// The position of the entry for `id`.
spec fn position(entries: Seq<(OrderId, Location)>, id: OrderId) -> int {
    choose|i: int| 0 <= i < entries.len() && (#[trigger] entries[i]).0 == id
}

impl View for Locations {
    type V = Map<OrderId, Location>;

    closed spec fn view(&self) -> Map<OrderId, Location> {
        Map::new(
            |id: OrderId| listed(self.entries@, id),
            |id: OrderId| self.entries@[position(self.entries@, id)].1,
        )
    }
}

impl Locations {
    /// No order has two places.
    pub closed spec fn wf(self) -> bool {
        forall|i: int, j: int|
            0 <= i < j < self.entries.len() ==> (#[trigger] self.entries[i]).0 != (
            #[trigger] self.entries[j]).0
    }

    /// No places.
    pub(crate) fn new() -> (locations: Locations)
        ensures
            locations.wf(),
            locations@ == Map::<OrderId, Location>::empty(),
    {
        let locations = Locations { entries: Vec::new() };
        assert(locations@ =~= Map::<OrderId, Location>::empty());
        locations
    }

    /// The position of the entry for `id`, if there is one.
    fn find(&self, id: &OrderId) -> (found: Option<usize>)
        ensures
            match found {
                Some(i) => i < self.entries.len() && self.entries[i as int].0 == *id,
                None => !listed(self.entries@, *id),
            },
    {
        let mut i: usize = 0;
        while i < self.entries.len()
            invariant
                i <= self.entries.len(),
                forall|j: int| 0 <= j < i ==> (#[trigger] self.entries[j]).0 != *id,
            decreases self.entries.len() - i,
        {
            if same_id(&self.entries[i].0, id) {
                return Some(i);
            }
            i += 1;
        }
        None
    }

    /// The place of the order `id`, if it has one.
    pub(crate) fn get(&self, id: &OrderId) -> (location: Option<Location>)
        requires
            self.wf(),
        ensures
            location == self@.get(*id),
    {
        match self.find(id) {
            Some(i) => {
                assert(listed(self.entries@, *id));
                assert(position(self.entries@, *id) == i);
                Some(self.entries[i].1)
            },
            None => None,
        }
    }

    /// Gives the order `id` a place, and takes away the one it had.
    pub(crate) fn insert(&mut self, id: OrderId, location: Location)
        requires
            old(self).wf(),
        ensures
            final(self).wf(),
            final(self)@ == old(self)@.insert(id, location),
    {
        let ghost before = self.entries@;
        match self.find(&id) {
            Some(i) => {
                self.entries.set(i, (id, location));
                assert(self.entries@ == before.update(i as int, (id, location)));
                assert forall|k: OrderId| listed(self.entries@, k) == (k == id || listed(before, k)) by {
                    if listed(before, k) {
                        let j = position(before, k);
                        assert(self.entries@[j].0 == k);
                    }
                    assert(self.entries@[i as int].0 == id);
                    if listed(self.entries@, k) {
                        let j = position(self.entries@, k);
                        assert(before[j].0 == k);
                    }
                }
                assert forall|k: OrderId| listed(before, k) && k != id implies self.entries@[position(
                    self.entries@,
                    k,
                )] == before[position(before, k)] by {
                    let j = position(before, k);
                    assert(self.entries@[j].0 == k);
                    let m = position(self.entries@, k);
                    assert(before[m].0 == k);
                }
                assert(self.entries@[i as int].0 == id);
                assert(position(self.entries@, id) == i);
            },
            None => {
                self.entries.push((id, location));
                let ghost last = before.len() as int;
                assert(self.entries@[last].0 == id);
                assert forall|k: OrderId| listed(self.entries@, k) == (k == id || listed(before, k)) by {
                    if listed(before, k) {
                        let j = position(before, k);
                        assert(self.entries@[j].0 == k);
                    }
                    if listed(self.entries@, k) && k != id {
                        let j = position(self.entries@, k);
                        assert(before[j].0 == k);
                    }
                }
                assert forall|k: OrderId| listed(before, k) && k != id implies self.entries@[position(
                    self.entries@,
                    k,
                )] == before[position(before, k)] by {
                    let j = position(before, k);
                    assert(self.entries@[j].0 == k);
                    let m = position(self.entries@, k);
                    assert(before[m].0 == k);
                }
                assert forall|i: int, j: int| 0 <= i < j < self.entries.len() implies (
                #[trigger] self.entries[i]).0 != (#[trigger] self.entries[j]).0 by {
                    assert(before[i].0 == self.entries@[i].0);
                    if j < last {
                        assert(before[j].0 == self.entries@[j].0);
                    }
                }
            },
        }
        assert(self@ =~= old(self)@.insert(id, location));
    }

    /// Takes away the place of the order `id`.
    pub(crate) fn remove(&mut self, id: &OrderId)
        requires
            old(self).wf(),
        ensures
            final(self).wf(),
            final(self)@ == old(self)@.remove(*id),
    {
        let ghost before = self.entries@;
        match self.find(id) {
            Some(i) => {
                self.entries.remove(i);
                let ghost gone = i as int;
                assert(self.entries@ == before.remove(gone));
                assert forall|j: int| 0 <= j < self.entries.len() implies #[trigger] self.entries@[j]
                    == before[if j < gone {
                    j
                } else {
                    j + 1
                }] by {}
                assert forall|k: OrderId| listed(self.entries@, k) == (k != *id && listed(before, k)) by {
                    if listed(before, k) && k != *id {
                        let j = position(before, k);
                        let m = if j < gone {
                            j
                        } else {
                            j - 1
                        };
                        assert(self.entries@[m].0 == k);
                    }
                    if listed(self.entries@, k) {
                        let j = position(self.entries@, k);
                        let m = if j < gone {
                            j
                        } else {
                            j + 1
                        };
                        assert(before[m].0 == k);
                        assert(before[gone].0 == *id);
                    }
                }
                assert forall|k: OrderId| listed(before, k) && k != *id implies self.entries@[position(
                    self.entries@,
                    k,
                )] == before[position(before, k)] by {
                    let j = position(self.entries@, k);
                    assert(listed(self.entries@, k));
                    let m = if j < gone {
                        j
                    } else {
                        j + 1
                    };
                    assert(before[m].0 == k);
                    assert(before[position(before, k)].0 == k);
                }
            },
            None => {},
        }
        assert(self@ =~= old(self)@.remove(*id));
    }

    /// Takes away the places of the orders `ids`.
    pub(crate) fn remove_all(&mut self, ids: &Vec<OrderId>)
        requires
            old(self).wf(),
        ensures
            final(self).wf(),
            final(self)@ == old(self)@.remove_keys(ids@.to_set()),
    {
        let mut i: usize = 0;
        assert(self@.remove_keys(ids@.take(0).to_set()) =~= self@);
        while i < ids.len()
            invariant
                self.wf(),
                i <= ids.len(),
                self@ == old(self)@.remove_keys(ids@.take(i as int).to_set()),
            decreases ids.len() - i,
        {
            let ghost before = ids@.take(i as int);
            let ghost after = ids@.take(i + 1);
            self.remove(&ids[i]);
            proof {
                assert(after =~= before.push(ids@[i as int]));
                assert forall|id: OrderId| after.to_set().contains(id) == (before.to_set().contains(id) || id
                    == ids@[i as int]) by {
                    if before.contains(id) {
                        let k = choose|k: int| 0 <= k < before.len() && before[k] == id;
                        assert(after[k] == id);
                    }
                    assert(after[i as int] == ids@[i as int]);
                    if after.contains(id) && id != ids@[i as int] {
                        let k = choose|k: int| 0 <= k < after.len() && after[k] == id;
                        assert(before[k] == id);
                    }
                }
                assert(self@ =~= old(self)@.remove_keys(after.to_set()));
            }
            i += 1;
        }
        assert(ids@.take(ids.len() as int) =~= ids@);
    }
}

} // verus!
