//! Records that belong to one network, and their removal with it.

use vstd::prelude::*;

verus! {

/// The identifier of a network.
pub type NetUid = u16;

/// A record that belongs to one network.
pub trait Scoped: Copy {
    /// The network that the record belongs to.
    spec fn scope(&self) -> NetUid;

    /// The network that the record belongs to.
    fn netuid(&self) -> (r: NetUid)
        ensures
            r == self.scope(),
    ;
}

/// The records of `items` that belong to `netuid`, in their order.
pub open spec fn scoped_to<T: Scoped>(items: Seq<T>, netuid: NetUid) -> Seq<T>
    decreases items.len(),
{
    if items.len() == 0 {
        Seq::empty()
    } else if items.last().scope() == netuid {
        scoped_to(items.drop_last(), netuid).push(items.last())
    } else {
        scoped_to(items.drop_last(), netuid)
    }
}

/// The records of `items` that belong to another network than `netuid`, in their order.
pub open spec fn scoped_elsewhere<T: Scoped>(items: Seq<T>, netuid: NetUid) -> Seq<T>
    decreases items.len(),
{
    if items.len() == 0 {
        Seq::empty()
    } else if items.last().scope() != netuid {
        scoped_elsewhere(items.drop_last(), netuid).push(items.last())
    } else {
        scoped_elsewhere(items.drop_last(), netuid)
    }
}

/// Once the records of `netuid` are removed, none that is left belongs to it.
pub proof fn lemma_scoped_elsewhere_clean<T: Scoped>(items: Seq<T>, netuid: NetUid)
    ensures
        scoped_elsewhere(items, netuid).len() <= items.len(),
        forall|i: int|
            0 <= i < scoped_elsewhere(items, netuid).len() ==> (#[trigger] scoped_elsewhere(
                items,
                netuid,
            )[i]).scope() != netuid,
        scoped_to(scoped_elsewhere(items, netuid), netuid).len() == 0,
    decreases items.len(),
{
    if items.len() > 0 {
        lemma_scoped_elsewhere_clean(items.drop_last(), netuid);
        let rest = scoped_elsewhere(items.drop_last(), netuid);
        if items.last().scope() != netuid {
            assert(rest.push(items.last()).drop_last() =~= rest);
        }
    }
}

/// Removing the records of `netuid` leaves those of any other network as they were.
pub proof fn lemma_scoped_elsewhere_keeps<T: Scoped>(items: Seq<T>, netuid: NetUid, other: NetUid)
    requires
        other != netuid,
    ensures
        scoped_to(scoped_elsewhere(items, netuid), other) == scoped_to(items, other),
    decreases items.len(),
{
    if items.len() > 0 {
        lemma_scoped_elsewhere_keeps(items.drop_last(), netuid, other);
        let rest = scoped_elsewhere(items.drop_last(), netuid);
        if items.last().scope() != netuid {
            assert(rest.push(items.last()).drop_last() =~= rest);
        }
    }
}

/// The records of `items` that belong to `netuid`, in their order.
pub fn collect_scoped<T: Scoped>(items: &Vec<T>, netuid: NetUid) -> (found: Vec<T>)
    ensures
        found@ == scoped_to(items@, netuid),
{
    let mut found: Vec<T> = Vec::new();
    let mut i: usize = 0;
    while i < items.len()
        invariant
            i <= items.len(),
            found@ == scoped_to(items@.take(i as int), netuid),
        decreases items.len() - i,
    {
        proof {
            assert(items@.take(i + 1).drop_last() =~= items@.take(i as int));
        }
        let item: T = items[i];
        if item.netuid() == netuid {
            found.push(item);
        }
        i = i + 1;
    }
    proof {
        assert(items@.take(items@.len() as int) =~= items@);
    }
    found
}

/// Removes from `items` every record that belongs to `netuid`. The other
/// records stay, in their order.
pub fn purge<T: Scoped>(items: &mut Vec<T>, netuid: NetUid)
    ensures
        final(items)@ == scoped_elsewhere(old(items)@, netuid),
{
    let mut kept: Vec<T> = Vec::new();
    let mut i: usize = 0;
    while i < items.len()
        invariant
            i <= items.len(),
            items@ == old(items)@,
            kept@ == scoped_elsewhere(items@.take(i as int), netuid),
        decreases items.len() - i,
    {
        proof {
            assert(items@.take(i + 1).drop_last() =~= items@.take(i as int));
        }
        let item: T = items[i];
        if item.netuid() != netuid {
            kept.push(item);
        }
        i = i + 1;
    }
    proof {
        assert(items@.take(items@.len() as int) =~= items@);
    }
    *items = kept;
}

} // verus!
