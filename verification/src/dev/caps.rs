//! The chain of capability nodes in configuration space, and the table
//! that a walk along it fills.

use crate::error::DeviceError;
use vstd::prelude::*;
use vstd::set_lib::lemma_int_range;
use vstd::set_lib::lemma_len_subset;
use vstd::set_lib::set_int_range;

verus! {

/// The number of bytes that the walk reads of each node of the capability
/// chain. The first is the capability's id, the second the offset of the
/// next node.
pub const NODE_SIZE: usize = 4;

/// The most nodes that a chain can have without passing twice through one
/// of them: one for each offset other than zero that a byte can hold. A
/// walk that has not ended after so many nodes never ends.
pub const MAX_NODES: usize = 255;

/// The nodes of the capability chain that starts at offset `ptr`, each as
/// its id and its offset, in the order of the walk. The walk follows each
/// node's second byte until that is zero. It fails with `ShortRead` at a
/// node whose four bytes do not lie within `space`, and with
/// `MalformedCapabilityChain` once it has passed `fuel` nodes without
/// reaching the end.
pub open spec fn chain(space: Seq<u8>, ptr: u8, fuel: nat) -> Result<Seq<(u8, u8)>, DeviceError>
    decreases fuel,
{
    if ptr == 0 {
        Ok(Seq::empty())
    } else if fuel == 0 {
        Err(DeviceError::MalformedCapabilityChain)
    } else if ptr + NODE_SIZE > space.len() {
        Err(DeviceError::ShortRead)
    } else {
        match chain(space, space[ptr + 1], (fuel - 1) as nat) {
            Ok(rest) => Ok(seq![(space[ptr as int], ptr)] + rest),
            Err(e) => Err(e),
        }
    }
}

/// The table that has an entry for each node, from the node's id to its
/// offset, on top of the entries of `base`. Of two nodes with one id the
/// later one stays.
pub open spec fn table(nodes: Seq<(u8, u8)>, base: Map<u8, u64>) -> Map<u8, u64>
    decreases nodes.len(),
{
    if nodes.len() == 0 {
        base
    } else {
        table(nodes.drop_last(), base).insert(nodes.last().0, nodes.last().1 as u64)
    }
}

/// `chain` with `done` in front of what it gives.
pub open spec fn chain_after(done: Seq<(u8, u8)>, rest: Result<Seq<(u8, u8)>, DeviceError>) -> Result<
    Seq<(u8, u8)>,
    DeviceError,
> {
    match rest {
        Ok(nodes) => Ok(done + nodes),
        Err(e) => Err(e),
    }
}

/// Walks the capability chain from `ptr` and collects its nodes.
pub fn walk(space: &[u8], ptr: u8) -> (nodes: Result<Vec<(u8, u8)>, DeviceError>)
    ensures
        match chain(space@, ptr, MAX_NODES as nat) {
            Ok(found) => nodes is Ok && nodes->Ok_0@ == found,
            Err(e) => nodes == Err::<Vec<(u8, u8)>, DeviceError>(e),
        },
{
    let mut nodes: Vec<(u8, u8)> = Vec::new();
    let mut at: u8 = ptr;
    while at != 0
        invariant
            nodes@.len() <= MAX_NODES,
            chain(space@, ptr, MAX_NODES as nat) == chain_after(
                nodes@,
                chain(space@, at, (MAX_NODES - nodes@.len()) as nat),
            ),
        decreases MAX_NODES - nodes@.len(),
    {
        if nodes.len() == MAX_NODES {
            return Err(DeviceError::MalformedCapabilityChain);
        }
        if at as usize + NODE_SIZE > space.len() {
            return Err(DeviceError::ShortRead);
        }
        let cap_id = space[at as usize];
        let cap_next = space[at as usize + 1];
        proof {
            let fuel = (MAX_NODES - nodes@.len()) as nat;
            let rest = chain(space@, cap_next, (fuel - 1) as nat);
            assert(chain(space@, at, fuel) == chain_after(seq![(cap_id, at)], rest));
            match rest {
                Ok(tail) => {
                    assert(nodes@ + (seq![(cap_id, at)] + tail) == nodes@.push((cap_id, at))
                        + tail);
                },
                Err(_) => {},
            }
        }
        nodes.push((cap_id, at));
        at = cap_next;
    }
    assert(nodes@ + Seq::<(u8, u8)>::empty() == nodes@);
    Ok(nodes)
}

/// Whether `offsets` are the offsets of the nodes of a chain that starts
/// at `ptr` and ends: every node lies within `space` at an offset other
/// than zero, each but the last names the next one in its second byte, and
/// the last one names offset zero. A device without capabilities has the
/// chain of no nodes, with `ptr` zero.
pub open spec fn is_chain(space: Seq<u8>, ptr: u8, offsets: Seq<u8>) -> bool {
    &&& forall|i: int|
        0 <= i < offsets.len() ==> (#[trigger] offsets[i]) != 0 && offsets[i] + NODE_SIZE
            <= space.len()
    &&& forall|i: int|
        0 <= i < offsets.len() - 1 ==> space[(#[trigger] offsets[i]) + 1] == offsets[i + 1]
    &&& if offsets.len() == 0 {
        ptr == 0
    } else {
        offsets[0] == ptr && space[offsets.last() + 1] == 0
    }
}

/// The nodes at the given offsets, each as its id and its offset.
pub open spec fn nodes_at(space: Seq<u8>, offsets: Seq<u8>) -> Seq<(u8, u8)> {
    Seq::new(offsets.len(), |i: int| (space[offsets[i] as int], offsets[i]))
}

/// Whether no two of the nodes have the same id.
pub open spec fn distinct_ids(nodes: Seq<(u8, u8)>) -> bool {
    forall|i: int, j: int|
        0 <= i < j < nodes.len() ==> (#[trigger] nodes[i]).0 != (#[trigger] nodes[j]).0
}

/// A chain that ends passes through no offset twice: from a second visit
/// on it would repeat itself for ever.
pub proof fn lemma_chain_offsets_differ(space: Seq<u8>, ptr: u8, offsets: Seq<u8>, i: int, j: int)
    requires
        is_chain(space, ptr, offsets),
        0 <= i < j < offsets.len(),
    ensures
        offsets[i] != offsets[j],
    decreases offsets.len() - j,
{
    if offsets[i] == offsets[j] {
        if j == offsets.len() - 1 {
            assert(space[offsets[i] + 1] == offsets[i + 1]);
            assert(offsets[i + 1] != 0);
        } else {
            assert(space[offsets[i] + 1] == offsets[i + 1]);
            assert(space[offsets[j] + 1] == offsets[j + 1]);
            lemma_chain_offsets_differ(space, ptr, offsets, i + 1, j + 1);
        }
    }
}

/// A chain that ends has at most as many nodes as there are offsets other
/// than zero.
pub proof fn lemma_chain_length(space: Seq<u8>, ptr: u8, offsets: Seq<u8>)
    requires
        is_chain(space, ptr, offsets),
    ensures
        offsets.len() <= MAX_NODES,
{
    let places = Seq::new(offsets.len(), |i: int| offsets[i] as int);
    assert forall|i: int, j: int|
        0 <= i < places.len() && 0 <= j < places.len() && i != j implies places[i]
        != places[j] by {
        if i < j {
            lemma_chain_offsets_differ(space, ptr, offsets, i, j);
        } else {
            lemma_chain_offsets_differ(space, ptr, offsets, j, i);
        }
    }
    places.unique_seq_to_set();
    lemma_int_range(1, 256);
    assert forall|place: int| places.to_set().contains(place) implies set_int_range(
        1,
        256,
    ).contains(place) by {
        let i = choose|i: int| 0 <= i < places.len() && places[i] == place;
        assert(offsets[i] != 0);
    }
    lemma_len_subset(places.to_set(), set_int_range(1, 256));
}

/// With fuel for every node, the walk along a chain that ends gives the
/// nodes of the chain.
pub proof fn lemma_chain_walk(space: Seq<u8>, ptr: u8, offsets: Seq<u8>, fuel: nat)
    requires
        is_chain(space, ptr, offsets),
        offsets.len() <= fuel,
    ensures
        chain(space, ptr, fuel) == Ok::<Seq<(u8, u8)>, DeviceError>(nodes_at(space, offsets)),
    decreases offsets.len(),
{
    if offsets.len() == 0 {
        assert(nodes_at(space, offsets) == Seq::<(u8, u8)>::empty());
    } else {
        let rest = offsets.drop_first();
        let next = space[ptr + 1];
        assert(offsets[0] == ptr);
        assert forall|i: int| 0 <= i < rest.len() implies (#[trigger] rest[i]) != 0 && rest[i]
            + NODE_SIZE <= space.len() by {
            assert(rest[i] == offsets[i + 1]);
        }
        assert forall|i: int| 0 <= i < rest.len() - 1 implies space[(#[trigger] rest[i]) + 1]
            == rest[i + 1] by {
            assert(rest[i] == offsets[i + 1]);
            assert(space[offsets[i + 1] + 1] == offsets[i + 2]);
        }
        if rest.len() > 0 {
            assert(space[offsets[0] + 1] == offsets[1]);
            assert(rest.last() == offsets.last());
        }
        assert(is_chain(space, next, rest));
        lemma_chain_walk(space, next, rest, (fuel - 1) as nat);
        assert(seq![(space[ptr as int], ptr)] + nodes_at(space, rest) == nodes_at(space, offsets));
    }
}

/// A walk fails with `MalformedCapabilityChain` only on a chain that never
/// ends: no sequence of nodes leads from `ptr` to a node with next offset
/// zero.
pub proof fn lemma_malformed_chain_never_ends(space: Seq<u8>, ptr: u8)
    requires
        chain(space, ptr, MAX_NODES as nat) == Err::<Seq<(u8, u8)>, DeviceError>(
            DeviceError::MalformedCapabilityChain,
        ),
    ensures
        forall|offsets: Seq<u8>| !is_chain(space, ptr, offsets),
{
    assert forall|offsets: Seq<u8>| !is_chain(space, ptr, offsets) by {
        if is_chain(space, ptr, offsets) {
            lemma_chain_length(space, ptr, offsets);
            lemma_chain_walk(space, ptr, offsets, MAX_NODES as nat);
        }
    }
}

/// The table of nodes with distinct ids, none of them in the table
/// before, has one more entry for each node, from the node's id to its
/// offset.
pub proof fn lemma_table_entries(nodes: Seq<(u8, u8)>, base: Map<u8, u64>)
    requires
        distinct_ids(nodes),
        base.dom().finite(),
        forall|i: int| 0 <= i < nodes.len() ==> !base.contains_key((#[trigger] nodes[i]).0),
    ensures
        table(nodes, base).dom().finite(),
        table(nodes, base).len() == base.len() + nodes.len(),
        forall|i: int|
            0 <= i < nodes.len() ==> table(nodes, base).contains_key((#[trigger] nodes[i]).0)
                && table(nodes, base)[nodes[i].0] == nodes[i].1,
        forall|id: u8|
            table(nodes, base).contains_key(id) ==> base.contains_key(id) || exists|i: int|
                0 <= i < nodes.len() && (#[trigger] nodes[i]).0 == id,
        forall|id: u8| base.contains_key(id) ==> table(nodes, base).contains_key(id),
    decreases nodes.len(),
{
    if nodes.len() > 0 {
        let front = nodes.drop_last();
        let last = nodes.last();
        assert forall|i: int, j: int| 0 <= i < j < front.len() implies (#[trigger] front[i]).0 != (
        #[trigger] front[j]).0 by {
            assert(front[i] == nodes[i] && front[j] == nodes[j]);
        }
        assert forall|i: int| 0 <= i < front.len() implies !base.contains_key(
            (#[trigger] front[i]).0,
        ) by {
            assert(front[i] == nodes[i]);
        }
        lemma_table_entries(front, base);
        let before = table(front, base);
        assert(!before.contains_key(last.0)) by {
            if before.contains_key(last.0) {
                assert(!base.contains_key(nodes[nodes.len() - 1].0));
                let i = choose|i: int| 0 <= i < front.len() && (#[trigger] front[i]).0 == last.0;
                assert(front[i] == nodes[i]);
                assert(nodes[i].0 != nodes[nodes.len() - 1].0);
            }
        }
        assert forall|i: int| 0 <= i < nodes.len() implies table(nodes, base).contains_key(
            (#[trigger] nodes[i]).0,
        ) && table(nodes, base)[nodes[i].0] == nodes[i].1 by {
            if i < front.len() {
                assert(front[i] == nodes[i]);
                assert(nodes[i].0 != nodes[nodes.len() - 1].0);
            }
        }
        assert forall|id: u8| table(nodes, base).contains_key(id) implies base.contains_key(id)
            || exists|i: int| 0 <= i < nodes.len() && (#[trigger] nodes[i]).0 == id by {
            if id == last.0 {
                assert(nodes[nodes.len() - 1].0 == id);
            } else if !base.contains_key(id) {
                let i = choose|i: int| 0 <= i < front.len() && (#[trigger] front[i]).0 == id;
                assert(nodes[i].0 == id);
            }
        }
    }
}

/// A chain of `k` nodes with distinct ids that ends in a node with next
/// offset zero leaves, in a table that was empty, exactly `k` entries, one
/// under each node's id, which leads to the node's offset.
pub proof fn lemma_chain_table(space: Seq<u8>, ptr: u8, offsets: Seq<u8>)
    requires
        is_chain(space, ptr, offsets),
        distinct_ids(nodes_at(space, offsets)),
    ensures
        chain(space, ptr, MAX_NODES as nat) == Ok::<Seq<(u8, u8)>, DeviceError>(
            nodes_at(space, offsets),
        ),
        table(nodes_at(space, offsets), Map::empty()).dom().finite(),
        table(nodes_at(space, offsets), Map::empty()).len() == offsets.len(),
        forall|i: int|
            0 <= i < offsets.len() ==> {
                let entries = table(nodes_at(space, offsets), Map::empty());
                let id = space[(#[trigger] offsets[i]) as int];
                entries.contains_key(id) && entries[id] == offsets[i]
            },
{
    lemma_chain_length(space, ptr, offsets);
    lemma_chain_walk(space, ptr, offsets, MAX_NODES as nat);
    let nodes = nodes_at(space, offsets);
    lemma_table_entries(nodes, Map::empty());
    assert forall|i: int| 0 <= i < offsets.len() implies {
        let entries = table(nodes, Map::empty());
        let id = space[(#[trigger] offsets[i]) as int];
        entries.contains_key(id) && entries[id] == offsets[i]
    } by {
        assert(nodes[i] == (space[offsets[i] as int], offsets[i]));
    }
}

} // verus!
