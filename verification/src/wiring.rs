//! Operations on the list of wires of one graph level.
use vstd::prelude::*;

use crate::ports::{Connection, PortId};

verus! {

broadcast use vstd::seq_lib::group_seq_properties;

/// Keeps the wires that do not end at `to`.
pub open spec fn not_into(to: PortId) -> spec_fn(Connection) -> bool {
    |c: Connection| c.to != to
}

/// Whether some wire ends at `to`.
pub open spec fn has_wire_into(conns: Seq<Connection>, to: PortId) -> bool {
    exists|i: int| 0 <= i < conns.len() && conns[i].to == to
}

/// Whether some wire starts at `from`.
pub open spec fn has_wire_from(conns: Seq<Connection>, from: PortId) -> bool {
    exists|i: int| 0 <= i < conns.len() && conns[i].from == from
}

/// Source of the first wire (in list order) that ends at `to`.
pub open spec fn first_source_into(conns: Seq<Connection>, to: PortId) -> Option<PortId>
    decreases conns.len(),
{
    if conns.len() == 0 {
        None
    } else if conns[0].to == to {
        Some(conns[0].from)
    } else {
        first_source_into(conns.subrange(1, conns.len() as int), to)
    }
}

/// Every input port is fed by at most one wire.
pub open spec fn single_feed(conns: Seq<Connection>) -> bool {
    forall|i: int, j: int|
        0 <= i < conns.len() && 0 <= j < conns.len() && #[trigger] conns[i].to == #[trigger] conns[j].to
            ==> i == j
}

/// No wire appears twice.
pub open spec fn no_duplicate_wires(conns: Seq<Connection>) -> bool {
    forall|i: int, j: int|
        0 <= i < conns.len() && 0 <= j < conns.len() && #[trigger] conns[i] == #[trigger] conns[j]
            ==> i == j
}

pub fn contains_connection(conns: &Vec<Connection>, c: Connection) -> (r: bool)
    ensures
        r == conns@.contains(c),
{
    let mut i: usize = 0;
    while i < conns.len()
        invariant
            i <= conns.len(),
            forall|k: int| 0 <= k < i ==> conns@[k] != c,
        decreases conns.len() - i,
    {
        if conns[i] == c {
            return true;
        }
        i += 1;
    }
    false
}

pub fn any_wire_into(conns: &Vec<Connection>, to: PortId) -> (r: bool)
    ensures
        r == has_wire_into(conns@, to),
{
    let mut i: usize = 0;
    while i < conns.len()
        invariant
            i <= conns.len(),
            forall|k: int| 0 <= k < i ==> conns@[k].to != to,
        decreases conns.len() - i,
    {
        if conns[i].to == to {
            return true;
        }
        i += 1;
    }
    false
}

pub fn any_wire_from(conns: &Vec<Connection>, from: PortId) -> (r: bool)
    ensures
        r == has_wire_from(conns@, from),
{
    let mut i: usize = 0;
    while i < conns.len()
        invariant
            i <= conns.len(),
            forall|k: int| 0 <= k < i ==> conns@[k].from != from,
        decreases conns.len() - i,
    {
        if conns[i].from == from {
            return true;
        }
        i += 1;
    }
    false
}

proof fn lemma_first_source_skip(conns: Seq<Connection>, to: PortId, i: int)
    requires
        0 <= i <= conns.len(),
        forall|k: int| 0 <= k < i ==> conns[k].to != to,
    ensures
        first_source_into(conns, to) == first_source_into(conns.subrange(i, conns.len() as int), to),
    decreases i,
{
    if i > 0 {
        let tail = conns.subrange(1, conns.len() as int);
        lemma_first_source_skip(tail, to, i - 1);
        assert(tail.subrange(i - 1, tail.len() as int) =~= conns.subrange(i, conns.len() as int));
    } else {
        assert(conns.subrange(0, conns.len() as int) =~= conns);
    }
}

/// Source of the first wire that ends at `to`, if any.
pub fn source_into(conns: &Vec<Connection>, to: PortId) -> (r: Option<PortId>)
    ensures
        r == first_source_into(conns@, to),
        r.is_none() <==> !has_wire_into(conns@, to),
{
    let mut i: usize = 0;
    while i < conns.len()
        invariant
            i <= conns.len(),
            forall|k: int| 0 <= k < i ==> conns@[k].to != to,
        decreases conns.len() - i,
    {
        if conns[i].to == to {
            proof {
                lemma_first_source_skip(conns@, to, i as int);
                assert(conns@.subrange(i as int, conns@.len() as int)[0] == conns@[i as int]);
            }
            return Some(conns[i].from);
        }
        i += 1;
    }
    proof {
        lemma_first_source_skip(conns@, to, i as int);
    }
    None
}

/// Drops every wire that ends at `to`, keeping the others in order.
pub fn retain_not_into(conns: &mut Vec<Connection>, to: PortId)
    ensures
        final(conns)@ == old(conns)@.filter(not_into(to)),
{
    let mut kept: Vec<Connection> = Vec::new();
    let mut i: usize = 0;
    while i < conns.len()
        invariant
            i <= conns.len(),
            kept@ == conns@.take(i as int).filter(not_into(to)),
        decreases conns.len() - i,
    {
        let c = conns[i];
        proof {
            assert(conns@.take(i + 1) == conns@.take(i as int).push(c));
            conns@.take(i as int).lemma_filter_push(c, not_into(to));
        }
        if c.to != to {
            kept.push(c);
        }
        i += 1;
    }
    proof {
        assert(conns@.take(conns@.len() as int) =~= conns@);
    }
    *conns = kept;
}

/// Appends a wire unless it is already present; reports whether it was added.
pub fn insert_connection(conns: &mut Vec<Connection>, c: Connection) -> (added: bool)
    ensures
        added == !old(conns)@.contains(c),
        final(conns)@ == if added { old(conns)@.push(c) } else { old(conns)@ },
{
    if contains_connection(conns, c) {
        false
    } else {
        conns.push(c);
        true
    }
}

/// After dropping the wires into `to`, nothing feeds `to` and every other
/// wire is still there.
pub proof fn lemma_retain_not_into(conns: Seq<Connection>, to: PortId)
    ensures
        !has_wire_into(conns.filter(not_into(to)), to),
        forall|c: Connection| c.to != to ==> (conns.contains(c) <==> conns.filter(not_into(to)).contains(c)),
{
    broadcast use vstd::seq_lib::group_filter_ensures;

    assert forall|c: Connection| c.to != to implies (conns.contains(c) <==> conns.filter(not_into(to)).contains(c)) by {
        if conns.contains(c) {
            let i = choose|i: int| 0 <= i < conns.len() && conns[i] == c;
            conns.lemma_filter_contains(not_into(to), i);
        }
        if conns.filter(not_into(to)).contains(c) {
            conns.lemma_filter_contains_rev(not_into(to), c);
        }
    }
    if has_wire_into(conns.filter(not_into(to)), to) {
        let i = choose|i: int| 0 <= i < conns.filter(not_into(to)).len() && conns.filter(not_into(to))[i].to == to;
        conns.lemma_filter_pred(not_into(to), i);
    }
}

/// Filtering keeps the "fed at most once" and "no duplicate" properties.
pub proof fn lemma_filter_keeps_wellformed(conns: Seq<Connection>, to: PortId)
    requires
        single_feed(conns),
    ensures
        single_feed(conns.filter(not_into(to))),
    decreases conns.len(),
{
    reveal(Seq::filter);
    if conns.len() > 0 {
        let init = conns.drop_last();
        assert forall|i: int, j: int|
            0 <= i < init.len() && 0 <= j < init.len() && #[trigger] init[i].to == #[trigger] init[j].to
            implies i == j by {
            assert(conns[i].to == conns[j].to);
        }
        lemma_filter_keeps_wellformed(init, to);
        let f = init.filter(not_into(to));
        if not_into(to)(conns.last()) {
            assert forall|k: int| 0 <= k < f.len() implies f[k].to != conns.last().to by {
                broadcast use vstd::seq_lib::group_filter_ensures;
                assert(init.filter(not_into(to)).contains(f[k]));
                init.lemma_filter_contains_rev(not_into(to), f[k]);
                let m = choose|m: int| 0 <= m < init.len() && init[m] == f[k];
                assert(conns[m].to != conns[conns.len() - 1].to);
            }
            let g = f.push(conns.last());
            assert forall|i: int, j: int|
                0 <= i < g.len() && 0 <= j < g.len() && #[trigger] g[i].to == #[trigger] g[j].to
                implies i == j by {
                if i < f.len() && j < f.len() {
                    assert(f[i].to == f[j].to);
                }
            }
        }
    }
}

/// Rewiring an input (drop what feeds it, then add the new wire) leaves the
/// input fed by exactly the new wire and keeps every input fed at most once.
pub proof fn lemma_rewire_single_feed(conns: Seq<Connection>, c: Connection)
    requires
        single_feed(conns),
    ensures
        single_feed(conns.filter(not_into(c.to)).push(c)),
        conns.filter(not_into(c.to)).push(c).contains(c),
{
    lemma_filter_keeps_wellformed(conns, c.to);
    lemma_retain_not_into(conns, c.to);
    let f = conns.filter(not_into(c.to));
    let g = f.push(c);
    assert forall|i: int, j: int|
        0 <= i < g.len() && 0 <= j < g.len() && #[trigger] g[i].to == #[trigger] g[j].to
        implies i == j by {
        if i < f.len() && j < f.len() {
            assert(f[i].to == f[j].to);
        } else if i < f.len() {
            assert(f[i].to == c.to);
        } else if j < f.len() {
            assert(f[j].to == c.to);
        }
    }
    assert(g[g.len() - 1] == c);
}

/// Inserting a wire twice has the same effect as inserting it once.
pub proof fn lemma_insert_idempotent(conns: Seq<Connection>, c: Connection)
    ensures
        ({
            let once = if conns.contains(c) { conns } else { conns.push(c) };
            let twice = if once.contains(c) { once } else { once.push(c) };
            twice == once && once.contains(c)
        }),
{
    if !conns.contains(c) {
        assert(conns.push(c)[conns.len() as int] == c);
    }
}

} // verus!
