//! Packing a selection of nodes into a new subgraph, and unpacking a
//! subgraph back into its parent level.
use vstd::prelude::*;
use vstd::seq_lib::lemma_no_dup_in_concat;

use crate::graph::{
    bridge_in_id, bridge_in_node_id, bridge_out_id, bridge_out_node_id, cmd_views, first_index_of,
    first_level_of, fresh_ids, inputs_of, keep_where, levels_wf, lemma_keep_where_subset,
    lemma_keep_where_take, lemma_only_wires_skeleton, only_wires_changed, outputs_of, path_of,
    port_ids, remove_node_cmds, routed, same_skeleton, lemma_path_skeleton, vec_contains_usize,
    ws_add, CommandView, GraphLevel, NewNode, NodeGraph, NodePorts, PortSlot, SubgraphInnerCmd,
    WireState, BRIDGE_IN_RAW,
};
use crate::ports::{port_type_to_idx, type_index, Connection, NodeId, PortDir, PortId, PortType};
use crate::text::{decimal_chars, with_number};

verus! {

broadcast use vstd::seq_lib::group_seq_properties;

/// A port of a subgraph (or portal) as configured by the user: a name and
/// a position in the port type picker.
pub struct SubgraphPortDef {
    pub name: String,
    pub port_type_idx: usize,
}

/// Both ends of the wire inside the selection.
pub open spec fn is_internal(sel: Seq<NodeId>) -> spec_fn(Connection) -> bool {
    |c: Connection| sel.contains(c.from.node) && sel.contains(c.to.node)
}

/// The wire enters the selection.
pub open spec fn is_incoming(sel: Seq<NodeId>) -> spec_fn(Connection) -> bool {
    |c: Connection| !sel.contains(c.from.node) && sel.contains(c.to.node)
}

/// The wire leaves the selection.
pub open spec fn is_outgoing(sel: Seq<NodeId>) -> spec_fn(Connection) -> bool {
    |c: Connection| sel.contains(c.from.node) && !sel.contains(c.to.node)
}

/// Neither end of the wire is in the selection.
pub open spec fn is_untouched(sel: Seq<NodeId>) -> spec_fn(Connection) -> bool {
    |c: Connection| !sel.contains(c.from.node) && !sel.contains(c.to.node)
}

/// Distinct source ports of the wires, in order of first appearance.
pub open spec fn dedup_sources(cs: Seq<Connection>) -> Seq<PortId>
    decreases cs.len(),
{
    if cs.len() == 0 {
        seq![]
    } else {
        let p = dedup_sources(cs.drop_last());
        if p.contains(cs.last().from) {
            p
        } else {
            p.push(cs.last().from)
        }
    }
}

/// Appends each wire of `cs` that is not already present.
pub open spec fn insert_all(s: Seq<Connection>, cs: Seq<Connection>) -> Seq<Connection>
    decreases cs.len(),
{
    if cs.len() == 0 {
        s
    } else {
        let p = insert_all(s, cs.drop_last());
        if p.contains(cs.last()) {
            p
        } else {
            p.push(cs.last())
        }
    }
}

/// Outer wires feeding the new subgraph: source `i` goes to input `i`.
pub open spec fn feed_wires(uin: Seq<PortId>, sub: NodeId) -> Seq<Connection> {
    Seq::new(uin.len(), |i: int| Connection {
        from: uin[i],
        to: PortId { node: sub, index: i as usize, dir: PortDir::Input },
    })
}

/// Outer wires leaving the new subgraph: the output of the wire's source
/// goes to the wire's old destination.
pub open spec fn fanout_wires(out: Seq<Connection>, uout: Seq<PortId>, sub: NodeId) -> Seq<Connection> {
    out.map_values(|c: Connection| Connection {
        from: PortId { node: sub, index: uout.index_of(c.from) as usize, dir: PortDir::Output },
        to: c.to,
    })
}

/// Inner wires from the input bridge to the old destinations.
pub open spec fn bridge_in_wires(inc: Seq<Connection>, uin: Seq<PortId>) -> Seq<Connection> {
    inc.map_values(|c: Connection| Connection {
        from: PortId { node: bridge_in_id(), index: uin.index_of(c.from) as usize, dir: PortDir::Output },
        to: c.to,
    })
}

/// Inner wires from the old sources to the output bridge.
pub open spec fn bridge_out_wires(out: Seq<Connection>, uout: Seq<PortId>) -> Seq<Connection> {
    out.map_values(|c: Connection| Connection {
        from: c.from,
        to: PortId { node: bridge_out_id(), index: uout.index_of(c.from) as usize, dir: PortDir::Input },
    })
}

/// Wires of the level that holds the new subgraph node, after packing the
/// nodes `sel` into subgraph `sub`.
pub open spec fn moved_outer(conns: Seq<Connection>, sel: Seq<NodeId>, sub: NodeId) -> Seq<Connection> {
    let inc = conns.filter(is_incoming(sel));
    let out = conns.filter(is_outgoing(sel));
    insert_all(
        conns.filter(is_untouched(sel)),
        feed_wires(dedup_sources(inc), sub) + fanout_wires(out, dedup_sources(out), sub),
    )
}

/// Wires inside the new subgraph after packing the nodes `sel`.
pub open spec fn moved_inner(conns: Seq<Connection>, sel: Seq<NodeId>) -> Seq<Connection> {
    let inc = conns.filter(is_incoming(sel));
    let out = conns.filter(is_outgoing(sel));
    insert_all(
        conns.filter(is_internal(sel)) + bridge_in_wires(inc, dedup_sources(inc)),
        bridge_out_wires(out, dedup_sources(out)),
    )
}

/// Wires from outside into subgraph input `b.from.index`, joined with the
/// inner wire `b` that leaves the input bridge.
pub open spec fn matches_in(b: Connection, ext: Seq<Connection>) -> Seq<Connection>
    decreases ext.len(),
{
    if ext.len() == 0 {
        seq![]
    } else {
        let p = matches_in(b, ext.drop_last());
        let e = ext.last();
        if e.to.index == b.from.index {
            p.push(Connection { from: e.from, to: b.to })
        } else {
            p
        }
    }
}

pub open spec fn compose_in(bi: Seq<Connection>, ext: Seq<Connection>) -> Seq<Connection>
    decreases bi.len(),
{
    if bi.len() == 0 {
        seq![]
    } else {
        compose_in(bi.drop_last(), ext) + matches_in(bi.last(), ext)
    }
}

/// Wires from subgraph output `b.to.index` to the outside, joined with the
/// inner wire `b` that enters the output bridge.
pub open spec fn matches_out(b: Connection, ext: Seq<Connection>) -> Seq<Connection>
    decreases ext.len(),
{
    if ext.len() == 0 {
        seq![]
    } else {
        let p = matches_out(b, ext.drop_last());
        let e = ext.last();
        if e.from.index == b.to.index {
            p.push(Connection { from: b.from, to: e.to })
        } else {
            p
        }
    }
}

pub open spec fn compose_out(bo: Seq<Connection>, ext: Seq<Connection>) -> Seq<Connection>
    decreases bo.len(),
{
    if bo.len() == 0 {
        seq![]
    } else {
        compose_out(bo.drop_last(), ext) + matches_out(bo.last(), ext)
    }
}

pub open spec fn not_touching(sub: NodeId) -> spec_fn(Connection) -> bool {
    |c: Connection| c.from.node != sub && c.to.node != sub
}

pub open spec fn into_node(sub: NodeId) -> spec_fn(Connection) -> bool {
    |c: Connection| c.to.node == sub
}

pub open spec fn out_of_node(sub: NodeId) -> spec_fn(Connection) -> bool {
    |c: Connection| c.from.node == sub
}

/// Inner wire that touches no bridge.
pub open spec fn bridgeless() -> spec_fn(Connection) -> bool {
    |c: Connection| c.from.node != bridge_in_id() && c.to.node != bridge_out_id()
}

/// Inner wire leaving the input bridge (and not entering the output bridge).
pub open spec fn from_bridge_in() -> spec_fn(Connection) -> bool {
    |c: Connection| c.from.node == bridge_in_id() && c.to.node != bridge_out_id()
}

/// Inner wire entering the output bridge (and not leaving the input bridge).
pub open spec fn to_bridge_out() -> spec_fn(Connection) -> bool {
    |c: Connection| c.from.node != bridge_in_id() && c.to.node == bridge_out_id()
}

/// Wires of the parent level after unpacking subgraph `sub`, whose parent
/// level had wires `outer` and whose inside had wires `inner`.
pub open spec fn unpacked(outer: Seq<Connection>, inner: Seq<Connection>, sub: NodeId) -> Seq<Connection> {
    outer.filter(not_touching(sub))
        + inner.filter(bridgeless())
        + compose_in(inner.filter(from_bridge_in()), outer.filter(into_node(sub)))
        + compose_out(inner.filter(to_bridge_out()), outer.filter(out_of_node(sub)))
}

// ---------------------------------------------------------------------------
// Lemmas
// ---------------------------------------------------------------------------

pub proof fn lemma_insert_all_contains(s: Seq<Connection>, cs: Seq<Connection>, x: Connection)
    ensures
        insert_all(s, cs).contains(x) <==> (s.contains(x) || cs.contains(x)),
    decreases cs.len(),
{
    if cs.len() > 0 {
        lemma_insert_all_contains(s, cs.drop_last(), x);
        let p = insert_all(s, cs.drop_last());
        if cs.drop_last().contains(x) {
            let i = choose|i: int| 0 <= i < cs.drop_last().len() && cs.drop_last()[i] == x;
            assert(cs[i] == x);
        }
        if cs.contains(x) && !cs.drop_last().contains(x) {
            let i = choose|i: int| 0 <= i < cs.len() && cs[i] == x;
            if i < cs.len() - 1 {
                assert(cs.drop_last()[i] == x);
            }
            assert(x == cs.last());
        }
        if !p.contains(cs.last()) {
            assert(p.push(cs.last())[p.len() as int] == cs.last());
        }
    }
}

pub proof fn lemma_dedup_sources(cs: Seq<Connection>)
    ensures
        dedup_sources(cs).no_duplicates(),
        forall|k: int| 0 <= k < cs.len() ==> dedup_sources(cs).contains(#[trigger] cs[k].from),
        forall|j: int| 0 <= j < dedup_sources(cs).len() ==> exists|k: int| 0 <= k < cs.len() && cs[k].from == #[trigger] dedup_sources(cs)[j],
    decreases cs.len(),
{
    if cs.len() > 0 {
        let init = cs.drop_last();
        lemma_dedup_sources(init);
        let p = dedup_sources(init);
        assert forall|k: int| 0 <= k < cs.len() implies dedup_sources(cs).contains(#[trigger] cs[k].from) by {
            if k < cs.len() - 1 {
                assert(init[k] == cs[k]);
                assert(p.contains(init[k].from));
                if !p.contains(cs.last().from) {
                    let i = choose|i: int| 0 <= i < p.len() && p[i] == init[k].from;
                    assert(p.push(cs.last().from)[i] == cs[k].from);
                }
            } else {
                if !p.contains(cs.last().from) {
                    assert(p.push(cs.last().from)[p.len() as int] == cs.last().from);
                }
            }
        }
        assert forall|j: int| 0 <= j < dedup_sources(cs).len() implies exists|k: int| 0 <= k < cs.len() && cs[k].from == #[trigger] dedup_sources(cs)[j] by {
            if j < p.len() {
                let k = choose|k: int| 0 <= k < init.len() && init[k].from == p[j];
                assert(cs[k] == init[k]);
            } else {
                assert(cs[cs.len() - 1].from == dedup_sources(cs)[j]);
            }
        }
    }
}

pub proof fn lemma_index_of_unique(s: Seq<PortId>, j: int)
    requires
        s.no_duplicates(),
        0 <= j < s.len(),
    ensures
        s.index_of(s[j]) == j,
{
    assert(s.contains(s[j]));
}

// ---------------------------------------------------------------------------
// Executable building blocks
// ---------------------------------------------------------------------------

/// Splits the wires into internal, incoming, outgoing and untouched ones
/// with respect to the node ids `sel`.
pub fn classify_connections(conns: &Vec<Connection>, sel: &Vec<NodeId>) -> (r: (Vec<Connection>, Vec<Connection>, Vec<Connection>, Vec<Connection>))
    ensures
        r.0@ == conns@.filter(is_internal(sel@)),
        r.1@ == conns@.filter(is_incoming(sel@)),
        r.2@ == conns@.filter(is_outgoing(sel@)),
        r.3@ == conns@.filter(is_untouched(sel@)),
{
    let mut internal: Vec<Connection> = Vec::new();
    let mut incoming: Vec<Connection> = Vec::new();
    let mut outgoing: Vec<Connection> = Vec::new();
    let mut untouched: Vec<Connection> = Vec::new();
    let mut k: usize = 0;
    while k < conns.len()
        invariant
            k <= conns.len(),
            internal@ == conns@.take(k as int).filter(is_internal(sel@)),
            incoming@ == conns@.take(k as int).filter(is_incoming(sel@)),
            outgoing@ == conns@.take(k as int).filter(is_outgoing(sel@)),
            untouched@ == conns@.take(k as int).filter(is_untouched(sel@)),
        decreases conns.len() - k,
    {
        let c = conns[k];
        proof {
            assert(conns@.take(k + 1) == conns@.take(k as int).push(c));
            conns@.take(k as int).lemma_filter_push(c, is_internal(sel@));
            conns@.take(k as int).lemma_filter_push(c, is_incoming(sel@));
            conns@.take(k as int).lemma_filter_push(c, is_outgoing(sel@));
            conns@.take(k as int).lemma_filter_push(c, is_untouched(sel@));
        }
        let from_inside = crate::graph::vec_contains_id(sel, c.from.node);
        let to_inside = crate::graph::vec_contains_id(sel, c.to.node);
        if from_inside && to_inside {
            internal.push(c);
        } else if !from_inside && to_inside {
            incoming.push(c);
        } else if from_inside && !to_inside {
            outgoing.push(c);
        } else {
            untouched.push(c);
        }
        k += 1;
    }
    proof {
        assert(conns@.take(conns@.len() as int) =~= conns@);
    }
    (internal, incoming, outgoing, untouched)
}

fn position_of_port(v: &Vec<PortId>, p: PortId) -> (r: Option<usize>)
    ensures
        match r {
            Some(i) => i < v@.len() && v@[i as int] == p,
            None => !v@.contains(p),
        },
{
    let mut i: usize = 0;
    while i < v.len()
        invariant
            i <= v.len(),
            forall|k: int| 0 <= k < i ==> v@[k] != p,
        decreases v.len() - i,
    {
        if v[i] == p {
            return Some(i);
        }
        i += 1;
    }
    None
}

/// Distinct sources of the wires (first appearance order), and for each
/// wire the position of its source among them.
#[verifier::rlimit(100)]
#[verifier::spinoff_prover]
pub fn dedup_wire_sources(cs: &Vec<Connection>) -> (r: (Vec<PortId>, Vec<usize>))
    ensures
        r.0@ == dedup_sources(cs@),
        r.1@.len() == cs@.len(),
        forall|k: int| 0 <= k < cs@.len() ==> #[trigger] r.1@[k] < r.0@.len() && r.0@[r.1@[k] as int] == cs@[k].from
            && r.1@[k] == r.0@.index_of(cs@[k].from),
{
    let mut uniq: Vec<PortId> = Vec::new();
    let mut map: Vec<usize> = Vec::new();
    let mut k: usize = 0;
    while k < cs.len()
        invariant
            k <= cs.len(),
            uniq@ == dedup_sources(cs@.take(k as int)),
            map@.len() == k,
            forall|m: int| 0 <= m < k ==> #[trigger] map@[m] < uniq@.len() && uniq@[map@[m] as int] == cs@[m].from,
        decreases cs.len() - k,
    {
        proof {
            assert(cs@.take(k + 1).drop_last() == cs@.take(k as int));
            assert(cs@.take(k + 1).last() == cs@[k as int]);
        }
        let from = cs[k].from;
        match position_of_port(&uniq, from) {
            Some(i) => {
                map.push(i);
            },
            None => {
                map.push(uniq.len());
                uniq.push(from);
            },
        }
        k += 1;
    }
    proof {
        assert(cs@.take(cs@.len() as int) =~= cs@);
        lemma_dedup_sources(cs@);
        assert forall|m: int| 0 <= m < cs@.len() implies #[trigger] map@[m] == uniq@.index_of(cs@[m].from) by {
            lemma_index_of_unique(uniq@, map@[m] as int);
        }
    }
    (uniq, map)
}

/// Type of the port as the ports table reports it, if the port exists.
pub open spec fn port_type_in(table: Seq<NodePorts>, p: PortId) -> Option<PortType> {
    let slots = match p.dir {
        PortDir::Input => inputs_of(table, p.node),
        PortDir::Output => outputs_of(table, p.node),
    };
    if first_index_of(port_ids(table), p.node) is Some && p.index < slots.len() {
        Some(slots[p.index as int].port_type)
    } else {
        None
    }
}

pub fn port_type_for(table: &Vec<NodePorts>, p: PortId) -> (r: Option<PortType>)
    ensures
        r == port_type_in(table@, p),
{
    match crate::graph::ports_entry(table, p.node) {
        Some(i) => {
            let slots = match p.dir {
                PortDir::Input => &table[i].inputs,
                PortDir::Output => &table[i].outputs,
            };
            if p.index < slots.len() {
                Some(slots[p.index].port_type)
            } else {
                None
            }
        },
        None => None,
    }
}

/// Type index given to the subgraph port made for source `p`.
pub open spec fn def_type_index(table: Seq<NodePorts>, p: PortId) -> nat {
    match port_type_in(table, p) {
        Some(t) => type_index(t),
        None => type_index(PortType::Untyped),
    }
}

/// The type index a subgraph port takes is that of its source port as the
/// ports table lists it (in the first entry of the source's node, on the
/// source's side); a source whose node or port is missing gives `Untyped`.
pub proof fn lemma_port_def_typed_after_source(table: Seq<NodePorts>, p: PortId)
    ensures
        forall|j: int| 0 <= j < table.len() && #[trigger] table[j].id == p.node && (forall|k: int| 0 <= k < j ==> table[k].id != p.node) ==> {
            let slots = if p.dir == PortDir::Input { table[j].inputs@ } else { table[j].outputs@ };
            def_type_index(table, p) == (if p.index < slots.len() {
                type_index(slots[p.index as int].port_type)
            } else {
                type_index(PortType::Untyped)
            })
        },
        (forall|j: int| 0 <= j < table.len() ==> #[trigger] table[j].id != p.node) ==> def_type_index(table, p)
            == type_index(PortType::Untyped),
{
    crate::graph::lemma_first_index_of(crate::graph::port_ids(table), p.node);
    assert forall|j: int| 0 <= j < table.len() && #[trigger] table[j].id == p.node && (forall|k: int| 0 <= k < j ==> table[k].id != p.node) implies {
        let slots = if p.dir == PortDir::Input { table[j].inputs@ } else { table[j].outputs@ };
        def_type_index(table, p) == (if p.index < slots.len() {
            type_index(slots[p.index as int].port_type)
        } else {
            type_index(PortType::Untyped)
        })
    } by {
        let ids = crate::graph::port_ids(table);
        assert(ids[j] == p.node);
        match crate::graph::first_index_of(ids, p.node) {
            Some(f) => {
                if f < j {
                    assert(table[f].id == ids[f]);
                }
                if j < f {
                    assert(ids[j] == table[j].id);
                }
                assert(f == j);
            },
            None => {
                assert(ids[j] == table[j].id);
            },
        }
    }
    if forall|j: int| 0 <= j < table.len() ==> #[trigger] table[j].id != p.node {
        let ids = crate::graph::port_ids(table);
        match crate::graph::first_index_of(ids, p.node) {
            Some(f) => {
                assert(ids[f] == table[f].id);
            },
            None => {},
        }
    }
}

/// Port definitions "`prefix`0", "`prefix`1", ... typed after the sources.
pub fn make_port_defs(table: &Vec<NodePorts>, sources: &Vec<PortId>, prefix: &str) -> (r: Vec<SubgraphPortDef>)
    ensures
        r@.len() == sources@.len(),
        forall|i: int| 0 <= i < sources@.len() ==> (#[trigger] r@[i]).name@ == prefix@ + decimal_chars(i as nat)
            && r@[i].port_type_idx == def_type_index(table@, sources@[i]),
{
    let mut r: Vec<SubgraphPortDef> = Vec::new();
    let mut i: usize = 0;
    while i < sources.len()
        invariant
            i <= sources.len(),
            r@.len() == i,
            forall|k: int| 0 <= k < i ==> (#[trigger] r@[k]).name@ == prefix@ + decimal_chars(k as nat)
                && r@[k].port_type_idx == def_type_index(table@, sources@[k]),
        decreases sources.len() - i,
    {
        let t = match port_type_for(table, sources[i]) {
            Some(t) => t,
            None => PortType::Untyped,
        };
        r.push(SubgraphPortDef { name: with_number(prefix, i), port_type_idx: port_type_to_idx(t) });
        i += 1;
    }
    r
}

/// Port slots for a list of port definitions.
pub fn slots_for_defs(defs: &Vec<SubgraphPortDef>) -> (r: Vec<PortSlot>)
    ensures
        r@.len() == defs@.len(),
        forall|i: int| 0 <= i < defs@.len() ==> (#[trigger] r@[i]).port_type == crate::ports::type_at_index(defs@[i].port_type_idx as nat)
            && !r@[i].disabled,
{
    let mut r: Vec<PortSlot> = Vec::new();
    let mut i: usize = 0;
    while i < defs.len()
        invariant
            i <= defs.len(),
            r@.len() == i,
            forall|k: int| 0 <= k < i ==> (#[trigger] r@[k]).port_type == crate::ports::type_at_index(defs@[k].port_type_idx as nat)
                && !r@[k].disabled,
        decreases defs.len() - i,
    {
        r.push(PortSlot { port_type: crate::ports::port_type_from_idx(defs[i].port_type_idx), disabled: false });
        i += 1;
    }
    r
}


// ---------------------------------------------------------------------------
// Packing then unpacking restores the wires
// ---------------------------------------------------------------------------

pub proof fn lemma_filter_mem(s: Seq<Connection>, p: spec_fn(Connection) -> bool, x: Connection)
    ensures
        s.filter(p).contains(x) <==> (s.contains(x) && p(x)),
{
    broadcast use vstd::seq_lib::group_filter_ensures;

    if s.contains(x) && p(x) {
        let i = choose|i: int| 0 <= i < s.len() && s[i] == x;
        s.lemma_filter_contains(p, i);
    }
    if s.filter(p).contains(x) {
        s.lemma_filter_contains_rev(p, x);
        let i = choose|i: int| 0 <= i < s.filter(p).len() && s.filter(p)[i] == x;
        s.lemma_filter_pred(p, i);
    }
}

proof fn lemma_matches_in_intro(b: Connection, ext: Seq<Connection>, e: Connection)
    requires
        ext.contains(e),
        e.to.index == b.from.index,
    ensures
        matches_in(b, ext).contains(Connection { from: e.from, to: b.to }),
    decreases ext.len(),
{
    let x = Connection { from: e.from, to: b.to };
    let p = matches_in(b, ext.drop_last());
    if ext.last() == e {
        assert(p.push(x)[p.len() as int] == x);
    } else {
        let i = choose|i: int| 0 <= i < ext.len() && ext[i] == e;
        assert(ext.drop_last()[i] == e);
        lemma_matches_in_intro(b, ext.drop_last(), e);
        let j = choose|j: int| 0 <= j < p.len() && p[j] == x;
        if ext.last().to.index == b.from.index {
            assert(p.push(Connection { from: ext.last().from, to: b.to })[j] == x);
        }
    }
}

proof fn lemma_matches_in_elim(b: Connection, ext: Seq<Connection>, x: Connection) -> (e: Connection)
    requires
        matches_in(b, ext).contains(x),
    ensures
        ext.contains(e),
        e.to.index == b.from.index,
        x == (Connection { from: e.from, to: b.to }),
    decreases ext.len(),
{
    let p = matches_in(b, ext.drop_last());
    let last = ext.last();
    if last.to.index == b.from.index && x == (Connection { from: last.from, to: b.to }) {
        assert(ext[ext.len() - 1] == last);
        last
    } else {
        if last.to.index == b.from.index {
            let j = choose|j: int| 0 <= j < p.push(Connection { from: last.from, to: b.to }).len()
                && p.push(Connection { from: last.from, to: b.to })[j] == x;
            assert(p[j] == x);
        }
        let e = lemma_matches_in_elim(b, ext.drop_last(), x);
        let i = choose|i: int| 0 <= i < ext.drop_last().len() && ext.drop_last()[i] == e;
        assert(ext[i] == e);
        e
    }
}

proof fn lemma_compose_in_intro(bi: Seq<Connection>, ext: Seq<Connection>, b: Connection, e: Connection)
    requires
        bi.contains(b),
        ext.contains(e),
        e.to.index == b.from.index,
    ensures
        compose_in(bi, ext).contains(Connection { from: e.from, to: b.to }),
    decreases bi.len(),
{
    let x = Connection { from: e.from, to: b.to };
    let prev = compose_in(bi.drop_last(), ext);
    let m = matches_in(bi.last(), ext);
    if bi.last() == b {
        lemma_matches_in_intro(b, ext, e);
        let j = choose|j: int| 0 <= j < m.len() && m[j] == x;
        assert((prev + m)[prev.len() + j] == x);
    } else {
        let i = choose|i: int| 0 <= i < bi.len() && bi[i] == b;
        assert(bi.drop_last()[i] == b);
        lemma_compose_in_intro(bi.drop_last(), ext, b, e);
        let j = choose|j: int| 0 <= j < prev.len() && prev[j] == x;
        assert((prev + m)[j] == x);
    }
}

proof fn lemma_compose_in_elim(bi: Seq<Connection>, ext: Seq<Connection>, x: Connection) -> (r: (Connection, Connection))
    requires
        compose_in(bi, ext).contains(x),
    ensures
        bi.contains(r.0),
        ext.contains(r.1),
        r.1.to.index == r.0.from.index,
        x == (Connection { from: r.1.from, to: r.0.to }),
    decreases bi.len(),
{
    let prev = compose_in(bi.drop_last(), ext);
    let m = matches_in(bi.last(), ext);
    let j = choose|j: int| 0 <= j < (prev + m).len() && (prev + m)[j] == x;
    if j < prev.len() {
        assert(prev[j] == x);
        let r = lemma_compose_in_elim(bi.drop_last(), ext, x);
        let i = choose|i: int| 0 <= i < bi.drop_last().len() && bi.drop_last()[i] == r.0;
        assert(bi[i] == r.0);
        r
    } else {
        assert(m[j - prev.len()] == x);
        let e = lemma_matches_in_elim(bi.last(), ext, x);
        assert(bi[bi.len() - 1] == bi.last());
        (bi.last(), e)
    }
}

proof fn lemma_matches_out_intro(b: Connection, ext: Seq<Connection>, e: Connection)
    requires
        ext.contains(e),
        e.from.index == b.to.index,
    ensures
        matches_out(b, ext).contains(Connection { from: b.from, to: e.to }),
    decreases ext.len(),
{
    let x = Connection { from: b.from, to: e.to };
    let p = matches_out(b, ext.drop_last());
    if ext.last() == e {
        assert(p.push(x)[p.len() as int] == x);
    } else {
        let i = choose|i: int| 0 <= i < ext.len() && ext[i] == e;
        assert(ext.drop_last()[i] == e);
        lemma_matches_out_intro(b, ext.drop_last(), e);
        let j = choose|j: int| 0 <= j < p.len() && p[j] == x;
        if ext.last().from.index == b.to.index {
            assert(p.push(Connection { from: b.from, to: ext.last().to })[j] == x);
        }
    }
}

proof fn lemma_matches_out_elim(b: Connection, ext: Seq<Connection>, x: Connection) -> (e: Connection)
    requires
        matches_out(b, ext).contains(x),
    ensures
        ext.contains(e),
        e.from.index == b.to.index,
        x == (Connection { from: b.from, to: e.to }),
    decreases ext.len(),
{
    let p = matches_out(b, ext.drop_last());
    let last = ext.last();
    if last.from.index == b.to.index && x == (Connection { from: b.from, to: last.to }) {
        assert(ext[ext.len() - 1] == last);
        last
    } else {
        if last.from.index == b.to.index {
            let j = choose|j: int| 0 <= j < p.push(Connection { from: b.from, to: last.to }).len()
                && p.push(Connection { from: b.from, to: last.to })[j] == x;
            assert(p[j] == x);
        }
        let e = lemma_matches_out_elim(b, ext.drop_last(), x);
        let i = choose|i: int| 0 <= i < ext.drop_last().len() && ext.drop_last()[i] == e;
        assert(ext[i] == e);
        e
    }
}

proof fn lemma_compose_out_intro(bo: Seq<Connection>, ext: Seq<Connection>, b: Connection, e: Connection)
    requires
        bo.contains(b),
        ext.contains(e),
        e.from.index == b.to.index,
    ensures
        compose_out(bo, ext).contains(Connection { from: b.from, to: e.to }),
    decreases bo.len(),
{
    let x = Connection { from: b.from, to: e.to };
    let prev = compose_out(bo.drop_last(), ext);
    let m = matches_out(bo.last(), ext);
    if bo.last() == b {
        lemma_matches_out_intro(b, ext, e);
        let j = choose|j: int| 0 <= j < m.len() && m[j] == x;
        assert((prev + m)[prev.len() + j] == x);
    } else {
        let i = choose|i: int| 0 <= i < bo.len() && bo[i] == b;
        assert(bo.drop_last()[i] == b);
        lemma_compose_out_intro(bo.drop_last(), ext, b, e);
        let j = choose|j: int| 0 <= j < prev.len() && prev[j] == x;
        assert((prev + m)[j] == x);
    }
}

proof fn lemma_compose_out_elim(bo: Seq<Connection>, ext: Seq<Connection>, x: Connection) -> (r: (Connection, Connection))
    requires
        compose_out(bo, ext).contains(x),
    ensures
        bo.contains(r.0),
        ext.contains(r.1),
        r.1.from.index == r.0.to.index,
        x == (Connection { from: r.0.from, to: r.1.to }),
    decreases bo.len(),
{
    let prev = compose_out(bo.drop_last(), ext);
    let m = matches_out(bo.last(), ext);
    let j = choose|j: int| 0 <= j < (prev + m).len() && (prev + m)[j] == x;
    if j < prev.len() {
        assert(prev[j] == x);
        let r = lemma_compose_out_elim(bo.drop_last(), ext, x);
        let i = choose|i: int| 0 <= i < bo.drop_last().len() && bo.drop_last()[i] == r.0;
        assert(bo[i] == r.0);
        r
    } else {
        assert(m[j - prev.len()] == x);
        let e = lemma_matches_out_elim(bo.last(), ext, x);
        assert(bo[bo.len() - 1] == bo.last());
        (bo.last(), e)
    }
}

pub proof fn lemma_dedup_len(cs: Seq<Connection>)
    ensures
        dedup_sources(cs).len() <= cs.len(),
    decreases cs.len(),
{
    if cs.len() > 0 {
        lemma_dedup_len(cs.drop_last());
    }
}

proof fn lemma_push_no_dup(a: Seq<Connection>, x: Connection)
    requires
        a.no_duplicates(),
        !a.contains(x),
    ensures
        a.push(x).no_duplicates(),
{
    let b = a.push(x);
    assert forall|i: int, j: int| 0 <= i < b.len() && 0 <= j < b.len() && i != j implies b[i] != b[j] by {
        if i < a.len() && j < a.len() {
            assert(b[i] == a[i] && b[j] == a[j]);
        } else if i < a.len() {
            assert(b[i] == a[i]);
        } else {
            assert(b[j] == a[j]);
        }
    }
}

proof fn lemma_filter_no_dup(s: Seq<Connection>, p: spec_fn(Connection) -> bool)
    requires
        s.no_duplicates(),
    ensures
        s.filter(p).no_duplicates(),
    decreases s.len(),
{
    reveal(Seq::filter);
    if s.len() > 0 {
        let d = s.drop_last();
        assert(d.no_duplicates()) by {
            assert forall|i: int, j: int| 0 <= i < d.len() && 0 <= j < d.len() && i != j implies d[i] != d[j] by {
                assert(d[i] == s[i] && d[j] == s[j]);
            }
        }
        lemma_filter_no_dup(d, p);
        if p(s.last()) {
            lemma_filter_mem(d, p, s.last());
            if d.contains(s.last()) {
                let k = choose|k: int| 0 <= k < d.len() && d[k] == s.last();
                assert(s[k] == s[s.len() - 1]);
            }
            lemma_push_no_dup(d.filter(p), s.last());
        }
    }
}

proof fn lemma_insert_all_no_dup(s: Seq<Connection>, cs: Seq<Connection>)
    requires
        s.no_duplicates(),
    ensures
        insert_all(s, cs).no_duplicates(),
    decreases cs.len(),
{
    if cs.len() > 0 {
        lemma_insert_all_no_dup(s, cs.drop_last());
        let p = insert_all(s, cs.drop_last());
        if !p.contains(cs.last()) {
            lemma_push_no_dup(p, cs.last());
        }
    }
}

/// Wires that follow an input-bridge wire have at most one match.
proof fn lemma_matches_in_small(b: Connection, ext: Seq<Connection>)
    requires
        ext.no_duplicates(),
        forall|e1: Connection, e2: Connection| #![trigger ext.contains(e1), ext.contains(e2)] ext.contains(e1) && ext.contains(e2) && e1.to.index == e2.to.index
            ==> e1 == e2,
    ensures
        matches_in(b, ext).len() <= 1,
    decreases ext.len(),
{
    if ext.len() > 0 {
        let d = ext.drop_last();
        assert(d.no_duplicates()) by {
            assert forall|i: int, j: int| 0 <= i < d.len() && 0 <= j < d.len() && i != j implies d[i] != d[j] by {
                assert(d[i] == ext[i] && d[j] == ext[j]);
            }
        }
        assert forall|e1: Connection, e2: Connection| #![trigger d.contains(e1), d.contains(e2)] d.contains(e1) && d.contains(e2) && e1.to.index == e2.to.index
            implies e1 == e2 by {
            let i = choose|i: int| 0 <= i < d.len() && d[i] == e1;
            let j = choose|j: int| 0 <= j < d.len() && d[j] == e2;
            assert(ext[i] == e1 && ext[j] == e2);
            assert(ext.contains(e1) && ext.contains(e2));
        }
        lemma_matches_in_small(b, d);
        let p = matches_in(b, d);
        let e = ext.last();
        if e.to.index == b.from.index && p.len() == 1 {
            assert(p.contains(p[0]));
            let e2 = lemma_matches_in_elim(b, d, p[0]);
            let k = choose|k: int| 0 <= k < d.len() && d[k] == e2;
            assert(ext[k] == e2);
            assert(ext.contains(e2));
            assert(ext.contains(e));
            assert(e2 == e);
            assert(ext[k] == ext[ext.len() - 1]);
        }
    }
}

proof fn lemma_compose_in_no_dup(bi: Seq<Connection>, ext: Seq<Connection>)
    requires
        bi.no_duplicates(),
        ext.no_duplicates(),
        forall|e1: Connection, e2: Connection| #![trigger ext.contains(e1), ext.contains(e2)] ext.contains(e1) && ext.contains(e2) && e1.to.index == e2.to.index
            ==> e1 == e2,
        forall|e1: Connection, e2: Connection| #![trigger ext.contains(e1), ext.contains(e2)] ext.contains(e1) && ext.contains(e2) && e1.from == e2.from
            ==> e1.to.index == e2.to.index,
        forall|b1: Connection, b2: Connection| #![trigger bi.contains(b1), bi.contains(b2)] bi.contains(b1) && bi.contains(b2) && b1.from.index == b2.from.index
            && b1.to == b2.to ==> b1 == b2,
    ensures
        compose_in(bi, ext).no_duplicates(),
    decreases bi.len(),
{
    if bi.len() > 0 {
        let d = bi.drop_last();
        let b = bi.last();
        assert(d.no_duplicates()) by {
            assert forall|i: int, j: int| 0 <= i < d.len() && 0 <= j < d.len() && i != j implies d[i] != d[j] by {
                assert(d[i] == bi[i] && d[j] == bi[j]);
            }
        }
        assert forall|b1: Connection, b2: Connection| #![trigger d.contains(b1), d.contains(b2)] d.contains(b1) && d.contains(b2) && b1.from.index == b2.from.index
            && b1.to == b2.to implies b1 == b2 by {
            let i = choose|i: int| 0 <= i < d.len() && d[i] == b1;
            let j = choose|j: int| 0 <= j < d.len() && d[j] == b2;
            assert(bi[i] == b1 && bi[j] == b2);
            assert(bi.contains(b1) && bi.contains(b2));
        }
        lemma_compose_in_no_dup(d, ext);
        let p = compose_in(d, ext);
        let m = matches_in(b, ext);
        lemma_matches_in_small(b, ext);
        assert forall|i: int, j: int| 0 <= i < p.len() && 0 <= j < m.len() implies p[i] != m[j] by {
            if p[i] == m[j] {
                let x = m[j];
                assert(p.contains(x));
                assert(m.contains(x));
                let (b1, e1) = lemma_compose_in_elim(d, ext, x);
                let e2 = lemma_matches_in_elim(b, ext, x);
                assert(e1.to.index == e2.to.index);
                let k = choose|k: int| 0 <= k < d.len() && d[k] == b1;
                assert(bi[k] == b1);
                assert(bi.contains(b1));
                assert(bi.contains(b));
                assert(b1 == b);
                assert(bi[k] == bi[bi.len() - 1]);
            }
        }
        lemma_no_dup_in_concat(p, m);
    }
}

/// Wires that precede an output-bridge wire, matched by output index.
proof fn lemma_matches_out_no_dup(b: Connection, ext: Seq<Connection>)
    requires
        ext.no_duplicates(),
        forall|e1: Connection, e2: Connection| #![trigger ext.contains(e1), ext.contains(e2)] ext.contains(e1) && ext.contains(e2) && e1.from.index == e2.from.index
            && e1.to == e2.to ==> e1 == e2,
    ensures
        matches_out(b, ext).no_duplicates(),
    decreases ext.len(),
{
    if ext.len() > 0 {
        let d = ext.drop_last();
        assert(d.no_duplicates()) by {
            assert forall|i: int, j: int| 0 <= i < d.len() && 0 <= j < d.len() && i != j implies d[i] != d[j] by {
                assert(d[i] == ext[i] && d[j] == ext[j]);
            }
        }
        assert forall|e1: Connection, e2: Connection| #![trigger d.contains(e1), d.contains(e2)] d.contains(e1) && d.contains(e2) && e1.from.index == e2.from.index
            && e1.to == e2.to implies e1 == e2 by {
            let i = choose|i: int| 0 <= i < d.len() && d[i] == e1;
            let j = choose|j: int| 0 <= j < d.len() && d[j] == e2;
            assert(ext[i] == e1 && ext[j] == e2);
            assert(ext.contains(e1) && ext.contains(e2));
        }
        lemma_matches_out_no_dup(b, d);
        let p = matches_out(b, d);
        let e = ext.last();
        if e.from.index == b.to.index {
            let x = Connection { from: b.from, to: e.to };
            if p.contains(x) {
                let e2 = lemma_matches_out_elim(b, d, x);
                let k = choose|k: int| 0 <= k < d.len() && d[k] == e2;
                assert(ext[k] == e2);
                assert(ext.contains(e2));
                assert(ext.contains(e));
                assert(e2 == e);
                assert(ext[k] == ext[ext.len() - 1]);
            }
            lemma_push_no_dup(p, x);
        }
    }
}

proof fn lemma_compose_out_no_dup(bo: Seq<Connection>, ext: Seq<Connection>)
    requires
        bo.no_duplicates(),
        ext.no_duplicates(),
        forall|e1: Connection, e2: Connection| #![trigger ext.contains(e1), ext.contains(e2)] ext.contains(e1) && ext.contains(e2) && e1.from.index == e2.from.index
            && e1.to == e2.to ==> e1 == e2,
        forall|b1: Connection, b2: Connection| #![trigger bo.contains(b1), bo.contains(b2)] bo.contains(b1) && bo.contains(b2) && b1.from == b2.from ==> b1 == b2,
    ensures
        compose_out(bo, ext).no_duplicates(),
    decreases bo.len(),
{
    if bo.len() > 0 {
        let d = bo.drop_last();
        let b = bo.last();
        assert(d.no_duplicates()) by {
            assert forall|i: int, j: int| 0 <= i < d.len() && 0 <= j < d.len() && i != j implies d[i] != d[j] by {
                assert(d[i] == bo[i] && d[j] == bo[j]);
            }
        }
        assert forall|b1: Connection, b2: Connection| #![trigger d.contains(b1), d.contains(b2)] d.contains(b1) && d.contains(b2) && b1.from == b2.from implies b1
            == b2 by {
            let i = choose|i: int| 0 <= i < d.len() && d[i] == b1;
            let j = choose|j: int| 0 <= j < d.len() && d[j] == b2;
            assert(bo[i] == b1 && bo[j] == b2);
            assert(bo.contains(b1) && bo.contains(b2));
        }
        lemma_compose_out_no_dup(d, ext);
        let p = compose_out(d, ext);
        let m = matches_out(b, ext);
        lemma_matches_out_no_dup(b, ext);
        assert forall|i: int, j: int| 0 <= i < p.len() && 0 <= j < m.len() implies p[i] != m[j] by {
            if p[i] == m[j] {
                let x = m[j];
                assert(p.contains(x));
                assert(m.contains(x));
                let (b1, e1) = lemma_compose_out_elim(d, ext, x);
                let e2 = lemma_matches_out_elim(b, ext, x);
                let k = choose|k: int| 0 <= k < d.len() && d[k] == b1;
                assert(bo[k] == b1);
                assert(bo.contains(b1));
                assert(bo.contains(b));
                assert(b1 == b);
                assert(bo[k] == bo[bo.len() - 1]);
            }
        }
        lemma_no_dup_in_concat(p, m);
    }
}

/// Where the wires of the two levels that packing produces come from.
proof fn lemma_moved_parts(conns: Seq<Connection>, sel: Seq<NodeId>, sn: NodeId)
    requires
        avoids_node(conns, sn),
        !sel.contains(bridge_in_id()),
        !sel.contains(bridge_out_id()),
        sn != bridge_in_id(),
        sn != bridge_out_id(),
        conns.len() < usize::MAX,
        conns.no_duplicates(),
    ensures
        ({
            let inc = conns.filter(is_incoming(sel));
            let out = conns.filter(is_outgoing(sel));
            let uin = dedup_sources(inc);
            let uout = dedup_sources(out);
            let f = feed_wires(uin, sn);
            let a2 = fanout_wires(out, uout, sn);
            let bi = bridge_in_wires(inc, uin);
            let bo = bridge_out_wires(out, uout);
            let outer = moved_outer(conns, sel, sn);
            let inner = moved_inner(conns, sel);
            &&& outer.no_duplicates()
            &&& inner.no_duplicates()
            &&& uin.no_duplicates()
            &&& uin.len() < usize::MAX
            &&& forall|x: Connection| #[trigger] outer.contains(x) && not_touching(sn)(x) ==> is_untouched(sel)(x)
                && conns.contains(x)
            &&& forall|x: Connection| #[trigger] outer.contains(x) && into_node(sn)(x) ==> exists|i: int|
                0 <= i < uin.len() && x == #[trigger] f[i]
            &&& forall|x: Connection| #[trigger] outer.contains(x) && out_of_node(sn)(x) ==> exists|k: int|
                0 <= k < out.len() && x == #[trigger] a2[k]
            &&& forall|x: Connection| #[trigger] inner.contains(x) && bridgeless()(x) ==> is_internal(sel)(x)
                && conns.contains(x)
            &&& forall|x: Connection| #[trigger] inner.contains(x) && from_bridge_in()(x) ==> exists|k: int|
                0 <= k < inc.len() && x == #[trigger] bi[k]
            &&& forall|x: Connection| #[trigger] inner.contains(x) && to_bridge_out()(x) ==> exists|k: int|
                0 <= k < out.len() && x == #[trigger] bo[k]
        }),
{
    broadcast use vstd::seq_lib::group_filter_ensures;

    let inc = conns.filter(is_incoming(sel));
    let out = conns.filter(is_outgoing(sel));
    let uin = dedup_sources(inc);
    let uout = dedup_sources(out);
    let u = conns.filter(is_untouched(sel));
    let it = conns.filter(is_internal(sel));
    let f = feed_wires(uin, sn);
    let a2 = fanout_wires(out, uout, sn);
    let bi = bridge_in_wires(inc, uin);
    let bo = bridge_out_wires(out, uout);
    let outer = moved_outer(conns, sel, sn);
    let inner = moved_inner(conns, sel);
    assert(outer == insert_all(u, f + a2));
    assert(inner == insert_all(it + bi, bo));
    lemma_dedup_sources(inc);
    lemma_dedup_sources(out);
    lemma_dedup_len(inc);
    lemma_dedup_len(out);
    lemma_filter_no_dup(conns, is_untouched(sel));
    lemma_filter_no_dup(conns, is_internal(sel));
    lemma_filter_no_dup(conns, is_incoming(sel));
    lemma_insert_all_no_dup(u, f + a2);
    // the input-bridge wires are distinct and apart from the inside wires
    assert(bi.no_duplicates()) by {
        assert forall|i: int, j: int| 0 <= i < bi.len() && 0 <= j < bi.len() && i != j implies bi[i] != bi[j] by {
            if bi[i] == bi[j] {
                assert(inc.contains(inc[i]) && inc.contains(inc[j]));
                assert(uin.contains(inc[i].from) && uin.contains(inc[j].from));
                assert(uin[uin.index_of(inc[i].from)] == inc[i].from);
                assert(uin[uin.index_of(inc[j].from)] == inc[j].from);
                assert(inc[i] == inc[j]);
            }
        }
    }
    assert forall|i: int, j: int| 0 <= i < it.len() && 0 <= j < bi.len() implies it[i] != bi[j] by {
        assert(it.contains(it[i]));
        lemma_filter_mem(conns, is_internal(sel), it[i]);
    }
    lemma_no_dup_in_concat(it, bi);
    lemma_insert_all_no_dup(it + bi, bo);

    assert forall|x: Connection| #[trigger] outer.contains(x) && not_touching(sn)(x) implies is_untouched(sel)(x)
        && conns.contains(x) by {
        lemma_insert_all_contains(u, f + a2, x);
        if (f + a2).contains(x) {
            let m = choose|m: int| 0 <= m < (f + a2).len() && (f + a2)[m] == x;
            if m < f.len() {
                assert(f[m] == x);
            } else {
                assert(a2[m - f.len()] == x);
            }
        }
        lemma_filter_mem(conns, is_untouched(sel), x);
    }
    assert forall|x: Connection| #[trigger] outer.contains(x) && into_node(sn)(x) implies exists|i: int|
        0 <= i < uin.len() && x == #[trigger] f[i] by {
        lemma_insert_all_contains(u, f + a2, x);
        if u.contains(x) {
            lemma_filter_mem(conns, is_untouched(sel), x);
            let q = choose|q: int| 0 <= q < conns.len() && conns[q] == x;
        }
        let m = choose|m: int| 0 <= m < (f + a2).len() && (f + a2)[m] == x;
        if m >= f.len() {
            assert(a2[m - f.len()] == x);
            assert(out.contains(out[m - f.len()]));
            lemma_filter_mem(conns, is_outgoing(sel), out[m - f.len()]);
            let q = choose|q: int| 0 <= q < conns.len() && conns[q] == out[m - f.len()];
        }
        assert(f[m] == x);
    }
    assert forall|x: Connection| #[trigger] outer.contains(x) && out_of_node(sn)(x) implies exists|k: int|
        0 <= k < out.len() && x == #[trigger] a2[k] by {
        lemma_insert_all_contains(u, f + a2, x);
        if u.contains(x) {
            lemma_filter_mem(conns, is_untouched(sel), x);
            let q = choose|q: int| 0 <= q < conns.len() && conns[q] == x;
        }
        let m = choose|m: int| 0 <= m < (f + a2).len() && (f + a2)[m] == x;
        if m < f.len() {
            assert(f[m] == x);
            let k = choose|k: int| 0 <= k < inc.len() && inc[k].from == #[trigger] uin[m];
            assert(inc.contains(inc[k]));
            lemma_filter_mem(conns, is_incoming(sel), inc[k]);
            let q = choose|q: int| 0 <= q < conns.len() && conns[q] == inc[k];
        }
        assert(a2[m - f.len()] == x);
    }
    assert forall|x: Connection| #[trigger] inner.contains(x) && bridgeless()(x) implies is_internal(sel)(x)
        && conns.contains(x) by {
        lemma_insert_all_contains(it + bi, bo, x);
        if bo.contains(x) {
            let m = choose|m: int| 0 <= m < bo.len() && bo[m] == x;
        }
        let m = choose|m: int| 0 <= m < (it + bi).len() && (it + bi)[m] == x;
        if m >= it.len() {
            assert(bi[m - it.len()] == x);
        }
        assert(it[m] == x);
        lemma_filter_mem(conns, is_internal(sel), x);
    }
    assert forall|x: Connection| #[trigger] inner.contains(x) && from_bridge_in()(x) implies exists|k: int|
        0 <= k < inc.len() && x == #[trigger] bi[k] by {
        lemma_insert_all_contains(it + bi, bo, x);
        if bo.contains(x) {
            let m = choose|m: int| 0 <= m < bo.len() && bo[m] == x;
        }
        let m = choose|m: int| 0 <= m < (it + bi).len() && (it + bi)[m] == x;
        if m < it.len() {
            assert(it[m] == x);
            assert(it.contains(x));
            lemma_filter_mem(conns, is_internal(sel), x);
        }
        assert(bi[m - it.len()] == x);
    }
    assert forall|x: Connection| #[trigger] inner.contains(x) && to_bridge_out()(x) implies exists|k: int|
        0 <= k < out.len() && x == #[trigger] bo[k] by {
        lemma_insert_all_contains(it + bi, bo, x);
        if (it + bi).contains(x) {
            let m = choose|m: int| 0 <= m < (it + bi).len() && (it + bi)[m] == x;
            if m < it.len() {
                assert(it[m] == x);
                assert(it.contains(x));
                lemma_filter_mem(conns, is_internal(sel), x);
            } else {
                assert(bi[m - it.len()] == x);
            }
        }
        let m = choose|m: int| 0 <= m < bo.len() && bo[m] == x;
    }
}

/// Two sequences without repeats that hold the same items have the same
/// multiset.
proof fn lemma_same_items_multiset(a: Seq<Connection>, b: Seq<Connection>)
    requires
        a.no_duplicates(),
        b.no_duplicates(),
        forall|x: Connection| a.contains(x) <==> b.contains(x),
    ensures
        a.to_multiset() =~= b.to_multiset(),
{
    broadcast use vstd::seq_lib::group_to_multiset_ensures;

    a.lemma_multiset_has_no_duplicates();
    b.lemma_multiset_has_no_duplicates();
    assert forall|x: Connection| a.to_multiset().count(x) == b.to_multiset().count(x) by {
        if a.contains(x) {
            assert(a.to_multiset().contains(x));
            assert(b.to_multiset().contains(x));
        } else {
            assert(!b.contains(x));
        }
    }
}

/// Unpacking what packing produced lists no wire twice when the level
/// listed none twice.
proof fn lemma_unpacked_no_dup(conns: Seq<Connection>, sel: Seq<NodeId>, sn: NodeId)
    requires
        avoids_node(conns, sn),
        !sel.contains(bridge_in_id()),
        !sel.contains(bridge_out_id()),
        sn != bridge_in_id(),
        sn != bridge_out_id(),
        conns.len() < usize::MAX,
        conns.no_duplicates(),
    ensures
        unpacked(moved_outer(conns, sel, sn), moved_inner(conns, sel), sn).no_duplicates(),
{
    let inc = conns.filter(is_incoming(sel));
    let out = conns.filter(is_outgoing(sel));
    let uin = dedup_sources(inc);
    let uout = dedup_sources(out);
    let f = feed_wires(uin, sn);
    let a2 = fanout_wires(out, uout, sn);
    let bi = bridge_in_wires(inc, uin);
    let bo = bridge_out_wires(out, uout);
    let outer = moved_outer(conns, sel, sn);
    let inner = moved_inner(conns, sel);
    lemma_moved_parts(conns, sel, sn);
    lemma_dedup_sources(inc);
    lemma_dedup_sources(out);
    let p0 = outer.filter(not_touching(sn));
    let p1 = inner.filter(bridgeless());
    let bif = inner.filter(from_bridge_in());
    let eif = outer.filter(into_node(sn));
    let bof = inner.filter(to_bridge_out());
    let eof = outer.filter(out_of_node(sn));
    let p2 = compose_in(bif, eif);
    let p3 = compose_out(bof, eof);
    lemma_filter_no_dup(outer, not_touching(sn));
    lemma_filter_no_dup(inner, bridgeless());
    lemma_filter_no_dup(inner, from_bridge_in());
    lemma_filter_no_dup(outer, into_node(sn));
    lemma_filter_no_dup(inner, to_bridge_out());
    lemma_filter_no_dup(outer, out_of_node(sn));

    assert forall|e1: Connection, e2: Connection| #![trigger eif.contains(e1), eif.contains(e2)] eif.contains(e1)
        && eif.contains(e2) && e1.to.index == e2.to.index implies e1 == e2 by {
        lemma_filter_mem(outer, into_node(sn), e1);
        lemma_filter_mem(outer, into_node(sn), e2);
        let i1 = choose|i: int| 0 <= i < uin.len() && e1 == #[trigger] f[i];
        let i2 = choose|i: int| 0 <= i < uin.len() && e2 == #[trigger] f[i];
    }
    assert forall|e1: Connection, e2: Connection| #![trigger eif.contains(e1), eif.contains(e2)] eif.contains(e1)
        && eif.contains(e2) && e1.from == e2.from implies e1.to.index == e2.to.index by {
        lemma_filter_mem(outer, into_node(sn), e1);
        lemma_filter_mem(outer, into_node(sn), e2);
        let i1 = choose|i: int| 0 <= i < uin.len() && e1 == #[trigger] f[i];
        let i2 = choose|i: int| 0 <= i < uin.len() && e2 == #[trigger] f[i];
        assert(uin[i1] == uin[i2]);
    }
    assert forall|b1: Connection, b2: Connection| #![trigger bif.contains(b1), bif.contains(b2)] bif.contains(b1)
        && bif.contains(b2) && b1.from.index == b2.from.index && b1.to == b2.to implies b1 == b2 by {
        lemma_filter_mem(inner, from_bridge_in(), b1);
        lemma_filter_mem(inner, from_bridge_in(), b2);
        let k1 = choose|k: int| 0 <= k < inc.len() && b1 == #[trigger] bi[k];
        let k2 = choose|k: int| 0 <= k < inc.len() && b2 == #[trigger] bi[k];
    }
    lemma_compose_in_no_dup(bif, eif);

    assert forall|e1: Connection, e2: Connection| #![trigger eof.contains(e1), eof.contains(e2)] eof.contains(e1)
        && eof.contains(e2) && e1.from.index == e2.from.index && e1.to == e2.to implies e1 == e2 by {
        lemma_filter_mem(outer, out_of_node(sn), e1);
        lemma_filter_mem(outer, out_of_node(sn), e2);
        let k1 = choose|k: int| 0 <= k < out.len() && e1 == #[trigger] a2[k];
        let k2 = choose|k: int| 0 <= k < out.len() && e2 == #[trigger] a2[k];
    }
    assert forall|b1: Connection, b2: Connection| #![trigger bof.contains(b1), bof.contains(b2)] bof.contains(b1)
        && bof.contains(b2) && b1.from == b2.from implies b1 == b2 by {
        lemma_filter_mem(inner, to_bridge_out(), b1);
        lemma_filter_mem(inner, to_bridge_out(), b2);
        let k1 = choose|k: int| 0 <= k < out.len() && b1 == #[trigger] bo[k];
        let k2 = choose|k: int| 0 <= k < out.len() && b2 == #[trigger] bo[k];
    }
    lemma_compose_out_no_dup(bof, eof);

    // each part holds one kind of wire: untouched, inside, entering, leaving
    assert forall|x: Connection| #[trigger] p0.contains(x) implies is_untouched(sel)(x) by {
        lemma_filter_mem(outer, not_touching(sn), x);
    }
    assert forall|x: Connection| #[trigger] p1.contains(x) implies is_internal(sel)(x) by {
        lemma_filter_mem(inner, bridgeless(), x);
    }
    assert forall|x: Connection| #[trigger] p2.contains(x) implies is_incoming(sel)(x) by {
        let (b, e) = lemma_compose_in_elim(bif, eif, x);
        lemma_filter_mem(inner, from_bridge_in(), b);
        lemma_filter_mem(outer, into_node(sn), e);
        let k = choose|k: int| 0 <= k < inc.len() && b == #[trigger] bi[k];
        assert(inc.contains(inc[k]));
        lemma_filter_mem(conns, is_incoming(sel), inc[k]);
        let i = choose|i: int| 0 <= i < uin.len() && e == #[trigger] f[i];
        let m = choose|m: int| 0 <= m < inc.len() && inc[m].from == #[trigger] uin[i];
        assert(inc.contains(inc[m]));
        lemma_filter_mem(conns, is_incoming(sel), inc[m]);
    }
    assert forall|x: Connection| #[trigger] p3.contains(x) implies is_outgoing(sel)(x) by {
        let (b, e) = lemma_compose_out_elim(bof, eof, x);
        lemma_filter_mem(inner, to_bridge_out(), b);
        lemma_filter_mem(outer, out_of_node(sn), e);
        let k = choose|k: int| 0 <= k < out.len() && b == #[trigger] bo[k];
        assert(out.contains(out[k]));
        lemma_filter_mem(conns, is_outgoing(sel), out[k]);
        let m = choose|m: int| 0 <= m < out.len() && e == #[trigger] a2[m];
        assert(out.contains(out[m]));
        lemma_filter_mem(conns, is_outgoing(sel), out[m]);
    }
    assert forall|i: int, j: int| 0 <= i < p0.len() && 0 <= j < p1.len() implies p0[i] != p1[j] by {
        assert(p0.contains(p0[i]) && p1.contains(p1[j]));
    }
    lemma_no_dup_in_concat(p0, p1);
    let q1 = p0 + p1;
    assert forall|i: int, j: int| 0 <= i < q1.len() && 0 <= j < p2.len() implies q1[i] != p2[j] by {
        assert(p2.contains(p2[j]));
        if i < p0.len() {
            assert(p0.contains(p0[i]));
        } else {
            assert(p1.contains(p1[i - p0.len()]));
        }
    }
    lemma_no_dup_in_concat(q1, p2);
    let q2 = q1 + p2;
    assert forall|i: int, j: int| 0 <= i < q2.len() && 0 <= j < p3.len() implies q2[i] != p3[j] by {
        assert(p3.contains(p3[j]));
        if i < p0.len() {
            assert(p0.contains(p0[i]));
        } else if i < p0.len() + p1.len() {
            assert(p1.contains(p1[i - p0.len()]));
        } else {
            assert(p2.contains(p2[i - p0.len() - p1.len()]));
        }
    }
    lemma_no_dup_in_concat(q2, p3);
}

/// No wire of the level mentions node `sub`.
pub open spec fn avoids_node(conns: Seq<Connection>, sub: NodeId) -> bool {
    forall|i: int| 0 <= i < conns.len() ==> {
        let c = #[trigger] conns[i];
        c.from.node != sub && c.to.node != sub
    }
}

/// Packing the nodes `sel` into subgraph `sub` and then unpacking `sub`
/// again gives back exactly the wires the level had (as a set), wires to
/// and from the level's own bridge nodes included. It is stated for a
/// selection without bridge nodes and a subgraph id no wire mentions yet.
pub proof fn lemma_unpack_inverts_move(conns: Seq<Connection>, sel: Seq<NodeId>, sub: NodeId)
    requires
        avoids_node(conns, sub),
        !sel.contains(bridge_in_id()),
        !sel.contains(bridge_out_id()),
        sub != bridge_in_id(),
        sub != bridge_out_id(),
        conns.len() < usize::MAX,
    ensures
        forall|c: Connection| unpacked(moved_outer(conns, sel, sub), moved_inner(conns, sel), sub).contains(c)
            <==> conns.contains(c),
{
    broadcast use vstd::seq_lib::group_filter_ensures;

    let inc = conns.filter(is_incoming(sel));
    let out = conns.filter(is_outgoing(sel));
    let uin = dedup_sources(inc);
    let uout = dedup_sources(out);
    let u = conns.filter(is_untouched(sel));
    let it = conns.filter(is_internal(sel));
    let f = feed_wires(uin, sub);
    let a2 = fanout_wires(out, uout, sub);
    let bi = bridge_in_wires(inc, uin);
    let bo = bridge_out_wires(out, uout);
    let outer = moved_outer(conns, sel, sub);
    let inner = moved_inner(conns, sel);
    let res = unpacked(outer, inner, sub);
    assert(outer == insert_all(u, f + a2));
    assert(inner == insert_all(it + bi, bo));
    lemma_dedup_sources(inc);
    lemma_dedup_sources(out);
    lemma_dedup_len(inc);
    lemma_dedup_len(out);
    assert(inc.len() <= conns.len());
    assert(out.len() <= conns.len());

    // Membership facts for every wire of the original level.
    assert forall|c: Connection| conns.contains(c) implies #[trigger] res.contains(c) by {
        let i = choose|i: int| 0 <= i < conns.len() && conns[i] == c;
        assert(avoids_node(conns, sub));
        let fi = sel.contains(c.from.node);
        let ti = sel.contains(c.to.node);
        lemma_filter_mem(conns, is_untouched(sel), c);
        lemma_filter_mem(conns, is_internal(sel), c);
        lemma_filter_mem(conns, is_incoming(sel), c);
        lemma_filter_mem(conns, is_outgoing(sel), c);
        let p0 = outer.filter(not_touching(sub));
        let p1 = inner.filter(bridgeless());
        let p2 = compose_in(inner.filter(from_bridge_in()), outer.filter(into_node(sub)));
        let p3 = compose_out(inner.filter(to_bridge_out()), outer.filter(out_of_node(sub)));
        assert(res == p0 + p1 + p2 + p3);
        if !fi && !ti {
            lemma_insert_all_contains(u, f + a2, c);
            lemma_filter_mem(outer, not_touching(sub), c);
            let j = choose|j: int| 0 <= j < p0.len() && p0[j] == c;
            assert(res[j] == c);
        } else if fi && ti {
            assert((it + bi).contains(c)) by {
                let j = choose|j: int| 0 <= j < it.len() && it[j] == c;
                assert((it + bi)[j] == c);
            }
            lemma_insert_all_contains(it + bi, bo, c);
            lemma_filter_mem(inner, bridgeless(), c);
            let j = choose|j: int| 0 <= j < p1.len() && p1[j] == c;
            assert(res[p0.len() + j] == c);
        } else if !fi && ti {
            let k = choose|k: int| 0 <= k < inc.len() && inc[k] == c;
            assert(uin.contains(c.from));
            let jj = uin.index_of(c.from);
            assert(0 <= jj < uin.len() && uin[jj] == c.from);
            let b = bi[k];
            assert(b == Connection { from: PortId { node: bridge_in_id(), index: jj as usize, dir: PortDir::Output }, to: c.to });
            assert((it + bi)[it.len() + k] == b);
            lemma_insert_all_contains(it + bi, bo, b);
            lemma_filter_mem(inner, from_bridge_in(), b);
            let e = f[jj];
            assert((f + a2)[jj] == e);
            lemma_insert_all_contains(u, f + a2, e);
            lemma_filter_mem(outer, into_node(sub), e);
            lemma_compose_in_intro(inner.filter(from_bridge_in()), outer.filter(into_node(sub)), b, e);
            assert(Connection { from: e.from, to: b.to } == c);
            let j = choose|j: int| 0 <= j < p2.len() && p2[j] == c;
            assert(res[p0.len() + p1.len() + j] == c);
        } else {
            let k = choose|k: int| 0 <= k < out.len() && out[k] == c;
            assert(uout.contains(c.from));
            let jj = uout.index_of(c.from);
            assert(0 <= jj < uout.len() && uout[jj] == c.from);
            let b = bo[k];
            lemma_insert_all_contains(it + bi, bo, b);
            lemma_filter_mem(inner, to_bridge_out(), b);
            let e = a2[k];
            assert((f + a2)[f.len() + k] == e);
            lemma_insert_all_contains(u, f + a2, e);
            lemma_filter_mem(outer, out_of_node(sub), e);
            lemma_compose_out_intro(inner.filter(to_bridge_out()), outer.filter(out_of_node(sub)), b, e);
            assert(Connection { from: b.from, to: e.to } == c);
            let j = choose|j: int| 0 <= j < p3.len() && p3[j] == c;
            assert(res[p0.len() + p1.len() + p2.len() + j] == c);
        }
    }

    assert forall|x: Connection| #[trigger] res.contains(x) implies conns.contains(x) by {
        let p0 = outer.filter(not_touching(sub));
        let p1 = inner.filter(bridgeless());
        let bif = inner.filter(from_bridge_in());
        let bof = inner.filter(to_bridge_out());
        let eif = outer.filter(into_node(sub));
        let eof = outer.filter(out_of_node(sub));
        let p2 = compose_in(bif, eif);
        let p3 = compose_out(bof, eof);
        assert(res == p0 + p1 + p2 + p3);
        let j = choose|j: int| 0 <= j < res.len() && res[j] == x;
        if j < p0.len() {
            assert(p0[j] == x);
            lemma_filter_mem(outer, not_touching(sub), x);
            lemma_insert_all_contains(u, f + a2, x);
            if (f + a2).contains(x) {
                let m = choose|m: int| 0 <= m < (f + a2).len() && (f + a2)[m] == x;
                if m < f.len() {
                    assert(f[m] == x);
                } else {
                    assert(a2[m - f.len()] == x);
                }
            }
            lemma_filter_mem(conns, is_untouched(sel), x);
        } else if j < p0.len() + p1.len() {
            assert(p1[j - p0.len()] == x);
            lemma_filter_mem(inner, bridgeless(), x);
            lemma_insert_all_contains(it + bi, bo, x);
            if bo.contains(x) {
                let m = choose|m: int| 0 <= m < bo.len() && bo[m] == x;
            }
            if (it + bi).contains(x) {
                let m = choose|m: int| 0 <= m < (it + bi).len() && (it + bi)[m] == x;
                if m < it.len() {
                    assert(it[m] == x);
                    lemma_filter_mem(conns, is_internal(sel), x);
                } else {
                    assert(bi[m - it.len()] == x);
                }
            }
        } else if j < p0.len() + p1.len() + p2.len() {
            assert(p2[j - p0.len() - p1.len()] == x);
            let (b, e) = lemma_compose_in_elim(bif, eif, x);
            lemma_filter_mem(inner, from_bridge_in(), b);
            lemma_filter_mem(outer, into_node(sub), e);
            lemma_insert_all_contains(it + bi, bo, b);
            lemma_insert_all_contains(u, f + a2, e);
            // b comes from the input bridge wires
            if bo.contains(b) {
                let m = choose|m: int| 0 <= m < bo.len() && bo[m] == b;
            }
            let mb = choose|m: int| 0 <= m < (it + bi).len() && (it + bi)[m] == b;
            if mb < it.len() {
                assert(it[mb] == b);
                lemma_filter_mem(conns, is_internal(sel), b);
                let q = choose|q: int| 0 <= q < conns.len() && conns[q] == b;
            }
            let k = mb - it.len();
            assert(bi[k] == b);
            let c = inc[k];
            assert(inc.contains(c));
            lemma_filter_mem(conns, is_incoming(sel), c);
            assert(uin.contains(c.from));
            let jj = uin.index_of(c.from);
            // e comes from the feed wires
            if u.contains(e) {
                lemma_filter_mem(conns, is_untouched(sel), e);
                let q = choose|q: int| 0 <= q < conns.len() && conns[q] == e;
            }
            let me = choose|m: int| 0 <= m < (f + a2).len() && (f + a2)[m] == e;
            if me >= f.len() {
                assert(a2[me - f.len()] == e);
                let c2 = out[me - f.len()];
                assert(out.contains(c2));
                lemma_filter_mem(conns, is_outgoing(sel), c2);
                let q = choose|q: int| 0 <= q < conns.len() && conns[q] == c2;
            }
            assert(f[me] == e);
            assert(me == jj);
            assert(x == c);
            let q = choose|q: int| 0 <= q < conns.len() && conns[q] == c;
        } else {
            assert(p3[j - p0.len() - p1.len() - p2.len()] == x);
            let (b, e) = lemma_compose_out_elim(bof, eof, x);
            lemma_filter_mem(inner, to_bridge_out(), b);
            lemma_filter_mem(outer, out_of_node(sub), e);
            lemma_insert_all_contains(it + bi, bo, b);
            lemma_insert_all_contains(u, f + a2, e);
            if (it + bi).contains(b) {
                let m = choose|m: int| 0 <= m < (it + bi).len() && (it + bi)[m] == b;
                if m < it.len() {
                    assert(it[m] == b);
                    lemma_filter_mem(conns, is_internal(sel), b);
                    let q = choose|q: int| 0 <= q < conns.len() && conns[q] == b;
                } else {
                    assert(bi[m - it.len()] == b);
                }
            }
            let k = choose|m: int| 0 <= m < bo.len() && bo[m] == b;
            let c = out[k];
            assert(out.contains(c));
            lemma_filter_mem(conns, is_outgoing(sel), c);
            if u.contains(e) {
                lemma_filter_mem(conns, is_untouched(sel), e);
                let q = choose|q: int| 0 <= q < conns.len() && conns[q] == e;
            }
            let me = choose|m: int| 0 <= m < (f + a2).len() && (f + a2)[m] == e;
            if me < f.len() {
                assert(f[me] == e);
                assert(uin[me] == e.from);
                let q = choose|q: int| 0 <= q < inc.len() && inc[q].from == uin[me];
                assert(inc.contains(inc[q]));
                lemma_filter_mem(conns, is_incoming(sel), inc[q]);
                let q2 = choose|q2: int| 0 <= q2 < conns.len() && conns[q2] == inc[q];
            }
            let k2 = me - f.len();
            assert(a2[k2] == e);
            let c2 = out[k2];
            assert(out.contains(c2));
            lemma_filter_mem(conns, is_outgoing(sel), c2);
            assert(uout.contains(c.from));
            assert(uout.contains(c2.from));
            assert(uout[uout.index_of(c.from)] == c.from);
            assert(uout[uout.index_of(c2.from)] == c2.from);
            assert(x == c2);
            let q = choose|q: int| 0 <= q < conns.len() && conns[q] == c2;
        }
    }
}

/// Each kept item is an item of `s` at a kept position.
/// Kept ids avoid the bridge ids when every kept position does.
proof fn lemma_kept_not_bridge(ids: Seq<NodeId>, keep: spec_fn(int) -> bool)
    requires
        forall|i: int| 0 <= i < ids.len() && #[trigger] keep(i) ==> ids[i] != bridge_in_id() && ids[i] != bridge_out_id(),
    ensures
        forall|j: int| 0 <= j < keep_where(ids, keep).len() ==> #[trigger] keep_where(ids, keep)[j] != bridge_in_id()
            && keep_where(ids, keep)[j] != bridge_out_id(),
    decreases ids.len(),
{
    if ids.len() > 0 {
        let d = ids.drop_last();
        assert forall|i: int| 0 <= i < d.len() && #[trigger] keep(i) implies d[i] != bridge_in_id() && d[i] != bridge_out_id() by {
            assert(d[i] == ids[i]);
        }
        lemma_kept_not_bridge(d, keep);
        let p = keep_where(d, keep);
        let q = keep_where(ids, keep);
        assert forall|j: int| 0 <= j < q.len() implies #[trigger] q[j] != bridge_in_id() && q[j] != bridge_out_id() by {
            if j < p.len() {
                assert(q[j] == p[j]);
            } else {
                assert(keep(ids.len() - 1));
                assert(q[j] == ids[ids.len() - 1]);
            }
        }
    }
}

/// The items kept by `k1` followed by those kept by its complement `k2`
/// are the items of `s`, reordered.
proof fn lemma_keep_split<T>(s: Seq<T>, k1: spec_fn(int) -> bool, k2: spec_fn(int) -> bool)
    requires
        forall|i: int| 0 <= i < s.len() ==> #[trigger] k2(i) == !k1(i),
    ensures
        (keep_where(s, k1) + keep_where(s, k2)).to_multiset() =~= s.to_multiset(),
    decreases s.len(),
{
    broadcast use vstd::seq_lib::group_to_multiset_ensures, vstd::seq_lib::lemma_multiset_commutative;

    if s.len() > 0 {
        let d = s.drop_last();
        let x = s.last();
        lemma_keep_split(d, k1, k2);
        let a = keep_where(d, k1);
        let b = keep_where(d, k2);
        assert(s =~= d.push(x));
        assert((a + b).to_multiset() =~= a.to_multiset().add(b.to_multiset()));
        if k1(s.len() - 1) {
            assert((a.push(x) + b).to_multiset() =~= a.push(x).to_multiset().add(b.to_multiset()));
        } else {
            assert((a + b.push(x)).to_multiset() =~= a.to_multiset().add(b.push(x).to_multiset()));
        }
    } else {
        assert(keep_where(s, k1) + keep_where(s, k2) =~= s);
    }
}

/// Dropping the two leading bridge entries of an inner level keeps the rest.
proof fn lemma_drop_bridges<T>(items: Seq<T>, ids: Seq<NodeId>, n: int)
    requires
        2 <= n <= items.len(),
        items.len() == ids.len(),
        ids[0] == bridge_in_id(),
        ids[1] == bridge_out_id(),
        forall|i: int| 2 <= i < ids.len() ==> ids[i] != bridge_in_id() && ids[i] != bridge_out_id(),
    ensures
        keep_where(items.take(n), not_bridge_at(ids)) == items.subrange(2, n),
    decreases n,
{
    let keep = not_bridge_at(ids);
    if n == 2 {
        let t = items.take(2);
        assert(t.drop_last() =~= items.take(1));
        assert(items.take(1).drop_last() =~= items.take(0));
        assert(!keep(1));
        assert(!keep(0));
        assert(keep_where(items.take(0), keep) =~= Seq::<T>::empty());
        assert(keep_where(items.take(1), keep) == keep_where(items.take(0), keep));
        assert(keep_where(items.take(2), keep) == keep_where(items.take(1), keep));
        assert(items.subrange(2, 2) =~= Seq::<T>::empty());
    } else {
        lemma_drop_bridges(items, ids, n - 1);
        assert(keep(n - 1));
        assert(items.take(n).last() == items[n - 1]);
        assert(items.take(n).drop_last() =~= items.take(n - 1));
        assert(items.subrange(2, n) =~= items.subrange(2, n - 1).push(items[n - 1]));
    }
}

/// Moving a selection into a new subgraph `sub` and unpacking that
/// subgraph again restores the level: the same node ids and node payloads
/// (as multisets: the unpacked nodes come last) and the same wires (as a
/// set, and as a multiset when no wire is listed twice), wires to and from
/// the level's own bridge nodes included. The
/// level holds ids `ids`, payloads `nodes` and wires `conns`; `sel` are
/// the selected positions, none of them a bridge node; no wire mentions
/// the new subgraph id yet. The sequences are those that
/// `move_selection_to_subgraph` and `unpack_subgraph` state.
pub proof fn lemma_move_then_unpack_restores<W>(
    ids: Seq<NodeId>,
    nodes: Seq<W>,
    conns: Seq<Connection>,
    sel: Seq<usize>,
    sub: NodeId,
    sub_node: W,
    bridge_in: W,
    bridge_out: W,
)
    requires
        ids.len() == nodes.len(),
        forall|k: int| 0 <= k < sel.len() ==> #[trigger] sel[k] < ids.len() && ids[sel[k] as int] != bridge_in_id()
            && ids[sel[k] as int] != bridge_out_id(),
        avoids_node(conns, sub),
        sub != bridge_in_id(),
        sub != bridge_out_id(),
        conns.len() < usize::MAX,
        ids.len() <= usize::MAX,
    ensures
        ({
            let outer_ids = keep_where(ids, staying(sel)).push(sub);
            let outer_nodes = keep_where(nodes, staying(sel)).push(sub_node);
            let in_ids = seq![bridge_in_id(), bridge_out_id()] + keep_where(ids, moving(sel));
            let in_nodes = seq![bridge_in, bridge_out] + keep_where(nodes, moving(sel));
            let last = outer_ids.len() - 1;
            &&& (outer_ids.remove(last) + keep_where(in_ids, not_bridge_at(in_ids))).to_multiset() =~= ids.to_multiset()
            &&& (outer_nodes.remove(last) + keep_where(in_nodes, not_bridge_at(in_ids))).to_multiset() =~= nodes.to_multiset()
        }),
        forall|c: Connection| #[trigger] unpacked(
            moved_outer(conns, selected_ids(sel, ids), sub),
            moved_inner(conns, selected_ids(sel, ids)),
            sub,
        ).contains(c) <==> conns.contains(c),
        conns.no_duplicates() ==> unpacked(
            moved_outer(conns, selected_ids(sel, ids), sub),
            moved_inner(conns, selected_ids(sel, ids)),
            sub,
        ).to_multiset() =~= conns.to_multiset(),
{
    let sids = selected_ids(sel, ids);
    assert(!sids.contains(bridge_in_id()) && !sids.contains(bridge_out_id())) by {
        if sids.contains(bridge_in_id()) {
            let k = choose|k: int| 0 <= k < sids.len() && sids[k] == bridge_in_id();
            assert(sids[k] == ids[sel[k] as int]);
        }
        if sids.contains(bridge_out_id()) {
            let k = choose|k: int| 0 <= k < sids.len() && sids[k] == bridge_out_id();
            assert(sids[k] == ids[sel[k] as int]);
        }
    }
    lemma_unpack_inverts_move(conns, sids, sub);
    if conns.no_duplicates() {
        lemma_unpacked_no_dup(conns, sids, sub);
        lemma_same_items_multiset(unpacked(moved_outer(conns, sids, sub), moved_inner(conns, sids), sub), conns);
    }

    let mv = keep_where(ids, moving(sel));
    let mvn = keep_where(nodes, moving(sel));
    let in_ids = seq![bridge_in_id(), bridge_out_id()] + mv;
    let in_nodes = seq![bridge_in, bridge_out] + mvn;
    assert forall|i: int| 0 <= i < ids.len() && #[trigger] moving(sel)(i) implies ids[i] != bridge_in_id()
        && ids[i] != bridge_out_id() by {
        let k = choose|k: int| 0 <= k < sel.len() && sel[k] == i as usize;
        assert(sel[k] < ids.len());
        assert(sel[k] as int == i);
    }
    lemma_kept_not_bridge(ids, moving(sel));
    assert forall|i: int| 2 <= i < in_ids.len() implies in_ids[i] != bridge_in_id() && in_ids[i] != bridge_out_id() by {
        assert(in_ids[i] == mv[i - 2]);
    }
    lemma_keep_where_len(ids, nodes, moving(sel));
    lemma_drop_bridges(in_ids, in_ids, in_ids.len() as int);
    lemma_drop_bridges(in_nodes, in_ids, in_nodes.len() as int);
    assert(in_ids.take(in_ids.len() as int) =~= in_ids);
    assert(in_nodes.take(in_nodes.len() as int) =~= in_nodes);
    assert(in_ids.subrange(2, in_ids.len() as int) =~= mv);
    assert(in_nodes.subrange(2, in_nodes.len() as int) =~= mvn);
    let so = keep_where(ids, staying(sel));
    let son = keep_where(nodes, staying(sel));
    assert(so.push(sub).remove(so.len() as int) =~= so);
    lemma_keep_where_len(ids, nodes, staying(sel));
    assert(son.push(sub_node).remove(so.len() as int) =~= son);
    lemma_keep_split(ids, staying(sel), moving(sel));
    lemma_keep_split(nodes, staying(sel), moving(sel));
}

/// Keeping the same positions of two sequences of one length gives two
/// sequences of one length.
proof fn lemma_keep_where_len<A, B>(a: Seq<A>, b: Seq<B>, keep: spec_fn(int) -> bool)
    requires
        a.len() == b.len(),
    ensures
        keep_where(a, keep).len() == keep_where(b, keep).len(),
    decreases a.len(),
{
    if a.len() > 0 {
        lemma_keep_where_len(a.drop_last(), b.drop_last(), keep);
    }
}


// ---------------------------------------------------------------------------
// Graph operations
// ---------------------------------------------------------------------------

/// Adding each wire of `cs` in order (see `NodeGraph::add_connection`).
pub open spec fn ws_add_all(ws: WireState, level: usize, path: Seq<NodeId>, ids: Seq<NodeId>, table: Seq<NodePorts>, cs: Seq<Connection>) -> WireState
    decreases cs.len(),
{
    if cs.len() == 0 {
        ws
    } else {
        ws_add(ws_add_all(ws, level, path, ids, table, cs.drop_last()), level, path, ids, table, cs.last())
    }
}

pub proof fn lemma_ws_add_all_conns(ws: WireState, level: usize, path: Seq<NodeId>, ids: Seq<NodeId>, table: Seq<NodePorts>, cs: Seq<Connection>)
    ensures
        ws_add_all(ws, level, path, ids, table, cs).conns == insert_all(ws.conns, cs),
    decreases cs.len(),
{
    if cs.len() > 0 {
        lemma_ws_add_all_conns(ws, level, path, ids, table, cs.drop_last());
    }
}

/// One `AddConnection` command per wire, routed for `path`.
pub open spec fn add_cmds(path: Seq<NodeId>, cs: Seq<Connection>) -> Seq<CommandView> {
    cs.map_values(|c: Connection| routed(path, SubgraphInnerCmd::AddConnection(c)))
}

/// Ids of the selected nodes, in selection order.
pub open spec fn selected_ids(sel: Seq<usize>, ids: Seq<NodeId>) -> Seq<NodeId> {
    sel.map_values(|i: usize| ids[i as int])
}

pub open spec fn moving(sel: Seq<usize>) -> spec_fn(int) -> bool {
    |i: int| sel.contains(i as usize)
}

pub open spec fn staying(sel: Seq<usize>) -> spec_fn(int) -> bool {
    |i: int| !sel.contains(i as usize)
}


pub proof fn lemma_path_push<W>(levels: Seq<GraphLevel<W>>, x: GraphLevel<W>, idx: int)
    requires
        levels_wf(levels),
        idx < levels.len(),
    ensures
        path_of(levels.push(x), idx) == path_of(levels, idx),
    decreases idx,
{
    let ext = levels.push(x);
    if 0 < idx {
        assert(ext[idx] == levels[idx]);
        assert(match levels[idx].parent_level_idx { Some(p) => p < idx, None => false });
        match levels[idx].parent_level_idx {
            Some(p) => {
                lemma_path_push(levels, x, p as int);
            },
            None => {},
        }
    }
}

/// Where a packed subgraph ended up.
pub struct MoveOutcome {
    pub sub_id: NodeId,
    /// Index of the subgraph node in the level it was placed in.
    pub sub_index: usize,
    /// Index of the level holding the subgraph's inside.
    pub inner_level: usize,
}

fn build_feed_wires(uin: &Vec<PortId>, sub: NodeId) -> (r: Vec<Connection>)
    ensures
        r@ == feed_wires(uin@, sub),
{
    let mut r: Vec<Connection> = Vec::new();
    let mut i: usize = 0;
    while i < uin.len()
        invariant
            i <= uin.len(),
            r@.len() == i,
            forall|k: int| 0 <= k < i ==> #[trigger] r@[k] == feed_wires(uin@, sub)[k],
        decreases uin.len() - i,
    {
        r.push(Connection { from: uin[i], to: PortId { node: sub, index: i, dir: PortDir::Input } });
        i += 1;
    }
    proof {
        assert(r@ =~= feed_wires(uin@, sub));
    }
    r
}

fn build_fanout_wires(out: &Vec<Connection>, uout: &Vec<PortId>, omap: &Vec<usize>, sub: NodeId) -> (r: Vec<Connection>)
    requires
        omap@.len() == out@.len(),
        forall|k: int| 0 <= k < out@.len() ==> #[trigger] omap@[k] == uout@.index_of(out@[k].from),
    ensures
        r@ == fanout_wires(out@, uout@, sub),
{
    let mut r: Vec<Connection> = Vec::new();
    let mut k: usize = 0;
    while k < out.len()
        invariant
            k <= out.len(),
            omap@.len() == out@.len(),
            forall|m: int| 0 <= m < out@.len() ==> #[trigger] omap@[m] == uout@.index_of(out@[m].from),
            r@.len() == k,
            forall|m: int| 0 <= m < k ==> #[trigger] r@[m] == fanout_wires(out@, uout@, sub)[m],
        decreases out.len() - k,
    {
        r.push(Connection { from: PortId { node: sub, index: omap[k], dir: PortDir::Output }, to: out[k].to });
        k += 1;
    }
    proof {
        assert(r@ =~= fanout_wires(out@, uout@, sub));
    }
    r
}

fn build_bridge_in_wires(inc: &Vec<Connection>, uin: &Vec<PortId>, imap: &Vec<usize>) -> (r: Vec<Connection>)
    requires
        imap@.len() == inc@.len(),
        forall|k: int| 0 <= k < inc@.len() ==> #[trigger] imap@[k] == uin@.index_of(inc@[k].from),
    ensures
        r@ == bridge_in_wires(inc@, uin@),
{
    let mut r: Vec<Connection> = Vec::new();
    let mut k: usize = 0;
    let bin = bridge_in_node_id();
    while k < inc.len()
        invariant
            k <= inc.len(),
            bin == bridge_in_id(),
            imap@.len() == inc@.len(),
            forall|m: int| 0 <= m < inc@.len() ==> #[trigger] imap@[m] == uin@.index_of(inc@[m].from),
            r@.len() == k,
            forall|m: int| 0 <= m < k ==> #[trigger] r@[m] == bridge_in_wires(inc@, uin@)[m],
        decreases inc.len() - k,
    {
        r.push(Connection { from: PortId { node: bin, index: imap[k], dir: PortDir::Output }, to: inc[k].to });
        k += 1;
    }
    proof {
        assert(r@ =~= bridge_in_wires(inc@, uin@));
    }
    r
}

fn build_bridge_out_wires(out: &Vec<Connection>, uout: &Vec<PortId>, omap: &Vec<usize>) -> (r: Vec<Connection>)
    requires
        omap@.len() == out@.len(),
        forall|k: int| 0 <= k < out@.len() ==> #[trigger] omap@[k] == uout@.index_of(out@[k].from),
    ensures
        r@ == bridge_out_wires(out@, uout@),
{
    let mut r: Vec<Connection> = Vec::new();
    let mut k: usize = 0;
    let bout = bridge_out_node_id();
    while k < out.len()
        invariant
            k <= out.len(),
            bout == bridge_out_id(),
            omap@.len() == out@.len(),
            forall|m: int| 0 <= m < out@.len() ==> #[trigger] omap@[m] == uout@.index_of(out@[m].from),
            r@.len() == k,
            forall|m: int| 0 <= m < k ==> #[trigger] r@[m] == bridge_out_wires(out@, uout@)[m],
        decreases out.len() - k,
    {
        r.push(Connection { from: out[k].from, to: PortId { node: bout, index: omap[k], dir: PortDir::Input } });
        k += 1;
    }
    proof {
        assert(r@ =~= bridge_out_wires(out@, uout@));
    }
    r
}

/// Splits parallel id/payload lists by flags: unflagged entries are kept,
/// flagged ones taken out, both in order.
fn split_flagged<W>(ids: Vec<NodeId>, nodes: Vec<W>, flags: &Vec<bool>, Ghost(take): Ghost<spec_fn(int) -> bool>, Ghost(keep): Ghost<spec_fn(int) -> bool>)
    -> (r: (Vec<NodeId>, Vec<W>, Vec<NodeId>, Vec<W>))
    requires
        ids@.len() == nodes@.len(),
        flags@.len() == ids@.len(),
        forall|k: int| 0 <= k < flags@.len() ==> flags@[k] == take(k) && !flags@[k] == keep(k),
    ensures
        r.0@ == keep_where(ids@, keep),
        r.1@ == keep_where(nodes@, keep),
        r.2@ == keep_where(ids@, take),
        r.3@ == keep_where(nodes@, take),
        r.0@.len() == r.1@.len(),
        r.2@.len() == r.3@.len(),
{
    let ghost ids0 = ids@;
    let ghost nodes0 = nodes@;
    let mut ids = ids;
    let mut nodes = nodes;
    let mut k_ids: Vec<NodeId> = Vec::new();
    let mut k_nodes: Vec<W> = Vec::new();
    let mut t_ids: Vec<NodeId> = Vec::new();
    let mut t_nodes: Vec<W> = Vec::new();
    let n = ids.len();
    let mut i: usize = 0;
    while i < n
        invariant
            n == ids0.len(),
            ids0.len() == nodes0.len(),
            flags@.len() == n,
            i <= n,
            ids@ == ids0.skip(i as int),
            nodes@ == nodes0.skip(i as int),
            k_ids@ == keep_where(ids0.take(i as int), keep),
            k_nodes@ == keep_where(nodes0.take(i as int), keep),
            t_ids@ == keep_where(ids0.take(i as int), take),
            t_nodes@ == keep_where(nodes0.take(i as int), take),
            k_ids@.len() == k_nodes@.len(),
            t_ids@.len() == t_nodes@.len(),
            forall|k: int| 0 <= k < flags@.len() ==> flags@[k] == take(k) && !flags@[k] == keep(k),
        decreases n - i,
    {
        let id = ids.remove(0);
        let node = nodes.remove(0);
        proof {
            lemma_keep_where_take(ids0, keep, i as int);
            lemma_keep_where_take(nodes0, keep, i as int);
            lemma_keep_where_take(ids0, take, i as int);
            lemma_keep_where_take(nodes0, take, i as int);
            assert(ids0.skip(i as int)[0] == ids0[i as int]);
            assert(nodes0.skip(i as int)[0] == nodes0[i as int]);
            assert(ids0.skip(i as int).subrange(1, ids0.skip(i as int).len() as int) =~= ids0.skip(i + 1));
            assert(nodes0.skip(i as int).subrange(1, nodes0.skip(i as int).len() as int) =~= nodes0.skip(i + 1));
        }
        if flags[i] {
            t_ids.push(id);
            t_nodes.push(node);
        } else {
            k_ids.push(id);
            k_nodes.push(node);
        }
        i += 1;
    }
    proof {
        assert(ids0.take(n as int) =~= ids0);
        assert(nodes0.take(n as int) =~= nodes0);
    }
    (k_ids, k_nodes, t_ids, t_nodes)
}


/// Node `i` of a level is a bridge node.
pub open spec fn is_bridge_at(ids: Seq<NodeId>) -> spec_fn(int) -> bool {
    |i: int| ids[i] == bridge_in_id() || ids[i] == bridge_out_id()
}

pub open spec fn not_bridge_at(ids: Seq<NodeId>) -> spec_fn(int) -> bool {
    |i: int| !(ids[i] == bridge_in_id() || ids[i] == bridge_out_id())
}

fn filter_wires_by(conns: &Vec<Connection>, sub: NodeId, mode: u8) -> (r: Vec<Connection>)
    requires
        mode < 6,
    ensures
        mode == 0 ==> r@ == conns@.filter(not_touching(sub)),
        mode == 1 ==> r@ == conns@.filter(into_node(sub)),
        mode == 2 ==> r@ == conns@.filter(out_of_node(sub)),
        mode == 3 ==> r@ == conns@.filter(bridgeless()),
        mode == 4 ==> r@ == conns@.filter(from_bridge_in()),
        mode == 5 ==> r@ == conns@.filter(to_bridge_out()),
{
    let ghost p = if mode == 0 { not_touching(sub) } else if mode == 1 { into_node(sub) } else if mode == 2 {
        out_of_node(sub) } else if mode == 3 { bridgeless() } else if mode == 4 { from_bridge_in() } else { to_bridge_out() };
    let bin = bridge_in_node_id();
    let bout = bridge_out_node_id();
    let mut r: Vec<Connection> = Vec::new();
    let mut k: usize = 0;
    while k < conns.len()
        invariant
            k <= conns.len(),
            mode < 6,
            bin == bridge_in_id(),
            bout == bridge_out_id(),
            p == (if mode == 0 { not_touching(sub) } else if mode == 1 { into_node(sub) } else if mode == 2 {
                out_of_node(sub) } else if mode == 3 { bridgeless() } else if mode == 4 { from_bridge_in() } else { to_bridge_out() }),
            r@ == conns@.take(k as int).filter(p),
        decreases conns.len() - k,
    {
        let c = conns[k];
        proof {
            assert(conns@.take(k + 1) == conns@.take(k as int).push(c));
            conns@.take(k as int).lemma_filter_push(c, p);
        }
        let keep = if mode == 0 {
            c.from.node != sub && c.to.node != sub
        } else if mode == 1 {
            c.to.node == sub
        } else if mode == 2 {
            c.from.node == sub
        } else if mode == 3 {
            c.from.node != bin && c.to.node != bout
        } else if mode == 4 {
            c.from.node == bin && c.to.node != bout
        } else {
            c.from.node != bin && c.to.node == bout
        };
        if keep {
            r.push(c);
        }
        k += 1;
    }
    proof {
        assert(conns@.take(conns@.len() as int) =~= conns@);
    }
    r
}

fn build_compose_in(bi: &Vec<Connection>, ext: &Vec<Connection>) -> (r: Vec<Connection>)
    ensures
        r@ == compose_in(bi@, ext@),
{
    let mut r: Vec<Connection> = Vec::new();
    let mut k: usize = 0;
    while k < bi.len()
        invariant
            k <= bi.len(),
            r@ == compose_in(bi@.take(k as int), ext@),
        decreases bi.len() - k,
    {
        let b = bi[k];
        let ghost before = r@;
        let mut j: usize = 0;
        while j < ext.len()
            invariant
                j <= ext.len(),
                r@ == before + matches_in(b, ext@.take(j as int)),
            decreases ext.len() - j,
        {
            let e = ext[j];
            proof {
                assert(ext@.take(j + 1).drop_last() == ext@.take(j as int));
                assert(ext@.take(j + 1).last() == e);
            }
            if e.to.index == b.from.index {
                r.push(Connection { from: e.from, to: b.to });
            }
            j += 1;
        }
        proof {
            assert(ext@.take(ext@.len() as int) =~= ext@);
            assert(bi@.take(k + 1).drop_last() == bi@.take(k as int));
            assert(bi@.take(k + 1).last() == b);
        }
        k += 1;
    }
    proof {
        assert(bi@.take(bi@.len() as int) =~= bi@);
    }
    r
}

fn build_compose_out(bo: &Vec<Connection>, ext: &Vec<Connection>) -> (r: Vec<Connection>)
    ensures
        r@ == compose_out(bo@, ext@),
{
    let mut r: Vec<Connection> = Vec::new();
    let mut k: usize = 0;
    while k < bo.len()
        invariant
            k <= bo.len(),
            r@ == compose_out(bo@.take(k as int), ext@),
        decreases bo.len() - k,
    {
        let b = bo[k];
        let ghost before = r@;
        let mut j: usize = 0;
        while j < ext.len()
            invariant
                j <= ext.len(),
                r@ == before + matches_out(b, ext@.take(j as int)),
            decreases ext.len() - j,
        {
            let e = ext[j];
            proof {
                assert(ext@.take(j + 1).drop_last() == ext@.take(j as int));
                assert(ext@.take(j + 1).last() == e);
            }
            if e.from.index == b.to.index {
                r.push(Connection { from: b.from, to: e.to });
            }
            j += 1;
        }
        proof {
            assert(ext@.take(ext@.len() as int) =~= ext@);
            assert(bo@.take(k + 1).drop_last() == bo@.take(k as int));
            assert(bo@.take(k + 1).last() == b);
        }
        k += 1;
    }
    proof {
        assert(bo@.take(bo@.len() as int) =~= bo@);
    }
    r
}

/// What unpacking a subgraph handed back.
pub struct UnpackOutcome<W> {
    pub sub_id: NodeId,
    /// Payload of the removed subgraph node.
    pub sub_node: W,
    /// The unpacked nodes now sit at indices `start..end` of the level.
    pub start: usize,
    pub end: usize,
}

impl<W> NodeGraph<W> {
    /// Adds each wire of `cs` in order through `add_connection`.
    pub fn add_connections(&mut self, cs: &Vec<Connection>, table: &Vec<NodePorts>)
        requires
            old(self).wf(),
        ensures
            final(self).wf(),
            final(self).same_frame(&*old(self)),
            final(self).ws() == ws_add_all(old(self).ws(), old(self).active_level, old(self).path(),
                old(self).active().node_ids@, table@, cs@),
            only_wires_changed(final(self).levels@, old(self).levels@, old(self).active_level as int, final(self).ws().conns),
    {
        let ghost a = self.active_level;
        let ghost path = self.path();
        let ghost ids = self.active().node_ids@;
        let ghost ws0 = self.ws();
        let ghost old_levels = self.levels@;
        let mut k: usize = 0;
        while k < cs.len()
            invariant
                k <= cs.len(),
                self.wf(),
                self.same_frame(&*old(self)),
                levels_wf(old_levels),
                old_levels == old(self).levels@,
                a == old(self).active_level,
                path == old(self).path(),
                ids == old(self).active().node_ids@,
                ws0 == old(self).ws(),
                only_wires_changed(self.levels@, old_levels, a as int, self.ws().conns),
                self.ws() == ws_add_all(ws0, a, path, ids, table@, cs@.take(k as int)),
            decreases cs.len() - k,
        {
            proof {
                lemma_only_wires_skeleton(self.levels@, old_levels, a as int, self.ws().conns);
            }
            let c = cs[k];
            self.add_connection(c.from, c.to, table);
            proof {
                assert(cs@.take(k + 1).drop_last() == cs@.take(k as int));
                assert(cs@.take(k + 1).last() == c);
            }
            k += 1;
        }
        proof {
            assert(cs@.take(cs@.len() as int) =~= cs@);
        }
    }

    /// Appends the wires to the active level as they are (duplicates
    /// included) and queues an `AddConnection` for each.
    fn push_wires_direct(&mut self, cs: &Vec<Connection>)
        requires
            old(self).wf(),
        ensures
            final(self).wf(),
            final(self).same_frame(&*old(self)),
            only_wires_changed(final(self).levels@, old(self).levels@, old(self).active_level as int, final(self).ws().conns),
            final(self).ws() == (WireState {
                conns: old(self).ws().conns + cs@,
                events: old(self).ws().events,
                cmds: old(self).ws().cmds + add_cmds(old(self).path(), cs@),
            }),
    {
        let a = self.active_level;
        let ghost path = self.path();
        let ghost ws0 = self.ws();
        let ghost old_levels = self.levels@;
        let mut k: usize = 0;
        while k < cs.len()
            invariant
                k <= cs.len(),
                self.wf(),
                self.same_frame(&*old(self)),
                levels_wf(old_levels),
                old_levels == old(self).levels@,
                a == old(self).active_level,
                path == old(self).path(),
                ws0 == old(self).ws(),
                only_wires_changed(self.levels@, old_levels, a as int, self.ws().conns),
                self.ws() == (WireState {
                    conns: ws0.conns + cs@.take(k as int),
                    events: ws0.events,
                    cmds: ws0.cmds + add_cmds(path, cs@.take(k as int)),
                }),
            decreases cs.len() - k,
        {
            let c = cs[k];
            let ghost before = self.levels@;
            self.levels[a].connections.push(c);
            proof {
                assert(only_wires_changed(self.levels@, old_levels, a as int, self.ws().conns));
                lemma_only_wires_skeleton(self.levels@, old_levels, a as int, self.ws().conns);
            }
            self.push_engine_cmd(SubgraphInnerCmd::AddConnection(c));
            proof {
                assert(cs@.take(k + 1) == cs@.take(k as int).push(c));
                assert(ws0.conns + cs@.take(k + 1) =~= (ws0.conns + cs@.take(k as int)).push(c));
                assert(add_cmds(path, cs@.take(k + 1)) =~= add_cmds(path, cs@.take(k as int)).push(routed(path, SubgraphInnerCmd::AddConnection(c))));
                assert(self.ws().cmds =~= ws0.cmds + add_cmds(path, cs@.take(k + 1)));
            }
            k += 1;
        }
        proof {
            assert(cs@.take(cs@.len() as int) =~= cs@);
        }
    }

    /// Appends each wire unless already present, and queues an
    /// `AddConnection` for every wire either way.
    fn insert_wires_direct(&mut self, cs: &Vec<Connection>)
        requires
            old(self).wf(),
        ensures
            final(self).wf(),
            final(self).same_frame(&*old(self)),
            only_wires_changed(final(self).levels@, old(self).levels@, old(self).active_level as int, final(self).ws().conns),
            final(self).ws() == (WireState {
                conns: insert_all(old(self).ws().conns, cs@),
                events: old(self).ws().events,
                cmds: old(self).ws().cmds + add_cmds(old(self).path(), cs@),
            }),
    {
        let a = self.active_level;
        let ghost path = self.path();
        let ghost ws0 = self.ws();
        let ghost old_levels = self.levels@;
        let mut k: usize = 0;
        while k < cs.len()
            invariant
                k <= cs.len(),
                self.wf(),
                self.same_frame(&*old(self)),
                levels_wf(old_levels),
                old_levels == old(self).levels@,
                a == old(self).active_level,
                path == old(self).path(),
                ws0 == old(self).ws(),
                only_wires_changed(self.levels@, old_levels, a as int, self.ws().conns),
                self.ws() == (WireState {
                    conns: insert_all(ws0.conns, cs@.take(k as int)),
                    events: ws0.events,
                    cmds: ws0.cmds + add_cmds(path, cs@.take(k as int)),
                }),
            decreases cs.len() - k,
        {
            let c = cs[k];
            crate::wiring::insert_connection(&mut self.levels[a].connections, c);
            proof {
                assert(only_wires_changed(self.levels@, old_levels, a as int, self.ws().conns));
                lemma_only_wires_skeleton(self.levels@, old_levels, a as int, self.ws().conns);
            }
            self.push_engine_cmd(SubgraphInnerCmd::AddConnection(c));
            proof {
                assert(cs@.take(k + 1).drop_last() == cs@.take(k as int));
                assert(cs@.take(k + 1).last() == c);
                assert(add_cmds(path, cs@.take(k + 1)) =~= add_cmds(path, cs@.take(k as int)).push(routed(path, SubgraphInnerCmd::AddConnection(c))));
                assert(self.ws().cmds =~= ws0.cmds + add_cmds(path, cs@.take(k + 1)));
            }
            k += 1;
        }
        proof {
            assert(cs@.take(cs@.len() as int) =~= cs@);
        }
    }

    /// Queues a `RemoveNode` for each id, in order.
    fn push_remove_node_cmds(&mut self, ids: &Vec<NodeId>)
        requires
            old(self).wf(),
        ensures
            final(self).wf(),
            final(self).same_frame(&*old(self)),
            final(self).levels@ == old(self).levels@,
            final(self).widget_events@ == old(self).widget_events@,
            cmd_views(final(self).pending_engine_cmds@) == cmd_views(old(self).pending_engine_cmds@) + remove_node_cmds(old(self).path(), ids@),
    {
        let ghost cmds0 = cmd_views(self.pending_engine_cmds@);
        let ghost path = self.path();
        let mut k: usize = 0;
        while k < ids.len()
            invariant
                k <= ids.len(),
                self.wf(),
                self.same_frame(&*old(self)),
                self.levels@ == old(self).levels@,
                self.widget_events@ == old(self).widget_events@,
                path == old(self).path(),
                cmd_views(self.pending_engine_cmds@) == cmds0 + remove_node_cmds(path, ids@.take(k as int)),
            decreases ids.len() - k,
        {
            self.push_engine_cmd(SubgraphInnerCmd::RemoveNode(ids[k]));
            proof {
                assert(remove_node_cmds(path, ids@.take(k + 1)) =~= remove_node_cmds(path, ids@.take(k as int)).push(
                    routed(path, SubgraphInnerCmd::RemoveNode(ids@[k as int]))));
            }
            k += 1;
        }
        proof {
            assert(ids@.take(ids@.len() as int) =~= ids@);
        }
    }
}


impl<W> NodeGraph<W> {
    /// Port definitions the subgraph made from the current selection will
    /// have: one input per distinct outside source feeding the selection
    /// ("in 0", "in 1", ...) and one output per distinct inside source
    /// feeding the outside ("out 0", ...), typed after those sources.
    pub fn plan_subgraph_ports(&self, table: &Vec<NodePorts>) -> (r: (Vec<SubgraphPortDef>, Vec<SubgraphPortDef>))
        requires
            self.wf(),
            forall|k: int| 0 <= k < self.selected_nodes@.len() ==> #[trigger] self.selected_nodes@[k] < self.active().node_ids@.len(),
        ensures
            ({
                let sids = selected_ids(self.selected_nodes@, self.active().node_ids@);
                let conns = self.active().connections@;
                let uin = dedup_sources(conns.filter(is_incoming(sids)));
                let uout = dedup_sources(conns.filter(is_outgoing(sids)));
                &&& r.0@.len() == uin.len()
                &&& forall|i: int| 0 <= i < uin.len() ==> (#[trigger] r.0@[i]).name@ == "in "@ + decimal_chars(i as nat)
                    && r.0@[i].port_type_idx == def_type_index(table@, uin[i])
                &&& r.1@.len() == uout.len()
                &&& forall|i: int| 0 <= i < uout.len() ==> (#[trigger] r.1@[i]).name@ == "out "@ + decimal_chars(i as nat)
                    && r.1@[i].port_type_idx == def_type_index(table@, uout[i])
            }),
    {
        let sids = self.selected_id_list();
        let (_internal, incoming, outgoing, _untouched) = classify_connections(&self.levels[self.active_level].connections, &sids);
        let (uin, _imap) = dedup_wire_sources(&incoming);
        let (uout, _omap) = dedup_wire_sources(&outgoing);
        (make_port_defs(table, &uin, "in "), make_port_defs(table, &uout, "out "))
    }

    fn selected_id_list(&self) -> (r: Vec<NodeId>)
        requires
            self.wf(),
            forall|k: int| 0 <= k < self.selected_nodes@.len() ==> #[trigger] self.selected_nodes@[k] < self.active().node_ids@.len(),
        ensures
            r@ == selected_ids(self.selected_nodes@, self.active().node_ids@),
    {
        let a = self.active_level;
        let mut r: Vec<NodeId> = Vec::new();
        let mut k: usize = 0;
        while k < self.selected_nodes.len()
            invariant
                self.wf(),
                a == self.active_level,
                k <= self.selected_nodes@.len(),
                forall|m: int| 0 <= m < self.selected_nodes@.len() ==> #[trigger] self.selected_nodes@[m] < self.active().node_ids@.len(),
                r@.len() == k,
                forall|m: int| 0 <= m < k ==> #[trigger] r@[m] == selected_ids(self.selected_nodes@, self.active().node_ids@)[m],
            decreases self.selected_nodes@.len() - k,
        {
            let i = self.selected_nodes[k];
            r.push(self.levels[a].node_ids[i]);
            k += 1;
        }
        proof {
            assert(r@ =~= selected_ids(self.selected_nodes@, self.active().node_ids@));
        }
        r
    }

    /// Packs the selected nodes of the active level into a new subgraph
    /// node (payload `sub_node`, id = the next free id, placed at the end
    /// of the level):
    /// - wires inside the selection move inside;
    /// - each distinct outside source feeding the selection becomes a
    ///   subgraph input, wired through the input bridge to its old
    ///   destinations;
    /// - each distinct inside source feeding the outside becomes a subgraph
    ///   output, wired through the output bridge to its old destinations;
    /// - the selected nodes move, in level order, behind the two bridge
    ///   nodes of the new inner level (payloads `bridge_in`, `bridge_out`).
    /// Outer wires are added through `add_connection` (`table` should list
    /// the active level's nodes and the new subgraph node); inner wires
    /// are added directly. Afterwards the level the selection came from is
    /// active again and the selection is empty. Nothing happens for an empty
    /// selection.
    pub fn move_selection_to_subgraph(&mut self, table: &Vec<NodePorts>, sub_node: W, label: String, bridge_in: W, bridge_out: W)
        -> (r: Option<MoveOutcome>)
        requires
            old(self).wf(),
            forall|k: int| 0 <= k < old(self).selected_nodes@.len() ==> #[trigger] old(self).selected_nodes@[k] < old(self).active().node_ids@.len(),
            old(self).next_id < BRIDGE_IN_RAW,
            old(self).levels@.len() < usize::MAX,
        ensures
            final(self).wf(),
            ({
                let a = old(self).active_level;
                let ids = old(self).active().node_ids@;
                let nodes = old(self).active().nodes@;
                let conns = old(self).active().connections@;
                let sel = old(self).selected_nodes@;
                let sids = selected_ids(sel, ids);
                let sub = NodeId(old(self).next_id);
                let l = old(self).levels@.len();
                let path_a = old(self).path();
                let inc = conns.filter(is_incoming(sids));
                let out = conns.filter(is_outgoing(sids));
                let outer_ids = keep_where(ids, staying(sel)).push(sub);
                let start = WireState {
                    conns: conns.filter(is_untouched(sids)),
                    events: old(self).widget_events@,
                    cmds: cmd_views(old(self).pending_engine_cmds@) + remove_node_cmds(path_a, sids),
                };
                let outer = ws_add_all(start, a, path_a, outer_ids, table@,
                    feed_wires(dedup_sources(inc), sub) + fanout_wires(out, dedup_sources(out), sub));
                let inner_path = path_a.push(sub);
                let inner_wires = conns.filter(is_internal(sids)) + bridge_in_wires(inc, dedup_sources(inc));
                let m = keep_where(ids, moving(sel)).len();
                if sel.len() == 0 {
                    &&& r is None
                    &&& final(self).levels@ == old(self).levels@
                    &&& final(self).active_level == a
                    &&& final(self).next_id == old(self).next_id
                    &&& final(self).selected_nodes@ == sel
                    &&& final(self).new_nodes@ == old(self).new_nodes@
                    &&& final(self).widget_events@ == old(self).widget_events@
                    &&& final(self).pending_engine_cmds@ == old(self).pending_engine_cmds@
                } else {
                    &&& r matches Some(o) && o.sub_id == sub && o.inner_level == l
                        && o.sub_index == outer_ids.len() - 1
                    &&& final(self).levels@.len() == l + 1
                    &&& forall|i: int| 0 <= i < l && i != a ==> #[trigger] final(self).levels@[i] == old(self).levels@[i]
                    &&& final(self).levels@[a as int].node_ids@ == outer_ids
                    &&& final(self).levels@[a as int].nodes@ == keep_where(nodes, staying(sel)).push(sub_node)
                    &&& final(self).levels@[a as int].connections@ == outer.conns
                    &&& final(self).levels@[a as int].connections@ == moved_outer(conns, sids, sub)
                    &&& final(self).levels@[a as int].subgraph_id == old(self).active().subgraph_id
                    &&& final(self).levels@[a as int].parent_level_idx == old(self).active().parent_level_idx
                    &&& final(self).levels@[a as int].label == old(self).active().label
                    &&& final(self).levels@[l as int].node_ids@ == seq![bridge_in_id(), bridge_out_id()] + keep_where(ids, moving(sel))
                    &&& final(self).levels@[l as int].nodes@ == seq![bridge_in, bridge_out] + keep_where(nodes, moving(sel))
                    &&& final(self).levels@[l as int].connections@ == moved_inner(conns, sids)
                    &&& final(self).levels@[l as int].subgraph_id == Some(sub)
                    &&& first_level_of(final(self).levels@, sub) == Some(l as usize)
                    &&& final(self).levels@[l as int].parent_level_idx == Some(a)
                    &&& final(self).levels@[l as int].label@ == label@
                    &&& final(self).active_level == a
                    &&& final(self).next_id == old(self).next_id + 1
                    &&& final(self).selected_nodes@.len() == 0
                    &&& final(self).widget_events@ == outer.events
                    &&& cmd_views(final(self).pending_engine_cmds@) == outer.cmds
                        + add_cmds(inner_path, inner_wires) + add_cmds(inner_path, bridge_out_wires(out, dedup_sources(out)))
                    &&& final(self).new_nodes@.len() == old(self).new_nodes@.len() + 1 + m
                    &&& forall|k: int| 0 <= k < old(self).new_nodes@.len() ==> #[trigger] final(self).new_nodes@[k] == old(self).new_nodes@[k]
                    &&& crate::graph::new_node_ok(final(self).new_nodes@[old(self).new_nodes@.len() as int], outer_ids.len() - 1, path_a)
                    &&& forall|k: int| old(self).new_nodes@.len() + 1 <= k < final(self).new_nodes@.len() ==>
                        crate::graph::new_node_ok(#[trigger] final(self).new_nodes@[k], k - old(self).new_nodes@.len() + 1, inner_path)
                }
            }),
    {
        if self.selected_nodes.len() == 0 {
            return None;
        }
        let a = self.active_level;
        let ghost ids0 = self.active().node_ids@;
        let ghost nodes0 = self.active().nodes@;
        let ghost conns0 = self.active().connections@;
        let ghost sel = self.selected_nodes@;
        let ghost path_a = self.path();
        let ghost levels0 = self.levels@;
        let ghost nn0 = self.new_nodes@;
        let ghost ev0 = self.widget_events@;
        let ghost cmd0 = cmd_views(self.pending_engine_cmds@);
        let sids = self.selected_id_list();
        let (internal, incoming, outgoing, untouched) = classify_connections(&self.levels[a].connections, &sids);
        let (uin, imap) = dedup_wire_sources(&incoming);
        let (uout, omap) = dedup_wire_sources(&outgoing);

        // Fresh id for the subgraph node.
        let sub_id = self.alloc_id();
        proof {
            assert forall|l: int, i: int| 0 <= l < self.levels@.len() && 0 <= i < self.levels@[l].node_ids@.len() implies {
                let id = #[trigger] self.levels@[l].node_ids@[i];
                id == bridge_in_id() || id == bridge_out_id() || id.0 < self.next_id
            } by {
                assert(levels0[l].node_ids@[i] == self.levels@[l].node_ids@[i]);
            }
            assert forall|l: int| 0 <= l < self.levels@.len() implies match #[trigger] self.levels@[l].subgraph_id {
                Some(s) => s.0 < self.next_id,
                None => true,
            } by {
                assert(match levels0[l].subgraph_id { Some(s) => s.0 < levels0.len() + self.next_id, None => true });
            }
            assert(first_level_of(self.levels@, sub_id) is None);
        }

        // Take the selected nodes out of the level.
        let n = self.levels[a].node_ids.len();
        let mut flags: Vec<bool> = Vec::new();
        let mut i: usize = 0;
        while i < n
            invariant
                i <= n,
                n == ids0.len(),
                sel == self.selected_nodes@,
                flags@.len() == i,
                forall|k: int| 0 <= k < i ==> flags@[k] == moving(sel)(k),
            decreases n - i,
        {
            flags.push(vec_contains_usize(&self.selected_nodes, i));
            i += 1;
        }
        let mut ids_tmp: Vec<NodeId> = Vec::new();
        let mut nodes_tmp: Vec<W> = Vec::new();
        std::mem::swap(&mut ids_tmp, &mut self.levels[a].node_ids);
        std::mem::swap(&mut nodes_tmp, &mut self.levels[a].nodes);
        proof {
            assert(ids0.len() == nodes0.len()) by {
                assert(levels0[a as int].node_ids@.len() == levels0[a as int].nodes@.len());
            }
        }
        let (mut kept_ids, mut kept_nodes, mut moved_ids, mut moved_nodes) =
            split_flagged(ids_tmp, nodes_tmp, &flags, Ghost(moving(sel)), Ghost(staying(sel)));
        std::mem::swap(&mut kept_ids, &mut self.levels[a].node_ids);
        std::mem::swap(&mut kept_nodes, &mut self.levels[a].nodes);
        self.levels[a].connections = untouched;
        proof {
            lemma_keep_where_subset(ids0, staying(sel));
            lemma_keep_where_subset(ids0, moving(sel));
            assert forall|l: int, i: int| 0 <= l < self.levels@.len() && 0 <= i < self.levels@[l].node_ids@.len() implies {
                let id = #[trigger] self.levels@[l].node_ids@[i];
                id == bridge_in_id() || id == bridge_out_id() || id.0 < self.next_id
            } by {
                if l != a {
                    assert(self.levels@[l] == levels0[l]);
                    assert(levels0[l].node_ids@[i] == self.levels@[l].node_ids@[i]);
                } else {
                    let q = choose|q: int| 0 <= q < ids0.len() && keep_where(ids0, staying(sel))[i] == ids0[q];
                    assert(levels0[a as int].node_ids@[q] == ids0[q]);
                }
            }
            assert forall|l: int| 0 <= l < self.levels@.len() implies match #[trigger] self.levels@[l].subgraph_id {
                Some(s) => s.0 < self.next_id,
                None => true,
            } by {
                assert(match levels0[l].subgraph_id { Some(s) => s.0 < self.next_id, None => true });
            }
            assert forall|i: int| 0 < i < self.levels@.len() implies match #[trigger] self.levels@[i].parent_level_idx {
                Some(p) => p < i,
                None => false,
            } by {
                assert(match levels0[i].parent_level_idx { Some(p) => p < i, None => false });
            }
            assert forall|i: int| 0 <= i < self.levels@.len() implies (#[trigger] self.levels@[i]).node_ids@.len() == self.levels@[i].nodes@.len() by {
                if i != a {
                    assert(self.levels@[i] == levels0[i]);
                }
            }
            assert(same_skeleton(self.levels@, levels0));
            lemma_path_skeleton(self.levels@, levels0, a as int);
        }
        self.push_remove_node_cmds(&sids);
        let sub_idx = self.add_node(sub_node, sub_id);
        let ghost levels1 = self.levels@;
        proof {
            assert(same_skeleton(self.levels@, levels0));
            lemma_path_skeleton(self.levels@, levels0, a as int);
        }

        // Outer wires through the new subgraph node.
        let mut outer_wires = build_feed_wires(&uin, sub_id);
        let mut fan = build_fanout_wires(&outgoing, &uout, &omap, sub_id);
        outer_wires.append(&mut fan);
        self.add_connections(&outer_wires, table);
        let ghost levels2 = self.levels@;
        proof {
            lemma_only_wires_skeleton(levels2, levels1, a as int, self.ws().conns);
            lemma_ws_add_all_conns(WireState {
                conns: conns0.filter(is_untouched(sids@)),
                events: ev0,
                cmds: cmd0 + remove_node_cmds(path_a, sids@),
            }, a, path_a, self.levels@[a as int].node_ids@, table@, outer_wires@);
        }

        // Open the new subgraph and fill it.
        let bin_id = bridge_in_node_id();
        let created = self.navigate_into(sub_idx, label, bridge_in, bridge_out);
        let inner = self.active_level;
        let ghost levels3 = self.levels@;
        proof {
            assert(self.levels@ == levels2.push(self.levels@[inner as int]));
            lemma_path_push(levels2, self.levels@[inner as int], a as int);
            assert(self.path() == path_a.push(sub_id));
        }
        self.levels[inner].node_ids.append(&mut moved_ids);
        self.levels[inner].nodes.append(&mut moved_nodes);
        proof {
            assert forall|l: int, i: int| 0 <= l < self.levels@.len() && 0 <= i < self.levels@[l].node_ids@.len() implies {
                let id = #[trigger] self.levels@[l].node_ids@[i];
                id == bridge_in_id() || id == bridge_out_id() || id.0 < self.next_id
            } by {
                if l != inner {
                    assert(self.levels@[l] == levels3[l]);
                    assert(levels3[l].node_ids@[i] == self.levels@[l].node_ids@[i]);
                } else if i >= 2 {
                    let q = choose|q: int| 0 <= q < ids0.len() && keep_where(ids0, moving(sel))[i - 2] == ids0[q];
                    assert(levels0[a as int].node_ids@[q] == ids0[q]);
                } else {
                    assert(levels3[l].node_ids@[i] == self.levels@[l].node_ids@[i]);
                }
            }
            assert forall|l: int| 0 <= l < self.levels@.len() implies match #[trigger] self.levels@[l].subgraph_id {
                Some(s) => s.0 < self.next_id,
                None => true,
            } by {
                assert(match levels3[l].subgraph_id { Some(s) => s.0 < self.next_id, None => true });
            }
            assert forall|i: int| 0 < i < self.levels@.len() implies match #[trigger] self.levels@[i].parent_level_idx {
                Some(p) => p < i,
                None => false,
            } by {
                assert(match levels3[i].parent_level_idx { Some(p) => p < i, None => false });
            }
            assert forall|i: int| 0 <= i < self.levels@.len() implies (#[trigger] self.levels@[i]).node_ids@.len() == self.levels@[i].nodes@.len() by {
                if i != inner {
                    assert(self.levels@[i] == levels3[i]);
                }
            }
            assert(same_skeleton(self.levels@, levels3));
            lemma_path_skeleton(self.levels@, levels3, inner as int);
        }
        let count = self.levels[inner].nodes.len();
        let mut j: usize = 2;
        let ghost nn1 = self.new_nodes@;
        let ghost levels_app = self.levels@;
        let ghost ev_app = self.widget_events@;
        let ghost cmds_app = self.pending_engine_cmds@;
        proof {
            assert forall|i: int| 0 <= i < levels3.len() && i != inner implies #[trigger] levels_app[i] == levels3[i] by {}
        }
        while j < count
            invariant
                2 <= j <= count,
                self.levels@ == levels_app,
                self.widget_events@ == ev_app,
                self.pending_engine_cmds@ == cmds_app,
                self.next_id == old(self).next_id + 1,
                self.selected_nodes@.len() == 0,
                self.wf(),
                self.active_level == inner,
                count == self.levels@[inner as int].nodes@.len(),
                self.path() == path_a.push(sub_id),
                self.new_nodes@.len() == nn1.len() + (j - 2),
                forall|k: int| 0 <= k < nn1.len() ==> #[trigger] self.new_nodes@[k] == nn1[k],
                forall|k: int| 0 <= k < j - 2 ==> crate::graph::new_node_ok(#[trigger] self.new_nodes@[nn1.len() + k], 2 + k, path_a.push(sub_id)),
            decreases count - j,
        {
            let path = self.current_subgraph_path();
            self.new_nodes.push(NewNode { index: j, subgraph_path: path });
            j += 1;
        }
        proof {
            assert(count == 2 + keep_where(ids0, moving(sel)).len());
            assert(nn1.len() == nn0.len() + 1);
            assert forall|k: int| 0 <= k < keep_where(ids0, moving(sel)).len() implies crate::graph::new_node_ok(
                #[trigger] self.new_nodes@[nn0.len() + 1 + k], 2 + k, path_a.push(sub_id)) by {
                assert(self.new_nodes@[nn1.len() + k] == self.new_nodes@[nn0.len() + 1 + k]);
            }
        }
        let ghost levels4 = self.levels@;
        let ghost c4 = cmd_views(self.pending_engine_cmds@);
        let ghost ip = path_a.push(sub_id);
        proof {
            assert(self.path() == ip);
        }
        self.push_wires_direct(&internal);
        let ghost levels5 = self.levels@;
        let ghost c5 = cmd_views(self.pending_engine_cmds@);
        proof {
            lemma_only_wires_skeleton(levels5, levels4, inner as int, self.ws().conns);
            assert(self.path() == ip);
            assert(c5 == c4 + add_cmds(ip, internal@));
        }
        let bi = build_bridge_in_wires(&incoming, &uin, &imap);
        self.push_wires_direct(&bi);
        let ghost levels6 = self.levels@;
        let ghost c6 = cmd_views(self.pending_engine_cmds@);
        proof {
            lemma_only_wires_skeleton(levels6, levels5, inner as int, self.ws().conns);
            assert(self.path() == ip);
            assert(c6 == c5 + add_cmds(ip, bi@));
        }
        let bo = build_bridge_out_wires(&outgoing, &uout, &omap);
        self.insert_wires_direct(&bo);
        proof {
            assert(cmd_views(self.pending_engine_cmds@) == c6 + add_cmds(ip, bo@));
            assert(add_cmds(ip, internal@ + bi@) =~= add_cmds(ip, internal@) + add_cmds(ip, bi@));
            assert(cmd_views(self.pending_engine_cmds@) =~= c4 + add_cmds(ip, internal@ + bi@) + add_cmds(ip, bo@));
        }
        proof {
            let ip = path_a.push(sub_id);
            assert(add_cmds(ip, internal@ + bi@) =~= add_cmds(ip, internal@) + add_cmds(ip, bi@));
            assert(self.widget_events@ == ev_app);
            let l0 = levels0.len() as int;
            assert forall|i: int| 0 <= i < l0 && i != a implies #[trigger] self.levels@[i] == levels0[i] by {
                assert(self.levels@[i] == levels6[i]);
                assert(levels6[i] == levels5[i]);
                assert(levels5[i] == levels4[i]);
                assert(levels4[i] == levels3[i]);
                assert(levels3[i] == levels2[i]);
                assert(levels2[i] == levels1[i]);
            }
        }
        self.selected_nodes.clear();
        let ghost nn2 = self.new_nodes@;
        self.navigate_to_level(a);
        proof {
            assert(self.new_nodes@ == nn2);
            assert forall|k: int| nn0.len() + 1 <= k < self.new_nodes@.len() implies crate::graph::new_node_ok(
                #[trigger] self.new_nodes@[k], k - nn0.len() + 1, path_a.push(sub_id)) by {
                assert(self.new_nodes@[nn1.len() + (k - nn1.len())] == self.new_nodes@[k]);
            }
            assert(path_a == old(self).path());
            assert(sub_id == NodeId(old(self).next_id));
            assert(nn0 == old(self).new_nodes@);
            assert(forall|k: int| old(self).new_nodes@.len() + 1 <= k < self.new_nodes@.len() ==>
                crate::graph::new_node_ok(#[trigger] self.new_nodes@[k], k - old(self).new_nodes@.len() + 1, old(self).path().push(NodeId(old(self).next_id))));
        }
        proof {
            let lv = self.levels@;
            let l0 = levels0.len() as int;
            assert forall|m: int| 0 <= m < l0 implies lv[m].subgraph_id != Some(sub_id) by {
                assert(match levels0[m].subgraph_id { Some(s) => s.0 < old(self).next_id, None => true });
                if m != a {
                    assert(lv[m] == levels0[m]);
                }
            }
            assert(lv[l0].subgraph_id == Some(sub_id));
            let c = choose|c: int| 0 <= c < lv.len() && lv[c].subgraph_id == Some(sub_id)
                && forall|m: int| 0 <= m < c ==> lv[m].subgraph_id != Some(sub_id);
            assert(c == l0);
        }
        Some(MoveOutcome { sub_id, sub_index: sub_idx, inner_level: inner })
    }
}


impl<W> NodeGraph<W> {
    /// Replaces the subgraph node at `sub_idx` of the active level by the
    /// nodes inside it (bridge nodes stay behind): its inside wires come
    /// along, and each wire through the subgraph's ports is joined with the
    /// matching inside bridge wire into one direct wire. The subgraph's
    /// inner level keeps only its bridges and no wires. Nothing happens
    /// when `sub_idx` is out of range, `is_subgraph` is false (the widget
    /// there is not a subgraph), no level belongs to the node, or the level
    /// that belongs to it is the active one.
    #[verifier::rlimit(80)]
    pub fn unpack_subgraph(&mut self, sub_idx: usize, is_subgraph: bool) -> (r: Option<UnpackOutcome<W>>)
        requires
            old(self).wf(),
        ensures
            final(self).wf(),
            ({
                let a = old(self).active_level;
                let ids = old(self).active().node_ids@;
                let nodes = old(self).active().nodes@;
                let outer = old(self).active().connections@;
                let sub = ids[sub_idx as int];
                let path = old(self).path();
                if sub_idx >= ids.len() || !is_subgraph || first_level_of(old(self).levels@, sub) is None
                    || first_level_of(old(self).levels@, sub) == Some(old(self).active_level) {
                    &&& r is None
                    &&& final(self).levels@ == old(self).levels@
                    &&& final(self).selected_nodes@ == old(self).selected_nodes@
                    &&& final(self).new_nodes@ == old(self).new_nodes@
                    &&& final(self).pending_engine_cmds@ == old(self).pending_engine_cmds@
                    &&& final(self).widget_events@ == old(self).widget_events@
                } else {
                    let li = first_level_of(old(self).levels@, sub).unwrap() as int;
                    let in_ids = old(self).levels@[li].node_ids@;
                    let in_nodes = old(self).levels@[li].nodes@;
                    let inner = old(self).levels@[li].connections@;
                    let m = keep_where(in_ids, not_bridge_at(in_ids)).len();
                    let added = inner.filter(bridgeless())
                        + compose_in(inner.filter(from_bridge_in()), outer.filter(into_node(sub)))
                        + compose_out(inner.filter(to_bridge_out()), outer.filter(out_of_node(sub)));
                    &&& r matches Some(o) && o.sub_id == sub && o.sub_node == nodes[sub_idx as int]
                        && o.start == ids.len() - 1 && o.end == ids.len() - 1 + m
                    &&& final(self).levels@.len() == old(self).levels@.len()
                    &&& forall|i: int| 0 <= i < old(self).levels@.len() && i != a && i != li ==>
                        #[trigger] final(self).levels@[i] == old(self).levels@[i]
                    &&& final(self).levels@[li].node_ids@ == keep_where(in_ids, is_bridge_at(in_ids))
                    &&& final(self).levels@[li].nodes@ == keep_where(in_nodes, is_bridge_at(in_ids))
                    &&& final(self).levels@[li].connections@.len() == 0
                    &&& final(self).levels@[li].subgraph_id == old(self).levels@[li].subgraph_id
                    &&& final(self).levels@[li].parent_level_idx == old(self).levels@[li].parent_level_idx
                    &&& final(self).levels@[li].label == old(self).levels@[li].label
                    &&& final(self).levels@[a as int].node_ids@ == ids.remove(sub_idx as int) + keep_where(in_ids, not_bridge_at(in_ids))
                    &&& final(self).levels@[a as int].nodes@ == nodes.remove(sub_idx as int) + keep_where(in_nodes, not_bridge_at(in_ids))
                    &&& final(self).levels@[a as int].connections@ == unpacked(outer, inner, sub)
                    &&& final(self).levels@[a as int].subgraph_id == old(self).active().subgraph_id
                    &&& final(self).levels@[a as int].parent_level_idx == old(self).active().parent_level_idx
                    &&& final(self).levels@[a as int].label == old(self).active().label
                    &&& final(self).selected_nodes@.len() == 0
                    &&& final(self).widget_events@ == old(self).widget_events@
                    &&& cmd_views(final(self).pending_engine_cmds@) == cmd_views(old(self).pending_engine_cmds@)
                        .push(routed(path, SubgraphInnerCmd::RemoveNode(sub))) + add_cmds(path, added)
                    &&& final(self).new_nodes@.len() == old(self).new_nodes@.len() + m
                    &&& forall|k: int| 0 <= k < old(self).new_nodes@.len() ==> #[trigger] final(self).new_nodes@[k] == old(self).new_nodes@[k]
                    &&& forall|k: int| old(self).new_nodes@.len() <= k < final(self).new_nodes@.len() ==>
                        crate::graph::new_node_ok(#[trigger] final(self).new_nodes@[k], ids.len() - 1 + (k - old(self).new_nodes@.len()), path)
                }
            }),
            final(self).active_level == old(self).active_level,
            final(self).next_id == old(self).next_id,
    {
        let a = self.active_level;
        if sub_idx >= self.levels[a].node_ids.len() || !is_subgraph {
            return None;
        }
        let sub_id = self.levels[a].node_ids[sub_idx];
        let li = match crate::graph::level_position(&self.levels, sub_id) {
            Some(l) => l,
            None => {
                return None;
            },
        };
        if li == a {
            return None;
        }
        let ghost levels0 = self.levels@;
        let ghost ids0 = self.active().node_ids@;
        let ghost nodes0 = self.active().nodes@;
        let ghost in_ids = self.levels@[li as int].node_ids@;
        let ghost in_nodes = self.levels@[li as int].nodes@;
        let ghost path = self.path();
        let ghost nn0 = self.new_nodes@;
        let ghost cmd0 = cmd_views(self.pending_engine_cmds@);
        let ghost ev0 = self.widget_events@;
        let ext_in = filter_wires_by(&self.levels[a].connections, sub_id, 1);
        let ext_out = filter_wires_by(&self.levels[a].connections, sub_id, 2);
        let kept_outer = filter_wires_by(&self.levels[a].connections, sub_id, 0);
        let it = filter_wires_by(&self.levels[li].connections, sub_id, 3);
        let bi = filter_wires_by(&self.levels[li].connections, sub_id, 4);
        let bo = filter_wires_by(&self.levels[li].connections, sub_id, 5);

        // Take the non-bridge nodes out of the inner level.
        let bin = bridge_in_node_id();
        let bout = bridge_out_node_id();
        let n = self.levels[li].node_ids.len();
        let mut flags: Vec<bool> = Vec::new();
        let mut i: usize = 0;
        while i < n
            invariant
                i <= n,
                li < self.levels@.len(),
                n == in_ids.len(),
                in_ids == self.levels@[li as int].node_ids@,
                bin == bridge_in_id(),
                bout == bridge_out_id(),
                flags@.len() == i,
                forall|k: int| 0 <= k < i ==> flags@[k] == not_bridge_at(in_ids)(k),
            decreases n - i,
        {
            let id = self.levels[li].node_ids[i];
            flags.push(!(id == bin || id == bout));
            i += 1;
        }
        let mut ids_tmp: Vec<NodeId> = Vec::new();
        let mut nodes_tmp: Vec<W> = Vec::new();
        std::mem::swap(&mut ids_tmp, &mut self.levels[li].node_ids);
        std::mem::swap(&mut nodes_tmp, &mut self.levels[li].nodes);
        proof {
            assert(in_ids.len() == in_nodes.len()) by {
                assert(levels0[li as int].node_ids@.len() == levels0[li as int].nodes@.len());
            }
        }
        let (mut kept_ids, mut kept_nodes, mut taken_ids, mut taken_nodes) =
            split_flagged(ids_tmp, nodes_tmp, &flags, Ghost(not_bridge_at(in_ids)), Ghost(is_bridge_at(in_ids)));
        std::mem::swap(&mut kept_ids, &mut self.levels[li].node_ids);
        std::mem::swap(&mut kept_nodes, &mut self.levels[li].nodes);
        self.levels[li].connections = Vec::new();

        // Remove the subgraph node and its wires from the active level.
        self.levels[a].connections = kept_outer;
        let sub_node = self.levels[a].nodes.remove(sub_idx);
        self.levels[a].node_ids.remove(sub_idx);
        let ghost levels1 = self.levels@;
        proof {
            lemma_keep_where_subset(in_ids, is_bridge_at(in_ids));
            assert(li != a);
            assert forall|l: int, j: int| 0 <= l < self.levels@.len() && 0 <= j < self.levels@[l].node_ids@.len() implies {
                let id = #[trigger] self.levels@[l].node_ids@[j];
                id == bridge_in_id() || id == bridge_out_id() || id.0 < self.next_id
            } by {
                if l == a {
                    if j < sub_idx {
                        assert(levels0[a as int].node_ids@[j] == self.levels@[l].node_ids@[j]);
                    } else {
                        assert(levels0[a as int].node_ids@[j + 1] == self.levels@[l].node_ids@[j]);
                    }
                } else if l == li {
                    let q = choose|q: int| 0 <= q < in_ids.len() && keep_where(in_ids, is_bridge_at(in_ids))[j] == in_ids[q];
                    assert(levels0[li as int].node_ids@[q] == in_ids[q]);
                } else {
                    assert(self.levels@[l] == levels0[l]);
                    assert(levels0[l].node_ids@[j] == self.levels@[l].node_ids@[j]);
                }
            }
            assert forall|l: int| 0 <= l < self.levels@.len() implies match #[trigger] self.levels@[l].subgraph_id {
                Some(s) => s.0 < self.next_id,
                None => true,
            } by {
                assert(match levels0[l].subgraph_id { Some(s) => s.0 < self.next_id, None => true });
            }
            assert forall|l: int| 0 < l < self.levels@.len() implies match #[trigger] self.levels@[l].parent_level_idx {
                Some(p) => p < l,
                None => false,
            } by {
                assert(match levels0[l].parent_level_idx { Some(p) => p < l, None => false });
            }
            assert forall|l: int| 0 <= l < self.levels@.len() implies (#[trigger] self.levels@[l]).node_ids@.len() == self.levels@[l].nodes@.len() by {
                if l != a && l != li {
                    assert(self.levels@[l] == levels0[l]);
                }
            }
            assert(same_skeleton(self.levels@, levels0));
            lemma_path_skeleton(self.levels@, levels0, a as int);
        }
        self.push_engine_cmd(SubgraphInnerCmd::RemoveNode(sub_id));

        // Place the taken nodes at the end of the active level.
        let start = self.levels[a].nodes.len();
        self.levels[a].node_ids.append(&mut taken_ids);
        self.levels[a].nodes.append(&mut taken_nodes);
        let end = self.levels[a].nodes.len();
        let ghost levels2 = self.levels@;
        proof {
            lemma_keep_where_subset(in_ids, not_bridge_at(in_ids));
            assert forall|l: int, j: int| 0 <= l < self.levels@.len() && 0 <= j < self.levels@[l].node_ids@.len() implies {
                let id = #[trigger] self.levels@[l].node_ids@[j];
                id == bridge_in_id() || id == bridge_out_id() || id.0 < self.next_id
            } by {
                if l == a {
                    if j < start {
                        assert(levels1[a as int].node_ids@[j] == self.levels@[l].node_ids@[j]);
                    } else {
                        let q = choose|q: int| 0 <= q < in_ids.len() && keep_where(in_ids, not_bridge_at(in_ids))[j - start] == in_ids[q];
                        assert(levels0[li as int].node_ids@[q] == in_ids[q]);
                    }
                } else {
                    assert(self.levels@[l] == levels1[l]);
                    assert(levels1[l].node_ids@[j] == self.levels@[l].node_ids@[j]);
                }
            }
            assert forall|l: int| 0 <= l < self.levels@.len() implies match #[trigger] self.levels@[l].subgraph_id {
                Some(s) => s.0 < self.next_id,
                None => true,
            } by {
                assert(match levels1[l].subgraph_id { Some(s) => s.0 < self.next_id, None => true });
            }
            assert forall|l: int| 0 < l < self.levels@.len() implies match #[trigger] self.levels@[l].parent_level_idx {
                Some(p) => p < l,
                None => false,
            } by {
                assert(match levels1[l].parent_level_idx { Some(p) => p < l, None => false });
            }
            assert forall|l: int| 0 <= l < self.levels@.len() implies (#[trigger] self.levels@[l]).node_ids@.len() == self.levels@[l].nodes@.len() by {
                if l != a {
                    assert(self.levels@[l] == levels1[l]);
                }
            }
            assert(same_skeleton(self.levels@, levels0));
            lemma_path_skeleton(self.levels@, levels0, a as int);
        }
        let ghost nn1 = self.new_nodes@;
        let ghost cmd1 = self.pending_engine_cmds@;
        let mut j: usize = start;
        while j < end
            invariant
                start <= j <= end,
                self.wf(),
                self.active_level == a,
                self.levels@ == levels2,
                self.next_id == old(self).next_id,
                self.pending_engine_cmds@ == cmd1,
                self.widget_events@ == ev0,
                self.path() == path,
                self.new_nodes@.len() == nn1.len() + (j - start),
                forall|k: int| 0 <= k < nn1.len() ==> #[trigger] self.new_nodes@[k] == nn1[k],
                forall|k: int| nn1.len() <= k < self.new_nodes@.len() ==>
                    crate::graph::new_node_ok(#[trigger] self.new_nodes@[k], start + (k - nn1.len()), path),
            decreases end - j,
        {
            let p = self.current_subgraph_path();
            self.new_nodes.push(NewNode { index: j, subgraph_path: p });
            j += 1;
        }

        // Re-wire: inside wires as they were, then the joined wires.
        let ci = build_compose_in(&bi, &ext_in);
        let co = build_compose_out(&bo, &ext_out);
        let mut all = it;
        let mut ci2 = ci;
        let mut co2 = co;
        all.append(&mut ci2);
        all.append(&mut co2);
        let ghost levels3 = self.levels@;
        self.push_wires_direct(&all);
        proof {
            assert forall|l: int| 0 <= l < levels0.len() && l != a && l != li implies #[trigger] self.levels@[l] == levels0[l] by {
                assert(self.levels@[l] == levels3[l]);
                assert(levels3[l] == levels1[l]);
            }
            assert(self.levels@[li as int] == levels1[li as int]);
        }
        self.selected_nodes.clear();
        Some(UnpackOutcome { sub_id, sub_node, start, end })
    }
}

} // verus!
