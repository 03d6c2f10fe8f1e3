//! The node graph: levels (root graph and opened subgraphs), their nodes and
//! wires, id allocation, selection, and the commands and widget
//! notifications that editing produces.
//!
//! Node payloads are opaque (`W`): the graph moves them around together with
//! their ids but never looks inside. Port types, which only the widgets know,
//! are handed in as a table of [`NodePorts`].
use vstd::prelude::*;

use crate::ports::{Connection, NodeId, PortDir, PortId, PortType, types_compatible};
use crate::wiring::{
    no_duplicate_wires, contains_connection,
    any_wire_from, any_wire_into, first_source_into, has_wire_from, has_wire_into,
    insert_connection, not_into, retain_not_into, source_into,
};

verus! {

broadcast use vstd::seq_lib::group_seq_properties;

/// Raw id of the bridge node that stands for a subgraph's inputs inside it.
pub const BRIDGE_IN_RAW: u64 = 18446744073709551614;

/// Raw id of the bridge node that stands for a subgraph's outputs inside it.
pub const BRIDGE_OUT_RAW: u64 = 18446744073709551615;

pub open spec fn bridge_in_id() -> NodeId {
    NodeId(BRIDGE_IN_RAW)
}

pub open spec fn bridge_out_id() -> NodeId {
    NodeId(BRIDGE_OUT_RAW)
}

pub fn bridge_in_node_id() -> (r: NodeId)
    ensures
        r == bridge_in_id(),
{
    NodeId(BRIDGE_IN_RAW)
}

pub fn bridge_out_node_id() -> (r: NodeId)
    ensures
        r == bridge_out_id(),
{
    NodeId(BRIDGE_OUT_RAW)
}

/// A command for the processing side, scoped to a subgraph.
#[derive(Clone, Copy, Debug, PartialEq, Eq, Structural)]
pub enum SubgraphInnerCmd {
    AddConnection(Connection),
    RemoveConnectionTo(PortId),
    RemoveNode(NodeId),
    NotifyConnect { node_id: NodeId, input_port: usize, source_type: PortType },
    NotifyDisconnect { node_id: NodeId, input_port: usize },
}

/// A command for the processing side.
pub enum EngineCommand {
    AddConnection(Connection),
    RemoveConnectionTo(PortId),
    RemoveNode(NodeId),
    NotifyConnect { node_id: NodeId, input_port: usize, source_type: PortType },
    NotifyDisconnect { node_id: NodeId, input_port: usize },
    /// A command meant for the graph inside the subgraph at `subgraph_path`.
    SubgraphInnerCommand { subgraph_path: Vec<NodeId>, command: Box<SubgraphInnerCmd> },
}

/// Abstract value of an [`EngineCommand`].
pub enum CommandView {
    Root(SubgraphInnerCmd),
    Nested(Seq<NodeId>, SubgraphInnerCmd),
}

impl View for EngineCommand {
    type V = CommandView;

    open spec fn view(&self) -> CommandView {
        match self {
            EngineCommand::AddConnection(c) => CommandView::Root(SubgraphInnerCmd::AddConnection(*c)),
            EngineCommand::RemoveConnectionTo(p) => CommandView::Root(
                SubgraphInnerCmd::RemoveConnectionTo(*p),
            ),
            EngineCommand::RemoveNode(id) => CommandView::Root(SubgraphInnerCmd::RemoveNode(*id)),
            EngineCommand::NotifyConnect { node_id, input_port, source_type } => CommandView::Root(
                SubgraphInnerCmd::NotifyConnect {
                    node_id: *node_id,
                    input_port: *input_port,
                    source_type: *source_type,
                },
            ),
            EngineCommand::NotifyDisconnect { node_id, input_port } => CommandView::Root(
                SubgraphInnerCmd::NotifyDisconnect { node_id: *node_id, input_port: *input_port },
            ),
            EngineCommand::SubgraphInnerCommand { subgraph_path, command } => CommandView::Nested(
                subgraph_path@,
                **command,
            ),
        }
    }
}

/// How a command is queued when the active level sits at `path`: at the
/// root it goes out as is; inside a subgraph a plain command is wrapped for
/// that subgraph, and an already wrapped one goes out unchanged.
pub open spec fn routed(path: Seq<NodeId>, c: SubgraphInnerCmd) -> CommandView {
    if path.len() == 0 {
        CommandView::Root(c)
    } else {
        CommandView::Nested(path, c)
    }
}

pub open spec fn cmd_views(cmds: Seq<EngineCommand>) -> Seq<CommandView> {
    cmds.map_values(|c: EngineCommand| c@)
}

/// A notification for a widget whose wiring changed.
#[derive(Clone, Copy, Debug, PartialEq, Eq, Structural)]
pub enum WidgetEvent {
    InputConnected { level: usize, node: NodeId, port: usize, source_type: PortType },
    OutputConnected { level: usize, node: NodeId, port: usize, dest_type: PortType },
    InputDisconnected { level: usize, node: NodeId, port: usize },
    OutputDisconnected { level: usize, node: NodeId, port: usize },
}

/// Type and enabled state of one port, as the widget reports it.
#[derive(Clone, Copy, Debug, PartialEq, Eq, Structural)]
pub struct PortSlot {
    pub port_type: PortType,
    pub disabled: bool,
}

/// The ports of one node, as its widget currently reports them.
pub struct NodePorts {
    pub id: NodeId,
    pub inputs: Vec<PortSlot>,
    pub outputs: Vec<PortSlot>,
}

/// Position of the first entry with the given id.
pub open spec fn first_index_of(ids: Seq<NodeId>, id: NodeId) -> Option<int>
    decreases ids.len(),
{
    if ids.len() == 0 {
        None
    } else if ids[0] == id {
        Some(0)
    } else {
        match first_index_of(ids.subrange(1, ids.len() as int), id) {
            Some(i) => Some(i + 1),
            None => None,
        }
    }
}

pub proof fn lemma_first_index_of(ids: Seq<NodeId>, id: NodeId)
    ensures
        match first_index_of(ids, id) {
            Some(i) => 0 <= i < ids.len() && ids[i] == id && forall|k: int| 0 <= k < i ==> ids[k] != id,
            None => forall|k: int| 0 <= k < ids.len() ==> ids[k] != id,
        },
    decreases ids.len(),
{
    if ids.len() > 0 {
        let tail = ids.subrange(1, ids.len() as int);
        lemma_first_index_of(tail, id);
        if ids[0] != id {
            match first_index_of(tail, id) {
                Some(i) => {
                    assert forall|k: int| 0 <= k < i + 1 implies ids[k] != id by {
                        if k > 0 {
                            assert(ids[k] == tail[k - 1]);
                        }
                    }
                },
                None => {
                    assert forall|k: int| 0 <= k < ids.len() implies ids[k] != id by {
                        if k > 0 {
                            assert(ids[k] == tail[k - 1]);
                        }
                    }
                },
            }
        }
    }
}

pub fn position_of(ids: &Vec<NodeId>, id: NodeId) -> (r: Option<usize>)
    ensures
        match r {
            Some(i) => first_index_of(ids@, id) == Some(i as int) && i < ids@.len() && ids@[i as int] == id,
            None => first_index_of(ids@, id) is None,
        },
{
    proof {
        lemma_first_index_of(ids@, id);
    }
    let mut i: usize = 0;
    while i < ids.len()
        invariant
            i <= ids.len(),
            forall|k: int| 0 <= k < i ==> ids@[k] != id,
            match first_index_of(ids@, id) {
                Some(j) => 0 <= j < ids.len() && ids@[j] == id && forall|k: int|
                    0 <= k < j ==> ids@[k] != id,
                None => forall|k: int| 0 <= k < ids.len() ==> ids@[k] != id,
            },
        decreases ids.len() - i,
    {
        if ids[i] == id {
            return Some(i);
        }
        i += 1;
    }
    None
}

/// Ids of a ports table.
pub open spec fn port_ids(table: Seq<NodePorts>) -> Seq<NodeId> {
    table.map_values(|p: NodePorts| p.id)
}

/// Type of output `k` of node `id` in the table; missing entries read as `Untyped`.
pub open spec fn output_type_in(table: Seq<NodePorts>, id: NodeId, k: int) -> PortType {
    match first_index_of(port_ids(table), id) {
        Some(i) => if 0 <= k < table[i].outputs@.len() {
            table[i].outputs@[k].port_type
        } else {
            PortType::Untyped
        },
        None => PortType::Untyped,
    }
}

/// Type of input `k` of node `id` in the table; missing entries read as `Untyped`.
pub open spec fn input_type_in(table: Seq<NodePorts>, id: NodeId, k: int) -> PortType {
    match first_index_of(port_ids(table), id) {
        Some(i) => if 0 <= k < table[i].inputs@.len() {
            table[i].inputs@[k].port_type
        } else {
            PortType::Untyped
        },
        None => PortType::Untyped,
    }
}

fn table_position(table: &Vec<NodePorts>, id: NodeId) -> (r: Option<usize>)
    ensures
        match r {
            Some(i) => first_index_of(port_ids(table@), id) == Some(i as int) && i < table@.len(),
            None => first_index_of(port_ids(table@), id) is None,
        },
{
    let ghost ids = port_ids(table@);
    proof {
        lemma_first_index_of(ids, id);
    }
    let mut i: usize = 0;
    while i < table.len()
        invariant
            i <= table.len(),
            ids == port_ids(table@),
            forall|k: int| 0 <= k < i ==> ids[k] != id,
            match first_index_of(ids, id) {
                Some(j) => 0 <= j < ids.len() && ids[j] == id && forall|k: int| 0 <= k < j ==> ids[k] != id,
                None => forall|k: int| 0 <= k < ids.len() ==> ids[k] != id,
            },
        decreases table.len() - i,
    {
        proof {
            assert(ids[i as int] == table@[i as int].id);
        }
        if table[i].id == id {
            return Some(i);
        }
        i += 1;
    }
    None
}

pub fn output_type_of(table: &Vec<NodePorts>, id: NodeId, k: usize) -> (r: PortType)
    ensures
        r == output_type_in(table@, id, k as int),
{
    match table_position(table, id) {
        Some(i) => if k < table[i].outputs.len() {
            table[i].outputs[k].port_type
        } else {
            PortType::Untyped
        },
        None => PortType::Untyped,
    }
}

pub fn input_type_of(table: &Vec<NodePorts>, id: NodeId, k: usize) -> (r: PortType)
    ensures
        r == input_type_in(table@, id, k as int),
{
    match table_position(table, id) {
        Some(i) => if k < table[i].inputs.len() {
            table[i].inputs[k].port_type
        } else {
            PortType::Untyped
        },
        None => PortType::Untyped,
    }
}

/// One level of the graph: the root graph, or the inside of a subgraph.
pub struct GraphLevel<W> {
    /// Node ids, parallel to `nodes`.
    pub node_ids: Vec<NodeId>,
    /// Node payloads (widget and layout), parallel to `node_ids`.
    pub nodes: Vec<W>,
    pub connections: Vec<Connection>,
    /// The subgraph node that owns this level; `None` for the root.
    pub subgraph_id: Option<NodeId>,
    /// Index of the level this one lives inside; `None` for the root.
    pub parent_level_idx: Option<usize>,
    /// Label for breadcrumb display.
    pub label: String,
    /// Ids of the level's decorative frames, oldest first. A frame's title,
    /// colour, notes and rectangle are kept by the caller under its id.
    pub frame_ids: Vec<u64>,
}

/// A node that was just placed; the app wires it up (clock subscriptions, ...).
pub struct NewNode {
    pub index: usize,
    /// Subgraph ids from the root to the level holding the node.
    pub subgraph_path: Vec<NodeId>,
}

pub struct NodeGraph<W> {
    pub levels: Vec<GraphLevel<W>>,
    pub active_level: usize,
    pub next_id: u64,
    /// Indices (into the active level) of the selected nodes.
    pub selected_nodes: Vec<usize>,
    pub new_nodes: Vec<NewNode>,
    pub pending_engine_cmds: Vec<EngineCommand>,
    pub widget_events: Vec<WidgetEvent>,
    /// A macro action from the node context menu, waiting for the app.
    pub pending_macro_request: Option<MacroRequest>,
    /// The selected wires of the active level, each listed once.
    pub selected_connections: Vec<Connection>,
    /// Ids of the selected frames of the active level.
    pub selected_frames: Vec<u64>,
}

/// A right-click action on a subgraph node that the application handles.
pub enum MacroRequest {
    /// Open the "Save as macro" dialog for this subgraph node, found at
    /// `subgraph_path`.
    SaveAs { node_id: NodeId, subgraph_path: Vec<NodeId> },
}

/// Subgraph ids from the root down to level `idx`, following parent links.
pub open spec fn path_of<W>(levels: Seq<GraphLevel<W>>, idx: int) -> Seq<NodeId>
    decreases idx,
{
    if idx <= 0 || idx >= levels.len() {
        Seq::empty()
    } else {
        let prefix = match levels[idx].parent_level_idx {
            Some(p) => if p < idx {
                path_of(levels, p as int)
            } else {
                Seq::empty()
            },
            None => Seq::empty(),
        };
        match levels[idx].subgraph_id {
            Some(s) => prefix.push(s),
            None => prefix,
        }
    }
}

pub open spec fn levels_wf<W>(levels: Seq<GraphLevel<W>>) -> bool {
    &&& levels.len() >= 1
    &&& levels[0].parent_level_idx is None
    &&& forall|i: int| 0 < i < levels.len() ==> match #[trigger] levels[i].parent_level_idx {
        Some(p) => p < i,
        None => false,
    }
    &&& forall|i: int| 0 <= i < levels.len() ==> (#[trigger] levels[i]).node_ids@.len() == levels[i].nodes@.len()
    &&& forall|i: int| 0 < i < levels.len() ==> (#[trigger] levels[i]).subgraph_id is Some
}

pub open spec fn new_node_ok(n: NewNode, index: int, path: Seq<NodeId>) -> bool {
    n.index == index && n.subgraph_path@ == path
}


/// Two level lists agree on everything that determines paths and shape.
pub open spec fn same_skeleton<W>(a: Seq<GraphLevel<W>>, b: Seq<GraphLevel<W>>) -> bool {
    &&& a.len() == b.len()
    &&& forall|i: int| 0 <= i < a.len() ==> (#[trigger] a[i]).parent_level_idx == b[i].parent_level_idx
        && a[i].subgraph_id == b[i].subgraph_id
        && a[i].node_ids@.len() == a[i].nodes@.len()
        && b[i].node_ids@.len() == b[i].nodes@.len()
}

pub proof fn lemma_path_skeleton<W>(a: Seq<GraphLevel<W>>, b: Seq<GraphLevel<W>>, idx: int)
    requires
        same_skeleton(a, b),
    ensures
        path_of(a, idx) == path_of(b, idx),
    decreases idx,
{
    if 0 < idx < a.len() {
        assert(a[idx].parent_level_idx == b[idx].parent_level_idx);
        match a[idx].parent_level_idx {
            Some(p) => if p < idx {
                lemma_path_skeleton(a, b, p as int);
            },
            None => {},
        }
    }
}

/// `new` differs from `old` only in the wires of level `a`, which are now `conns`.
pub open spec fn only_wires_changed<W>(
    new: Seq<GraphLevel<W>>,
    old: Seq<GraphLevel<W>>,
    a: int,
    conns: Seq<Connection>,
) -> bool {
    &&& new.len() == old.len()
    &&& 0 <= a < old.len()
    &&& forall|i: int| 0 <= i < old.len() && i != a ==> #[trigger] new[i] == old[i]
    &&& new[a].node_ids == old[a].node_ids
    &&& new[a].nodes == old[a].nodes
    &&& new[a].subgraph_id == old[a].subgraph_id
    &&& new[a].parent_level_idx == old[a].parent_level_idx
    &&& new[a].label == old[a].label
    &&& new[a].frame_ids == old[a].frame_ids
    &&& new[a].connections@ == conns
}

/// Widget notifications for a newly added wire: only when both ends are
/// nodes of the level.
pub open spec fn connect_events(level: usize, ids: Seq<NodeId>, table: Seq<NodePorts>, c: Connection) -> Seq<WidgetEvent> {
    if first_index_of(ids, c.from.node) is Some && first_index_of(ids, c.to.node) is Some {
        seq![
            WidgetEvent::InputConnected {
                level,
                node: c.to.node,
                port: c.to.index,
                source_type: output_type_in(table, c.from.node, c.from.index as int),
            },
            WidgetEvent::OutputConnected {
                level,
                node: c.from.node,
                port: c.from.index,
                dest_type: input_type_in(table, c.to.node, c.to.index as int),
            },
        ]
    } else {
        seq![]
    }
}

/// Commands for a newly added wire.
pub open spec fn connect_cmds(path: Seq<NodeId>, ids: Seq<NodeId>, table: Seq<NodePorts>, c: Connection) -> Seq<CommandView> {
    let notify = if first_index_of(ids, c.from.node) is Some && first_index_of(ids, c.to.node) is Some {
        seq![routed(path, SubgraphInnerCmd::NotifyConnect {
            node_id: c.to.node,
            input_port: c.to.index,
            source_type: output_type_in(table, c.from.node, c.from.index as int),
        })]
    } else {
        seq![]
    };
    notify.push(routed(path, SubgraphInnerCmd::AddConnection(c)))
}

/// Widget notifications for dropping the wires into `to` from `conns`.
pub open spec fn disconnect_events(level: usize, ids: Seq<NodeId>, conns: Seq<Connection>, to: PortId) -> Seq<WidgetEvent> {
    if !has_wire_into(conns, to) {
        seq![]
    } else {
        let rest = conns.filter(not_into(to));
        let dst = if first_index_of(ids, to.node) is Some {
            seq![WidgetEvent::InputDisconnected { level, node: to.node, port: to.index }]
        } else {
            seq![]
        };
        let src = match first_source_into(conns, to) {
            Some(from) => if !has_wire_from(rest, from) && first_index_of(ids, from.node) is Some {
                seq![WidgetEvent::OutputDisconnected { level, node: from.node, port: from.index }]
            } else {
                seq![]
            },
            None => seq![],
        };
        dst + src
    }
}

/// Commands for dropping the wires into `to` from `conns`.
pub open spec fn disconnect_cmds(path: Seq<NodeId>, conns: Seq<Connection>, to: PortId) -> Seq<CommandView> {
    if !has_wire_into(conns, to) {
        seq![]
    } else {
        seq![
            routed(path, SubgraphInnerCmd::RemoveConnectionTo(to)),
            routed(path, SubgraphInnerCmd::NotifyDisconnect { node_id: to.node, input_port: to.index }),
        ]
    }
}


/// The wiring-related part of a graph's state: active wires, queued widget
/// notifications and queued commands.
pub struct WireState {
    pub conns: Seq<Connection>,
    pub events: Seq<WidgetEvent>,
    pub cmds: Seq<CommandView>,
}

/// Effect of `add_connection`.
pub open spec fn ws_add(ws: WireState, level: usize, path: Seq<NodeId>, ids: Seq<NodeId>, table: Seq<NodePorts>, c: Connection) -> WireState {
    if ws.conns.contains(c) {
        ws
    } else {
        WireState {
            conns: ws.conns.push(c),
            events: ws.events + connect_events(level, ids, table, c),
            cmds: ws.cmds + connect_cmds(path, ids, table, c),
        }
    }
}

/// Effect of `remove_connection_to`.
pub open spec fn ws_remove(ws: WireState, level: usize, path: Seq<NodeId>, ids: Seq<NodeId>, to: PortId) -> WireState {
    WireState {
        conns: ws.conns.filter(not_into(to)),
        events: ws.events + disconnect_events(level, ids, ws.conns, to),
        cmds: ws.cmds + disconnect_cmds(path, ws.conns, to),
    }
}

/// Effect of rewiring an input: drop what feeds `c.to`, then add `c`.
pub open spec fn ws_rewire(ws: WireState, level: usize, path: Seq<NodeId>, ids: Seq<NodeId>, table: Seq<NodePorts>, c: Connection) -> WireState {
    ws_add(ws_remove(ws, level, path, ids, c.to), level, path, ids, table, c)
}

/// Rewiring each wire of `cs` in order.
pub open spec fn ws_rewire_all(ws: WireState, level: usize, path: Seq<NodeId>, ids: Seq<NodeId>, table: Seq<NodePorts>, cs: Seq<Connection>) -> WireState
    decreases cs.len(),
{
    if cs.len() == 0 {
        ws
    } else {
        ws_rewire(ws_rewire_all(ws, level, path, ids, table, cs.drop_last()), level, path, ids, table, cs.last())
    }
}

/// Dropping the wires into each port of `tos` in order.
pub open spec fn ws_remove_all(ws: WireState, level: usize, path: Seq<NodeId>, ids: Seq<NodeId>, tos: Seq<PortId>) -> WireState
    decreases tos.len(),
{
    if tos.len() == 0 {
        ws
    } else {
        ws_remove(ws_remove_all(ws, level, path, ids, tos.drop_last()), level, path, ids, tos.last())
    }
}

/// Output ports of node `id` in the table (none when it is missing).
pub open spec fn outputs_of(table: Seq<NodePorts>, id: NodeId) -> Seq<PortSlot> {
    match first_index_of(port_ids(table), id) {
        Some(i) => table[i].outputs@,
        None => seq![],
    }
}

/// Input ports of node `id` in the table (none when it is missing).
pub open spec fn inputs_of(table: Seq<NodePorts>, id: NodeId) -> Seq<PortSlot> {
    match first_index_of(port_ids(table), id) {
        Some(i) => table[i].inputs@,
        None => seq![],
    }
}

/// Whether output `si` and input `di` exist, are enabled and have
/// compatible types.
pub open spec fn pairable(outs: Seq<PortSlot>, ins: Seq<PortSlot>, si: int, di: int) -> bool {
    &&& 0 <= si < outs.len()
    &&& 0 <= di < ins.len()
    &&& !outs[si].disabled
    &&& !ins[di].disabled
    &&& crate::ports::types_compatible(outs[si].port_type, ins[di].port_type)
}

/// Index pairs `(s0 + k, d0 + k)` for `k < n` that can be wired, in order.
pub open spec fn bundle_pairs(outs: Seq<PortSlot>, ins: Seq<PortSlot>, s0: int, d0: int, n: int) -> Seq<(usize, usize)>
    decreases n,
{
    if n <= 0 {
        seq![]
    } else {
        let prev = bundle_pairs(outs, ins, s0, d0, n - 1);
        if pairable(outs, ins, s0 + n - 1, d0 + n - 1) {
            prev.push(((s0 + n - 1) as usize, (d0 + n - 1) as usize))
        } else {
            prev
        }
    }
}

/// Wires for index pairs between a source and a destination node.
pub open spec fn pair_wires(src: NodeId, dst: NodeId, pairs: Seq<(usize, usize)>) -> Seq<Connection> {
    pairs.map_values(|p: (usize, usize)| Connection {
        from: PortId { node: src, index: p.0, dir: PortDir::Output },
        to: PortId { node: dst, index: p.1, dir: PortDir::Input },
    })
}

/// Greedy in-order pairing of outputs with inputs: disabled ports are
/// skipped; on a type mismatch the output is skipped.
pub open spec fn greedy_pairs(outs: Seq<PortSlot>, ins: Seq<PortSlot>, o: int, i: int) -> Seq<(usize, usize)>
    decreases (outs.len() - o) + (ins.len() - i),
{
    if o < 0 || i < 0 || o >= outs.len() || i >= ins.len() {
        seq![]
    } else if outs[o].disabled {
        greedy_pairs(outs, ins, o + 1, i)
    } else if ins[i].disabled {
        greedy_pairs(outs, ins, o, i + 1)
    } else if !crate::ports::types_compatible(outs[o].port_type, ins[i].port_type) {
        greedy_pairs(outs, ins, o + 1, i)
    } else {
        seq![(o as usize, i as usize)] + greedy_pairs(outs, ins, o + 1, i + 1)
    }
}

/// Position of the first enabled input at or after `i` (the length when
/// there is none).
pub open spec fn first_enabled_from(ins: Seq<PortSlot>, i: int) -> int
    decreases ins.len() - i,
{
    if i < 0 || i >= ins.len() {
        ins.len() as int
    } else if !ins[i].disabled {
        i
    } else {
        first_enabled_from(ins, i + 1)
    }
}

/// `r` pairs the outputs from `o0` on with the inputs from `i0` on in
/// order, as auto-connect does:
/// - every pair joins an enabled output and an enabled input of compatible
///   types, at or after the starts;
/// - outputs advance from pair to pair;
/// - each pair takes the next enabled input: only disabled inputs are
///   passed over, so a type mismatch never uses up an input;
/// - each pair takes the first enabled output that fits its input;
/// - the pairing is maximal: once it ends, no enabled output after the last
///   paired one fits the next enabled input.
pub open spec fn is_in_order_pairing(outs: Seq<PortSlot>, ins: Seq<PortSlot>, o0: int, i0: int, r: Seq<(usize, usize)>) -> bool {
    let next_o = if r.len() == 0 { o0 } else { r.last().0 + 1 };
    let next_i = if r.len() == 0 { i0 } else { r.last().1 + 1 };
    &&& forall|k: int| 0 <= k < r.len() ==> pairable(outs, ins, #[trigger] r[k].0 as int, r[k].1 as int) && o0 <= r[k].0
    &&& 0 < r.len() ==> r[0].1 == first_enabled_from(ins, i0)
    &&& forall|k: int, l: int| 0 <= k && l == k + 1 && l < r.len() ==> #[trigger] r[k].0 < #[trigger] r[l].0
        && r[l].1 == first_enabled_from(ins, r[k].1 + 1)
    &&& forall|y: int| 0 < r.len() && o0 <= y < r[0].0 && !(#[trigger] outs[y]).disabled
        ==> !crate::ports::types_compatible(outs[y].port_type, ins[r[0].1 as int].port_type)
    &&& forall|k: int, l: int, y: int| #![trigger r[k], r[l], outs[y]] 0 <= k && l == k + 1 && l < r.len() && r[k].0 < y < r[l].0
        && !outs[y].disabled ==> !crate::ports::types_compatible(outs[y].port_type, ins[r[l].1 as int].port_type)
    &&& first_enabled_from(ins, next_i) < ins.len() ==> forall|y: int| next_o <= y < outs.len() && !(#[trigger] outs[y]).disabled
        ==> !crate::ports::types_compatible(outs[y].port_type, ins[first_enabled_from(ins, next_i)].port_type)
}

proof fn lemma_pairing_skip_out(outs: Seq<PortSlot>, ins: Seq<PortSlot>, o: int, i: int, r: Seq<(usize, usize)>)
    requires
        0 <= o < outs.len(),
        0 <= i < ins.len(),
        outs[o].disabled || (!ins[i].disabled && !crate::ports::types_compatible(outs[o].port_type, ins[i].port_type)),
        is_in_order_pairing(outs, ins, o + 1, i, r),
    ensures
        is_in_order_pairing(outs, ins, o, i, r),
{
    if !outs[o].disabled {
        assert(first_enabled_from(ins, i) == i);
    }
}

proof fn lemma_pairing_skip_in(outs: Seq<PortSlot>, ins: Seq<PortSlot>, o: int, i: int, r: Seq<(usize, usize)>)
    requires
        0 <= o < outs.len(),
        0 <= i < ins.len(),
        ins[i].disabled,
        is_in_order_pairing(outs, ins, o, i + 1, r),
    ensures
        is_in_order_pairing(outs, ins, o, i, r),
{
    assert(first_enabled_from(ins, i) == first_enabled_from(ins, i + 1));
}

proof fn lemma_pairing_take(outs: Seq<PortSlot>, ins: Seq<PortSlot>, o: int, i: int, rest: Seq<(usize, usize)>)
    requires
        pairable(outs, ins, o, i),
        outs.len() <= usize::MAX,
        ins.len() <= usize::MAX,
        is_in_order_pairing(outs, ins, o + 1, i + 1, rest),
    ensures
        is_in_order_pairing(outs, ins, o, i, seq![(o as usize, i as usize)] + rest),
{
    let r = seq![(o as usize, i as usize)] + rest;
    assert(r[0] == (o as usize, i as usize));
    assert(first_enabled_from(ins, i) == i);
    assert forall|k: int| 1 <= k < r.len() implies #[trigger] r[k] == rest[k - 1] by {}
    assert forall|k: int| 0 <= k < r.len() implies pairable(outs, ins, #[trigger] r[k].0 as int, r[k].1 as int) && o <= r[k].0 by {
        if k > 0 {
            assert(r[k] == rest[k - 1]);
        }
    }
    assert forall|k: int, l: int| 0 <= k && l == k + 1 && l < r.len() implies #[trigger] r[k].0 < #[trigger] r[l].0
        && r[l].1 == first_enabled_from(ins, r[k].1 + 1) by {
        assert(r[l] == rest[l - 1]);
        if k > 0 {
            assert(r[k] == rest[k - 1]);
        }
    }
    assert forall|k: int, l: int, y: int| #![trigger r[k], r[l], outs[y]] 0 <= k && l == k + 1 && l < r.len() && r[k].0 < y < r[l].0
        && !outs[y].disabled implies !crate::ports::types_compatible(outs[y].port_type, ins[r[l].1 as int].port_type) by {
        assert(r[l] == rest[l - 1]);
        if k > 0 {
            assert(r[k] == rest[k - 1]);
        }
    }
    if rest.len() > 0 {
        assert(r.last() == rest.last());
    } else {
        assert(r.last() == (o as usize, i as usize));
    }
}

proof fn lemma_greedy_pairs_from(outs: Seq<PortSlot>, ins: Seq<PortSlot>, o: int, i: int)
    requires
        0 <= o,
        0 <= i,
        outs.len() <= usize::MAX,
        ins.len() <= usize::MAX,
    ensures
        is_in_order_pairing(outs, ins, o, i, greedy_pairs(outs, ins, o, i)),
    decreases (outs.len() - o) + (ins.len() - i),
{
    if o >= outs.len() || i >= ins.len() {
    } else if outs[o].disabled {
        lemma_greedy_pairs_from(outs, ins, o + 1, i);
        lemma_pairing_skip_out(outs, ins, o, i, greedy_pairs(outs, ins, o, i));
    } else if ins[i].disabled {
        lemma_greedy_pairs_from(outs, ins, o, i + 1);
        lemma_pairing_skip_in(outs, ins, o, i, greedy_pairs(outs, ins, o, i));
    } else if !crate::ports::types_compatible(outs[o].port_type, ins[i].port_type) {
        lemma_greedy_pairs_from(outs, ins, o + 1, i);
        lemma_pairing_skip_out(outs, ins, o, i, greedy_pairs(outs, ins, o, i));
    } else {
        lemma_greedy_pairs_from(outs, ins, o + 1, i + 1);
        lemma_pairing_take(outs, ins, o, i, greedy_pairs(outs, ins, o + 1, i + 1));
    }
}

/// Auto-connect pairs outputs with inputs in order: the pairs are wireable
/// and advance on both sides, a type mismatch skips the output and never
/// uses up an input, each pair takes the first fitting output, and the
/// pairing stops only when no remaining output fits the next enabled
/// input (see [`is_in_order_pairing`]).
pub proof fn lemma_greedy_pairs_in_order(outs: Seq<PortSlot>, ins: Seq<PortSlot>)
    requires
        outs.len() <= usize::MAX,
        ins.len() <= usize::MAX,
    ensures
        is_in_order_pairing(outs, ins, 0, 0, greedy_pairs(outs, ins, 0, 0)),
{
    lemma_greedy_pairs_from(outs, ins, 0, 0);
}

/// Effect of dropping a bundle of `n` wires between the port dragged from
/// and the target: consecutive type-compatible, enabled port pairs are
/// rewired, provided both nodes are in the level.
pub open spec fn ws_bundle(ws: WireState, level: usize, path: Seq<NodeId>, ids: Seq<NodeId>, table: Seq<NodePorts>, dc_from: PortId, target: PortId, n: int) -> WireState {
    let out_first = dc_from.dir == PortDir::Output;
    let src = if out_first { dc_from.node } else { target.node };
    let dst = if out_first { target.node } else { dc_from.node };
    let s0 = if out_first { dc_from.index } else { target.index };
    let d0 = if out_first { target.index } else { dc_from.index };
    if first_index_of(ids, src) is Some && first_index_of(ids, dst) is Some {
        ws_rewire_all(ws, level, path, ids, table,
            pair_wires(src, dst, bundle_pairs(outputs_of(table, src), inputs_of(table, dst), s0 as int, d0 as int, n)))
    } else {
        ws
    }
}

/// The wire a drag from `from` to `target` makes: from the output end to
/// the input end.
pub open spec fn wire_between(from: PortId, target: PortId) -> Connection {
    if from.dir == PortDir::Output {
        Connection { from, to: target }
    } else {
        Connection { from: target, to: from }
    }
}

/// Inputs `start.index + 1 ..` of `start.node`, `n - 1` of them.
pub open spec fn bundle_tail(start: PortId, n: int) -> Seq<PortId> {
    Seq::new(if n > 1 { (n - 1) as nat } else { 0 }, |k: int| PortId { node: start.node, index: (start.index + k + 1) as usize, dir: PortDir::Input })
}

/// Effect of releasing a dragged wire. On a snapped target a single wire
/// replaces what fed the input, a bundle connects consecutive ports; on
/// empty canvas a bundle dragged off a connected input also drops the
/// wires of the next inputs.
pub open spec fn ws_drop(ws: WireState, level: usize, path: Seq<NodeId>, ids: Seq<NodeId>, table: Seq<NodePorts>, from: PortId, snap: Option<PortId>, bundle: int, unwired_to: Option<PortId>) -> WireState {
    let b = if bundle < 1 { 1 } else { bundle };
    match snap {
        Some(t) => if b <= 1 {
            ws_rewire(ws, level, path, ids, table, wire_between(from, t))
        } else {
            ws_bundle(ws, level, path, ids, table, from, t, b)
        },
        None => match unwired_to {
            Some(start) => if b > 1 { ws_remove_all(ws, level, path, ids, bundle_tail(start, b)) } else { ws },
            None => ws,
        },
    }
}

/// Ports a wire dragged from a port of `from_node` (direction `from_dir`,
/// type `from_type`) may snap to: the enabled, type-compatible ports of
/// the other direction on every other node, node after node.
pub open spec fn snap_candidates(table: Seq<NodePorts>, from_dir: PortDir, from_type: PortType, from_node: NodeId) -> Seq<PortId>
    decreases table.len(),
{
    if table.len() == 0 {
        Seq::empty()
    } else {
        let e = table.last();
        snap_candidates(table.drop_last(), from_dir, from_type, from_node) + (if e.id == from_node {
            Seq::empty()
        } else {
            node_snap_ports(e, from_dir, from_type, (if from_dir == PortDir::Output { e.inputs@.len() } else { e.outputs@.len() }) as int)
        })
    }
}

/// The first `n` snap ports of one node.
pub open spec fn node_snap_ports(e: NodePorts, from_dir: PortDir, from_type: PortType, n: int) -> Seq<PortId>
    decreases n,
{
    if n <= 0 {
        Seq::empty()
    } else {
        let prev = node_snap_ports(e, from_dir, from_type, n - 1);
        let slot = if from_dir == PortDir::Output { e.inputs@[n - 1] } else { e.outputs@[n - 1] };
        let dir = if from_dir == PortDir::Output { PortDir::Input } else { PortDir::Output };
        if !slot.disabled && types_compatible(from_type, slot.port_type) {
            prev.push(PortId { node: e.id, index: (n - 1) as usize, dir })
        } else {
            prev
        }
    }
}

proof fn lemma_node_snap_ports(e: NodePorts, from_dir: PortDir, from_type: PortType, n: int)
    requires
        0 <= n <= (if from_dir == PortDir::Output { e.inputs@.len() } else { e.outputs@.len() }),
    ensures
        forall|k: int| 0 <= k < node_snap_ports(e, from_dir, from_type, n).len() ==> {
            let p = #[trigger] node_snap_ports(e, from_dir, from_type, n)[k];
            let slot = if from_dir == PortDir::Output { e.inputs@[p.index as int] } else { e.outputs@[p.index as int] };
            &&& p.node == e.id
            &&& p.dir != from_dir
            &&& p.index < n
            &&& !slot.disabled
            &&& types_compatible(from_type, slot.port_type)
        },
    decreases n,
{
    if n > 0 {
        lemma_node_snap_ports(e, from_dir, from_type, n - 1);
        let prev = node_snap_ports(e, from_dir, from_type, n - 1);
        let cur = node_snap_ports(e, from_dir, from_type, n);
        let slots = if from_dir == PortDir::Output { e.inputs@ } else { e.outputs@ };
        assert(slots.len() <= usize::MAX) by {
            if from_dir == PortDir::Output {
                assert(e.inputs@.len() == e.inputs.len());
            } else {
                assert(e.outputs@.len() == e.outputs.len());
            }
        }
        assert forall|k: int| 0 <= k < cur.len() implies {
            let p = #[trigger] cur[k];
            let slot = if from_dir == PortDir::Output { e.inputs@[p.index as int] } else { e.outputs@[p.index as int] };
            &&& p.node == e.id
            &&& p.dir != from_dir
            &&& p.index < n
            &&& !slot.disabled
            &&& types_compatible(from_type, slot.port_type)
        } by {
            if k < prev.len() {
                assert(cur[k] == prev[k]);
            } else {
                assert(cur[k].index == n - 1);
            }
        }
    }
}

/// Every snap candidate is an enabled port of another node, on the other
/// side, whose type is compatible with the dragged port's.
pub proof fn lemma_snap_candidates_compatible(table: Seq<NodePorts>, from_dir: PortDir, from_type: PortType, from_node: NodeId)
    ensures
        forall|k: int| 0 <= k < snap_candidates(table, from_dir, from_type, from_node).len() ==> {
            let p = #[trigger] snap_candidates(table, from_dir, from_type, from_node)[k];
            &&& p.node != from_node
            &&& p.dir != from_dir
            &&& exists|j: int| 0 <= j < table.len() && table[j].id == p.node && {
                let slot = if from_dir == PortDir::Output { table[j].inputs@[p.index as int] } else { table[j].outputs@[p.index as int] };
                &&& p.index < (if from_dir == PortDir::Output { table[j].inputs@.len() } else { table[j].outputs@.len() })
                &&& !slot.disabled
                &&& types_compatible(from_type, slot.port_type)
            }
        },
    decreases table.len(),
{
    if table.len() > 0 {
        let rest = table.drop_last();
        let e = table.last();
        lemma_snap_candidates_compatible(rest, from_dir, from_type, from_node);
        let n = (if from_dir == PortDir::Output { e.inputs@.len() } else { e.outputs@.len() }) as int;
        lemma_node_snap_ports(e, from_dir, from_type, n);
        let a = snap_candidates(rest, from_dir, from_type, from_node);
        let all = snap_candidates(table, from_dir, from_type, from_node);
        assert forall|k: int| 0 <= k < all.len() implies {
            let p = #[trigger] all[k];
            &&& p.node != from_node
            &&& p.dir != from_dir
            &&& exists|j: int| 0 <= j < table.len() && table[j].id == p.node && {
                let slot = if from_dir == PortDir::Output { table[j].inputs@[p.index as int] } else { table[j].outputs@[p.index as int] };
                &&& p.index < (if from_dir == PortDir::Output { table[j].inputs@.len() } else { table[j].outputs@.len() })
                &&& !slot.disabled
                &&& types_compatible(from_type, slot.port_type)
            }
        } by {
            if k < a.len() {
                assert(all[k] == a[k]);
                let p = a[k];
                let j = choose|j: int| 0 <= j < rest.len() && rest[j].id == p.node && {
                    let slot = if from_dir == PortDir::Output { rest[j].inputs@[p.index as int] } else { rest[j].outputs@[p.index as int] };
                    &&& p.index < (if from_dir == PortDir::Output { rest[j].inputs@.len() } else { rest[j].outputs@.len() })
                    &&& !slot.disabled
                    &&& types_compatible(from_type, slot.port_type)
                };
                assert(table[j] == rest[j]);
            } else {
                assert(e.id != from_node);
                let q = node_snap_ports(e, from_dir, from_type, n);
                assert(all[k] == q[k - a.len()]);
                assert(table[table.len() - 1] == e);
            }
        }
    }
}

/// The port on the other side of a drag from direction `from_dir`.
pub open spec fn other_side_port(node: NodeId, index: int, from_dir: PortDir) -> PortId {
    PortId { node, index: index as usize, dir: if from_dir == PortDir::Output { PortDir::Input } else { PortDir::Output } }
}

proof fn lemma_node_snap_ports_complete(e: NodePorts, from_dir: PortDir, from_type: PortType, n: int)
    requires
        0 <= n <= (if from_dir == PortDir::Output { e.inputs@.len() } else { e.outputs@.len() }),
    ensures
        forall|x: int| 0 <= x < n && {
            let slot = if from_dir == PortDir::Output { e.inputs@[x] } else { e.outputs@[x] };
            !slot.disabled && types_compatible(from_type, slot.port_type)
        } ==> #[trigger] node_snap_ports(e, from_dir, from_type, n).contains(other_side_port(e.id, x, from_dir)),
    decreases n,
{
    if n > 0 {
        lemma_node_snap_ports_complete(e, from_dir, from_type, n - 1);
        let prev = node_snap_ports(e, from_dir, from_type, n - 1);
        let cur = node_snap_ports(e, from_dir, from_type, n);
        assert forall|x: int| 0 <= x < n && {
            let slot = if from_dir == PortDir::Output { e.inputs@[x] } else { e.outputs@[x] };
            !slot.disabled && types_compatible(from_type, slot.port_type)
        } implies #[trigger] cur.contains(other_side_port(e.id, x, from_dir)) by {
            if x < n - 1 {
                assert(prev.contains(other_side_port(e.id, x, from_dir)));
                let k = choose|k: int| 0 <= k < prev.len() && prev[k] == other_side_port(e.id, x, from_dir);
                assert(cur[k] == prev[k]);
            } else {
                assert(cur[cur.len() - 1] == other_side_port(e.id, x, from_dir));
            }
        }
    }
}

/// Snapping is complete: every enabled port on the other side of every
/// other node whose type is compatible with the dragged port's type is a
/// snap candidate.
pub proof fn lemma_snap_candidates_complete(table: Seq<NodePorts>, from_dir: PortDir, from_type: PortType, from_node: NodeId)
    ensures
        forall|j: int, x: int| 0 <= j < table.len() && table[j].id != from_node && 0 <= x < (if from_dir
            == PortDir::Output { table[j].inputs@.len() } else { table[j].outputs@.len() }) && {
            let slot = if from_dir == PortDir::Output { table[j].inputs@[x] } else { table[j].outputs@[x] };
            !slot.disabled && types_compatible(from_type, slot.port_type)
        } ==> #[trigger] snap_candidates(table, from_dir, from_type, from_node).contains(
            #[trigger] other_side_port(table[j].id, x, from_dir),
        ),
    decreases table.len(),
{
    if table.len() > 0 {
        let rest = table.drop_last();
        let e = table.last();
        lemma_snap_candidates_complete(rest, from_dir, from_type, from_node);
        let n = (if from_dir == PortDir::Output { e.inputs@.len() } else { e.outputs@.len() }) as int;
        lemma_node_snap_ports_complete(e, from_dir, from_type, n);
        let a = snap_candidates(rest, from_dir, from_type, from_node);
        let all = snap_candidates(table, from_dir, from_type, from_node);
        assert forall|j: int, x: int| 0 <= j < table.len() && table[j].id != from_node && 0 <= x < (if from_dir
            == PortDir::Output { table[j].inputs@.len() } else { table[j].outputs@.len() }) && {
            let slot = if from_dir == PortDir::Output { table[j].inputs@[x] } else { table[j].outputs@[x] };
            !slot.disabled && types_compatible(from_type, slot.port_type)
        } implies #[trigger] all.contains(#[trigger] other_side_port(table[j].id, x, from_dir)) by {
            let p = other_side_port(table[j].id, x, from_dir);
            if j < table.len() - 1 {
                assert(table[j] == rest[j]);
                assert(a.contains(other_side_port(rest[j].id, x, from_dir)));
                let k = choose|k: int| 0 <= k < a.len() && a[k] == p;
                assert(all[k] == a[k]);
            } else {
                assert(table[j] == e);
                let q = node_snap_ports(e, from_dir, from_type, n);
                assert(q.contains(other_side_port(e.id, x, from_dir)));
                let k = choose|k: int| 0 <= k < q.len() && q[k] == p;
                assert(all == a + q);
                assert(all[a.len() + k] == q[k]);
            }
        }
    }
}

fn push_node_snap_ports(out: &mut Vec<PortId>, e: &NodePorts, from_dir: PortDir, from_type: PortType)
    ensures
        final(out)@ == old(out)@ + node_snap_ports(*e, from_dir, from_type,
            (if from_dir == PortDir::Output { e.inputs@.len() } else { e.outputs@.len() }) as int),
{
    let slots = if from_dir == PortDir::Output { &e.inputs } else { &e.outputs };
    let dir = if from_dir == PortDir::Output { PortDir::Input } else { PortDir::Output };
    let mut i: usize = 0;
    while i < slots.len()
        invariant
            i <= slots.len(),
            *slots == (if from_dir == PortDir::Output { e.inputs } else { e.outputs }),
            dir == (if from_dir == PortDir::Output { PortDir::Input } else { PortDir::Output }),
            out@ == old(out)@ + node_snap_ports(*e, from_dir, from_type, i as int),
        decreases slots.len() - i,
    {
        let slot = slots[i];
        if !slot.disabled && from_type.compatible_with(&slot.port_type) {
            out.push(PortId { node: e.id, index: i, dir });
            proof {
                assert(out@ =~= old(out)@ + node_snap_ports(*e, from_dir, from_type, i + 1));
            }
        }
        i += 1;
    }
}

/// The ports a wire dragged from `from_node` can snap to; the nearest of
/// them (a distance on screen) is chosen by the caller.
pub fn compute_snap_candidates(table: &Vec<NodePorts>, from_dir: PortDir, from_type: PortType, from_node: NodeId) -> (r: Vec<PortId>)
    ensures
        r@ == snap_candidates(table@, from_dir, from_type, from_node),
        forall|j: int, x: int| 0 <= j < table@.len() && table@[j].id != from_node && 0 <= x < (if from_dir
            == PortDir::Output { table@[j].inputs@.len() } else { table@[j].outputs@.len() }) && {
            let slot = if from_dir == PortDir::Output { table@[j].inputs@[x] } else { table@[j].outputs@[x] };
            !slot.disabled && types_compatible(from_type, slot.port_type)
        } ==> #[trigger] r@.contains(#[trigger] other_side_port(table@[j].id, x, from_dir)),
{
    proof {
        lemma_snap_candidates_complete(table@, from_dir, from_type, from_node);
    }
    let mut out: Vec<PortId> = Vec::new();
    let mut i: usize = 0;
    while i < table.len()
        invariant
            i <= table.len(),
            out@ == snap_candidates(table@.take(i as int), from_dir, from_type, from_node),
        decreases table.len() - i,
    {
        proof {
            assert(table@.take(i + 1).drop_last() =~= table@.take(i as int));
            assert(table@.take(i + 1).last() == table@[i as int]);
        }
        let e = &table[i];
        if e.id != from_node {
            push_node_snap_ports(&mut out, e, from_dir, from_type);
        } else {
            proof {
                assert(out@ =~= out@ + Seq::<PortId>::empty());
            }
        }
        i += 1;
    }
    proof {
        assert(table@.take(table.len() as int) =~= table@);
    }
    out
}

/// Whether the output/input of a wire is missing from the table or the two
/// ends are no longer type-compatible.
pub open spec fn is_stale(table: Seq<NodePorts>, c: Connection) -> bool {
    let outs = outputs_of(table, c.from.node);
    let ins = inputs_of(table, c.to.node);
    if first_index_of(port_ids(table), c.from.node) is Some && c.from.index < outs.len()
        && first_index_of(port_ids(table), c.to.node) is Some && c.to.index < ins.len() {
        !crate::ports::types_compatible(outs[c.from.index as int].port_type, ins[c.to.index as int].port_type)
    } else {
        true
    }
}

/// Destination ports of the stale wires, in wire order.
pub open spec fn stale_targets(table: Seq<NodePorts>, conns: Seq<Connection>) -> Seq<PortId>
    decreases conns.len(),
{
    if conns.len() == 0 {
        seq![]
    } else {
        let prev = stale_targets(table, conns.drop_last());
        if is_stale(table, conns.last()) {
            prev.push(conns.last().to)
        } else {
            prev
        }
    }
}

/// `j` is the position of the first entry of node `id` in the ports table.
pub open spec fn is_first_entry(table: Seq<NodePorts>, id: NodeId, j: int) -> bool {
    &&& 0 <= j < table.len()
    &&& table[j].id == id
    &&& forall|k: int| 0 <= k < j ==> table[k].id != id
}

/// A wire's output and input both exist in the ports table (in the first
/// entries of their nodes) and their types are compatible.
pub open spec fn ends_fit(table: Seq<NodePorts>, c: Connection) -> bool {
    exists|j: int, l: int| #[trigger] is_first_entry(table, c.from.node, j) && #[trigger] is_first_entry(table, c.to.node, l)
        && c.from.index < table[j].outputs@.len() && c.to.index < table[l].inputs@.len()
        && types_compatible(table[j].outputs@[c.from.index as int].port_type, table[l].inputs@[c.to.index as int].port_type)
}

proof fn lemma_first_entry_of(table: Seq<NodePorts>, id: NodeId)
    ensures
        match first_index_of(port_ids(table), id) {
            Some(f) => is_first_entry(table, id, f),
            None => forall|k: int| 0 <= k < table.len() ==> table[k].id != id,
        },
        forall|j: int| #[trigger] is_first_entry(table, id, j) ==> first_index_of(port_ids(table), id) == Some(j),
{
    let ids = port_ids(table);
    lemma_first_index_of(ids, id);
    match first_index_of(ids, id) {
        Some(f) => {
            assert forall|k: int| 0 <= k < f implies table[k].id != id by {
                assert(ids[k] == table[k].id);
            }
            assert(ids[f] == table[f].id);
            assert forall|j: int| #[trigger] is_first_entry(table, id, j) implies first_index_of(ids, id) == Some(j) by {
                if f < j {
                    assert(table[f].id == id);
                }
                if j < f {
                    assert(ids[j] == table[j].id);
                }
            }
        },
        None => {
            assert forall|k: int| 0 <= k < table.len() implies table[k].id != id by {
                assert(ids[k] == table[k].id);
            }
        },
    }
}

/// A wire is stale exactly when its output or its input is missing from
/// the ports table or the types of its two ends are no longer compatible.
pub proof fn lemma_stale_iff_ends_misfit(table: Seq<NodePorts>, c: Connection)
    ensures
        is_stale(table, c) <==> !ends_fit(table, c),
{
    lemma_first_entry_of(table, c.from.node);
    lemma_first_entry_of(table, c.to.node);
    if !is_stale(table, c) {
        let j = first_index_of(port_ids(table), c.from.node)->0;
        let l = first_index_of(port_ids(table), c.to.node)->0;
        assert(is_first_entry(table, c.from.node, j) && is_first_entry(table, c.to.node, l));
    }
}

proof fn lemma_remove_all_conns(ws: WireState, level: usize, path: Seq<NodeId>, ids: Seq<NodeId>, tos: Seq<PortId>)
    ensures
        forall|c: Connection| #[trigger] ws_remove_all(ws, level, path, ids, tos).conns.contains(c) <==> ws.conns.contains(c)
            && !tos.contains(c.to),
    decreases tos.len(),
{
    if tos.len() > 0 {
        let rest = tos.drop_last();
        lemma_remove_all_conns(ws, level, path, ids, rest);
        let prev = ws_remove_all(ws, level, path, ids, rest).conns;
        let cur = ws_remove_all(ws, level, path, ids, tos).conns;
        let t = tos.last();
        assert(cur == prev.filter(not_into(t)));
        assert forall|c: Connection| #[trigger] cur.contains(c) <==> ws.conns.contains(c) && !tos.contains(c.to) by {
            if cur.contains(c) {
                prev.lemma_filter_contains_rev(not_into(t), c);
                let k = choose|k: int| 0 <= k < cur.len() && cur[k] == c;
                prev.lemma_filter_pred(not_into(t), k);
                assert(c.to != t);
                if tos.contains(c.to) {
                    let m = choose|m: int| 0 <= m < tos.len() && tos[m] == c.to;
                    assert(m < tos.len() - 1);
                    assert(rest[m] == c.to);
                }
            }
            if ws.conns.contains(c) && !tos.contains(c.to) {
                assert forall|m: int| 0 <= m < rest.len() implies rest[m] != c.to by {
                    assert(tos[m] == rest[m]);
                }
                assert(prev.contains(c));
                assert(c.to != tos[tos.len() - 1]);
                let k = choose|k: int| 0 <= k < prev.len() && prev[k] == c;
                prev.lemma_filter_contains(not_into(t), k);
            }
        }
    }
}

proof fn lemma_stale_targets_from(table: Seq<NodePorts>, conns: Seq<Connection>)
    ensures
        forall|c: Connection| conns.contains(c) && is_stale(table, c) ==> #[trigger] stale_targets(table, conns).contains(c.to),
        forall|p: PortId| #[trigger] stale_targets(table, conns).contains(p) ==> exists|d: Connection| conns.contains(d)
            && is_stale(table, d) && d.to == p,
    decreases conns.len(),
{
    if conns.len() > 0 {
        let rest = conns.drop_last();
        lemma_stale_targets_from(table, rest);
        let prev = stale_targets(table, rest);
        let cur = stale_targets(table, conns);
        let last = conns.last();
        if is_stale(table, last) {
            assert(cur == prev.push(last.to));
        } else {
            assert(cur == prev);
        }
        assert forall|c: Connection| conns.contains(c) && is_stale(table, c) implies #[trigger] cur.contains(c.to) by {
            let k = choose|k: int| 0 <= k < conns.len() && conns[k] == c;
            if k < conns.len() - 1 {
                assert(rest[k] == c);
                assert(prev.contains(c.to));
                let m = choose|m: int| 0 <= m < prev.len() && prev[m] == c.to;
                assert(cur[m] == prev[m]);
            } else {
                assert(cur[cur.len() - 1] == c.to);
            }
        }
        assert forall|p: PortId| #[trigger] cur.contains(p) implies exists|d: Connection| conns.contains(d)
            && is_stale(table, d) && d.to == p by {
            let m = choose|m: int| 0 <= m < cur.len() && cur[m] == p;
            if m < prev.len() {
                assert(prev[m] == p);
                assert(prev.contains(p));
                let d = choose|d: Connection| rest.contains(d) && is_stale(table, d) && d.to == p;
                let k = choose|k: int| 0 <= k < rest.len() && rest[k] == d;
                assert(conns[k] == d);
            } else {
                assert(conns[conns.len() - 1] == last);
            }
        }
    }
}

/// Cleaning up stale wires keeps exactly the wires whose input is fed by
/// no stale wire: every remaining wire was there before and joins an
/// existing output and an existing input of compatible types, and a wire
/// that fits stays unless a misfit wire shares its input.
pub proof fn lemma_cleanup_keeps_fitting_wires(ws: WireState, level: usize, path: Seq<NodeId>, ids: Seq<NodeId>, table: Seq<NodePorts>, c: Connection)
    ensures
        ws_remove_all(ws, level, path, ids, stale_targets(table, ws.conns)).conns.contains(c) ==> ws.conns.contains(c)
            && ends_fit(table, c),
        ws.conns.contains(c) && (forall|d: Connection| ws.conns.contains(d) && d.to == c.to ==> #[trigger] ends_fit(table, d))
            ==> ws_remove_all(ws, level, path, ids, stale_targets(table, ws.conns)).conns.contains(c),
{
    let tos = stale_targets(table, ws.conns);
    lemma_remove_all_conns(ws, level, path, ids, tos);
    lemma_stale_targets_from(table, ws.conns);
    lemma_stale_iff_ends_misfit(table, c);
    if ws_remove_all(ws, level, path, ids, tos).conns.contains(c) {
        if is_stale(table, c) {
            assert(tos.contains(c.to));
        }
    }
    if ws.conns.contains(c) && (forall|d: Connection| ws.conns.contains(d) && d.to == c.to ==> #[trigger] ends_fit(table, d)) {
        if tos.contains(c.to) {
            let d = choose|d: Connection| ws.conns.contains(d) && is_stale(table, d) && d.to == c.to;
            lemma_stale_iff_ends_misfit(table, d);
            assert(ends_fit(table, d));
        }
    }
}


pub proof fn lemma_only_wires_skeleton<W>(new: Seq<GraphLevel<W>>, old: Seq<GraphLevel<W>>, a: int, conns: Seq<Connection>)
    requires
        levels_wf(old),
        only_wires_changed(new, old, a, conns),
    ensures
        same_skeleton(new, old),
        levels_wf(new),
        forall|idx: int| path_of(new, idx) == path_of(old, idx),
        forall|next: u64| fresh_ids(old, next) ==> fresh_ids(new, next),
{
    assert forall|next: u64| fresh_ids(old, next) implies fresh_ids(new, next) by {
        assert forall|l: int, i: int| 0 <= l < new.len() && 0 <= i < new[l].node_ids@.len() implies {
            let id = #[trigger] new[l].node_ids@[i];
            id == bridge_in_id() || id == bridge_out_id() || id.0 < next
        } by {
            if l != a {
                assert(new[l] == old[l]);
            }
            assert(old[l].node_ids@[i] == new[l].node_ids@[i]);
        }
        assert forall|l: int| 0 <= l < new.len() implies match #[trigger] new[l].subgraph_id {
            Some(s) => s.0 < next,
            None => true,
        } by {
            if l != a {
                assert(new[l] == old[l]);
            }
            assert(match old[l].subgraph_id { Some(s) => s.0 < next, None => true });
        }
    }
    assert forall|i: int| 0 <= i < old.len() implies (#[trigger] new[i]).parent_level_idx == old[i].parent_level_idx
        && new[i].subgraph_id == old[i].subgraph_id
        && new[i].node_ids@.len() == new[i].nodes@.len()
        && old[i].node_ids@.len() == old[i].nodes@.len() by {
        if i != a {
            assert(new[i] == old[i]);
        }
    }
    assert forall|idx: int| path_of(new, idx) == path_of(old, idx) by {
        lemma_path_skeleton(new, old, idx);
    }
    assert forall|i: int| 0 < i < new.len() implies match #[trigger] new[i].parent_level_idx {
        Some(p) => p < i,
        None => false,
    } by {
        assert(match old[i].parent_level_idx { Some(p) => p < i, None => false });
    }
    assert forall|i: int| 0 <= i < new.len() implies (#[trigger] new[i]).node_ids@.len() == new[i].nodes@.len() by {
        assert(new[i].parent_level_idx == old[i].parent_level_idx);
    }
}

/// Position of node `id` in the ports table.
pub fn ports_entry(table: &Vec<NodePorts>, id: NodeId) -> (r: Option<usize>)
    ensures
        match r {
            Some(i) => first_index_of(port_ids(table@), id) == Some(i as int) && i < table@.len(),
            None => first_index_of(port_ids(table@), id) is None,
        },
{
    table_position(table, id)
}

/// Pairs `(s0 + k, d0 + k)`, `k < n`, of ports that can be wired.
pub fn compute_bundle_pairs(outs: &Vec<PortSlot>, ins: &Vec<PortSlot>, s0: usize, d0: usize, n: usize) -> (r: Vec<(usize, usize)>)
    requires
        s0 + n <= usize::MAX,
        d0 + n <= usize::MAX,
    ensures
        r@ == bundle_pairs(outs@, ins@, s0 as int, d0 as int, n as int),
{
    let mut r: Vec<(usize, usize)> = Vec::new();
    let mut k: usize = 0;
    while k < n
        invariant
            k <= n,
            s0 + n <= usize::MAX,
            d0 + n <= usize::MAX,
            r@ == bundle_pairs(outs@, ins@, s0 as int, d0 as int, k as int),
        decreases n - k,
    {
        let si = s0 + k;
        let di = d0 + k;
        if si < outs.len() && di < ins.len() && !outs[si].disabled && !ins[di].disabled
            && outs[si].port_type.compatible_with(&ins[di].port_type) {
            r.push((si, di));
        }
        k += 1;
    }
    r
}

/// Wires from output `p.0` of `src` to input `p.1` of `dst` for each pair.
pub fn wires_for_pairs(src: NodeId, dst: NodeId, pairs: &Vec<(usize, usize)>) -> (r: Vec<Connection>)
    ensures
        r@ == pair_wires(src, dst, pairs@),
{
    let mut r: Vec<Connection> = Vec::new();
    let mut k: usize = 0;
    while k < pairs.len()
        invariant
            k <= pairs.len(),
            r@ == pair_wires(src, dst, pairs@.take(k as int)),
        decreases pairs.len() - k,
    {
        let (si, di) = pairs[k];
        r.push(Connection {
            from: PortId { node: src, index: si, dir: PortDir::Output },
            to: PortId { node: dst, index: di, dir: PortDir::Input },
        });
        proof {
            assert(pairs@.take(k + 1) == pairs@.take(k as int).push(pairs@[k as int]));
            assert(r@ =~= pair_wires(src, dst, pairs@.take(k + 1)));
        }
        k += 1;
    }
    proof {
        assert(pairs@.take(pairs@.len() as int) =~= pairs@);
    }
    r
}

/// In-order greedy pairing of outputs with inputs (see [`greedy_pairs`]).
pub fn compute_greedy_pairs(outs: &Vec<PortSlot>, ins: &Vec<PortSlot>) -> (r: Vec<(usize, usize)>)
    ensures
        r@ == greedy_pairs(outs@, ins@, 0, 0),
        is_in_order_pairing(outs@, ins@, 0, 0, r@),
{
    proof {
        assert(outs@.len() == outs.len() && ins@.len() == ins.len());
        lemma_greedy_pairs_in_order(outs@, ins@);
    }
    let mut r: Vec<(usize, usize)> = Vec::new();
    let mut o: usize = 0;
    let mut i: usize = 0;
    while o < outs.len() && i < ins.len()
        invariant
            o <= outs.len(),
            i <= ins.len(),
            r@ + greedy_pairs(outs@, ins@, o as int, i as int) == greedy_pairs(outs@, ins@, 0, 0),
        decreases (outs.len() - o) + (ins.len() - i),
    {
        if outs[o].disabled {
            o += 1;
        } else if ins[i].disabled {
            i += 1;
        } else if !outs[o].port_type.compatible_with(&ins[i].port_type) {
            o += 1;
        } else {
            let ghost before = r@;
            r.push((o, i));
            proof {
                assert(before + greedy_pairs(outs@, ins@, o as int, i as int)
                    =~= r@ + greedy_pairs(outs@, ins@, o + 1, i + 1));
            }
            o += 1;
            i += 1;
        }
    }
    proof {
        assert(r@ + greedy_pairs(outs@, ins@, o as int, i as int) =~= r@);
    }
    r
}

/// Whether a wire is stale with respect to the ports table.
pub fn wire_is_stale(table: &Vec<NodePorts>, c: Connection) -> (r: bool)
    ensures
        r == is_stale(table@, c),
{
    match (table_position(table, c.from.node), table_position(table, c.to.node)) {
        (Some(si), Some(di)) => {
            if c.from.index < table[si].outputs.len() && c.to.index < table[di].inputs.len() {
                !table[si].outputs[c.from.index].port_type.compatible_with(&table[di].inputs[c.to.index].port_type)
            } else {
                true
            }
        },
        _ => true,
    }
}

/// Destination ports of the stale wires, in wire order.
pub fn compute_stale_targets(table: &Vec<NodePorts>, conns: &Vec<Connection>) -> (r: Vec<PortId>)
    ensures
        r@ == stale_targets(table@, conns@),
{
    let mut r: Vec<PortId> = Vec::new();
    let mut k: usize = 0;
    while k < conns.len()
        invariant
            k <= conns.len(),
            r@ == stale_targets(table@, conns@.take(k as int)),
        decreases conns.len() - k,
    {
        proof {
            assert(conns@.take(k + 1).drop_last() == conns@.take(k as int));
            assert(conns@.take(k + 1).last() == conns@[k as int]);
        }
        if wire_is_stale(table, conns[k]) {
            r.push(conns[k].to);
        }
        k += 1;
    }
    proof {
        assert(conns@.take(conns@.len() as int) =~= conns@);
    }
    r
}


/// Elements of `s` at the positions where `keep` holds, in order.
pub open spec fn keep_where<T>(s: Seq<T>, keep: spec_fn(int) -> bool) -> Seq<T>
    decreases s.len(),
{
    if s.len() == 0 {
        s
    } else {
        let prev = keep_where(s.drop_last(), keep);
        if keep(s.len() - 1) {
            prev.push(s.last())
        } else {
            prev
        }
    }
}

pub proof fn lemma_keep_where_take<T>(s: Seq<T>, keep: spec_fn(int) -> bool, k: int)
    requires
        0 <= k < s.len(),
    ensures
        keep_where(s.take(k + 1), keep) == if keep(k) {
            keep_where(s.take(k), keep).push(s[k])
        } else {
            keep_where(s.take(k), keep)
        },
{
    assert(s.take(k + 1).drop_last() =~= s.take(k));
}

pub proof fn lemma_keep_where_subset<T>(s: Seq<T>, keep: spec_fn(int) -> bool)
    ensures
        keep_where(s, keep).len() <= s.len(),
        forall|j: int| 0 <= j < keep_where(s, keep).len() ==> exists|i: int| 0 <= i < s.len() && #[trigger] keep_where(s, keep)[j] == s[i],
    decreases s.len(),
{
    if s.len() > 0 {
        lemma_keep_where_subset(s.drop_last(), keep);
        let p = keep_where(s.drop_last(), keep);
        assert forall|j: int| 0 <= j < keep_where(s, keep).len() implies exists|i: int| 0 <= i < s.len() && #[trigger] keep_where(s, keep)[j] == s[i] by {
            if j < p.len() {
                let i = choose|i: int| 0 <= i < s.drop_last().len() && p[j] == s.drop_last()[i];
                assert(keep_where(s, keep)[j] == s[i]);
            } else {
                assert(keep_where(s, keep)[j] == s[s.len() - 1]);
            }
        }
    }
}

/// Whether node `i` of the level is removed by a delete of the selection:
/// it is selected and is not a bridge node.
/// Input ends of the wires, in order.
pub open spec fn wire_targets(cs: Seq<Connection>) -> Seq<PortId> {
    cs.map_values(|c: Connection| c.to)
}

/// Frame ids of `ids` that are not in `sel`, in order.
pub open spec fn frames_without(ids: Seq<u64>, sel: Seq<u64>) -> Seq<u64>
    decreases ids.len(),
{
    if ids.len() == 0 {
        ids
    } else {
        let prev = frames_without(ids.drop_last(), sel);
        if sel.contains(ids.last()) {
            prev
        } else {
            prev.push(ids.last())
        }
    }
}

fn contains_u64(v: &Vec<u64>, x: u64) -> (r: bool)
    ensures
        r == v@.contains(x),
{
    let mut i: usize = 0;
    while i < v.len()
        invariant
            i <= v.len(),
            forall|k: int| 0 <= k < i ==> v@[k] != x,
        decreases v.len() - i,
    {
        if v[i] == x {
            return true;
        }
        i += 1;
    }
    false
}

fn remove_frame_ids(ids: &Vec<u64>, sel: &Vec<u64>) -> (r: Vec<u64>)
    ensures
        r@ == frames_without(ids@, sel@),
{
    let mut r: Vec<u64> = Vec::new();
    let mut i: usize = 0;
    while i < ids.len()
        invariant
            i <= ids.len(),
            r@ == frames_without(ids@.take(i as int), sel@),
        decreases ids.len() - i,
    {
        proof {
            assert(ids@.take(i + 1).drop_last() =~= ids@.take(i as int));
        }
        if !contains_u64(sel, ids[i]) {
            r.push(ids[i]);
        }
        i += 1;
    }
    proof {
        assert(ids@.take(ids.len() as int) =~= ids@);
    }
    r
}

pub open spec fn deletes(sel: Seq<usize>, ids: Seq<NodeId>) -> spec_fn(int) -> bool {
    |i: int| sel.contains(i as usize) && ids[i] != bridge_in_id() && ids[i] != bridge_out_id()
}

pub open spec fn not_deleted(sel: Seq<usize>, ids: Seq<NodeId>) -> spec_fn(int) -> bool {
    |i: int| !(sel.contains(i as usize) && ids[i] != bridge_in_id() && ids[i] != bridge_out_id())
}

/// Destination ports of the wires touching any of `rem`, in wire order.
pub open spec fn touch_targets(conns: Seq<Connection>, rem: Seq<NodeId>) -> Seq<PortId>
    decreases conns.len(),
{
    if conns.len() == 0 {
        seq![]
    } else {
        let prev = touch_targets(conns.drop_last(), rem);
        let c = conns.last();
        if rem.contains(c.from.node) || rem.contains(c.to.node) {
            prev.push(c.to)
        } else {
            prev
        }
    }
}

/// One `RemoveNode` command per id, routed for `path`.
pub open spec fn remove_node_cmds(path: Seq<NodeId>, rem: Seq<NodeId>) -> Seq<CommandView> {
    rem.map_values(|id: NodeId| routed(path, SubgraphInnerCmd::RemoveNode(id)))
}

pub fn vec_contains_usize(v: &Vec<usize>, x: usize) -> (r: bool)
    ensures
        r == v@.contains(x),
{
    let mut i: usize = 0;
    while i < v.len()
        invariant
            i <= v.len(),
            forall|k: int| 0 <= k < i ==> v@[k] != x,
        decreases v.len() - i,
    {
        if v[i] == x {
            return true;
        }
        i += 1;
    }
    false
}

pub fn vec_contains_id(v: &Vec<NodeId>, x: NodeId) -> (r: bool)
    ensures
        r == v@.contains(x),
{
    let mut i: usize = 0;
    while i < v.len()
        invariant
            i <= v.len(),
            forall|k: int| 0 <= k < i ==> v@[k] != x,
        decreases v.len() - i,
    {
        if v[i] == x {
            return true;
        }
        i += 1;
    }
    false
}

fn compute_touch_targets(conns: &Vec<Connection>, rem: &Vec<NodeId>) -> (r: Vec<PortId>)
    ensures
        r@ == touch_targets(conns@, rem@),
{
    let mut r: Vec<PortId> = Vec::new();
    let mut k: usize = 0;
    while k < conns.len()
        invariant
            k <= conns.len(),
            r@ == touch_targets(conns@.take(k as int), rem@),
        decreases conns.len() - k,
    {
        proof {
            assert(conns@.take(k + 1).drop_last() == conns@.take(k as int));
            assert(conns@.take(k + 1).last() == conns@[k as int]);
        }
        let c = conns[k];
        if vec_contains_id(rem, c.from.node) || vec_contains_id(rem, c.to.node) {
            r.push(c.to);
        }
        k += 1;
    }
    proof {
        assert(conns@.take(conns@.len() as int) =~= conns@);
    }
    r
}

/// Splits `ids`/`nodes` by `flags`: entries whose flag is false are kept,
/// the others are dropped.
fn retain_unflagged<W>(ids: Vec<NodeId>, nodes: Vec<W>, flags: &Vec<bool>, Ghost(keep): Ghost<spec_fn(int) -> bool>) -> (r: (Vec<NodeId>, Vec<W>))
    requires
        ids@.len() == nodes@.len(),
        flags@.len() == ids@.len(),
        forall|k: int| 0 <= k < flags@.len() ==> !flags@[k] == keep(k),
    ensures
        r.0@ == keep_where(ids@, keep),
        r.1@ == keep_where(nodes@, keep),
        r.0@.len() == r.1@.len(),
{
    let ghost ids0 = ids@;
    let ghost nodes0 = nodes@;
    let mut ids = ids;
    let mut nodes = nodes;
    let mut out_ids: Vec<NodeId> = Vec::new();
    let mut out_nodes: Vec<W> = Vec::new();
    let n = ids.len();
    let mut i: usize = 0;
    while i < n
        invariant
            n == ids0.len(),
            ids0.len() == nodes0.len(),
            flags@.len() == n,
            i <= n,
            ids@ == ids0.skip(i as int),
            nodes@ == nodes0.skip(i as int),
            out_ids@ == keep_where(ids0.take(i as int), keep),
            out_nodes@ == keep_where(nodes0.take(i as int), keep),
            out_ids@.len() == out_nodes@.len(),
            forall|k: int| 0 <= k < flags@.len() ==> !flags@[k] == keep(k),
        decreases n - i,
    {
        let id = ids.remove(0);
        let node = nodes.remove(0);
        proof {
            lemma_keep_where_take(ids0, keep, i as int);
            lemma_keep_where_take(nodes0, keep, i as int);
            assert(ids0.skip(i as int)[0] == ids0[i as int]);
            assert(nodes0.skip(i as int)[0] == nodes0[i as int]);
            assert(ids0.skip(i as int).subrange(1, ids0.skip(i as int).len() as int) =~= ids0.skip(i + 1));
            assert(nodes0.skip(i as int).subrange(1, nodes0.skip(i as int).len() as int) =~= nodes0.skip(i + 1));
        }
        if !flags[i] {
            out_ids.push(id);
            out_nodes.push(node);
        }
        i += 1;
    }
    proof {
        assert(ids0.take(n as int) =~= ids0);
        assert(nodes0.take(n as int) =~= nodes0);
    }
    (out_ids, out_nodes)
}


/// First level (in list order) that belongs to subgraph `sid`.
pub open spec fn first_level_of<W>(levels: Seq<GraphLevel<W>>, sid: NodeId) -> Option<usize> {
    if exists|l: int| 0 <= l < levels.len() && levels[l].subgraph_id == Some(sid) {
        let l = choose|l: int| 0 <= l < levels.len() && levels[l].subgraph_id == Some(sid)
            && forall|m: int| 0 <= m < l ==> levels[m].subgraph_id != Some(sid);
        Some(l as usize)
    } else {
        None
    }
}

pub fn level_position<W>(levels: &Vec<GraphLevel<W>>, sid: NodeId) -> (r: Option<usize>)
    ensures
        r == first_level_of(levels@, sid),
        match r {
            Some(l) => l < levels@.len() && levels@[l as int].subgraph_id == Some(sid),
            None => true,
        },
{
    let mut l: usize = 0;
    while l < levels.len()
        invariant
            l <= levels.len(),
            forall|m: int| 0 <= m < l ==> levels@[m].subgraph_id != Some(sid),
        decreases levels.len() - l,
    {
        if levels[l].subgraph_id == Some(sid) {
            proof {
                let c = choose|c: int| 0 <= c < levels@.len() && levels@[c].subgraph_id == Some(sid)
                    && forall|m: int| 0 <= m < c ==> levels@[m].subgraph_id != Some(sid);
                if c < l {
                } else if c > l {
                    assert(levels@[l as int].subgraph_id == Some(sid));
                }
                assert(c == l);
            }
            return Some(l);
        }
        l += 1;
    }
    None
}

/// Every node id in every level is a bridge id or below `next`, and so is
/// every subgraph id: `next` is never in use.
pub open spec fn fresh_ids<W>(levels: Seq<GraphLevel<W>>, next: u64) -> bool {
    &&& forall|l: int, i: int| 0 <= l < levels.len() && 0 <= i < levels[l].node_ids@.len() ==> {
        let id = #[trigger] levels[l].node_ids@[i];
        id == bridge_in_id() || id == bridge_out_id() || id.0 < next
    }
    &&& forall|l: int| 0 <= l < levels.len() ==> match #[trigger] levels[l].subgraph_id {
        Some(s) => s.0 < next,
        None => true,
    }
}

/// Label of the selection menu's auto-connect entry.
pub open spec fn connect_label_chars(n: nat) -> Seq<char> {
    if n == 1 {
        "Connect 1 port"@
    } else {
        "Connect "@ + crate::text::decimal_chars(n) + " ports"@
    }
}

pub fn connect_label(n: usize) -> (r: String)
    ensures
        r@ == connect_label_chars(n as nat),
{
    if n == 1 {
        String::from_str("Connect 1 port")
    } else {
        let mut s = crate::text::with_number("Connect ", n);
        s.append(" ports");
        s
    }
}

/// The keys of one frame on the canvas, with the context they need.
#[derive(Clone, Copy, Debug, PartialEq, Eq, Structural)]
pub struct CanvasKeys {
    /// Delete or Backspace was pressed.
    pub delete: bool,
    /// F or Home was pressed.
    pub fit: bool,
    /// D, C and V were pressed (with or without a modifier).
    pub d: bool,
    pub c: bool,
    pub v: bool,
    /// Ctrl (or Command) is held.
    pub ctrl: bool,
    /// A text field has keyboard focus.
    pub text_focus: bool,
    /// The pointer is over the canvas and not over a floating window.
    pub pointer_over_canvas: bool,
}

/// What the canvas does with one frame's keys; more than one may fire.
#[derive(Clone, Copy, Debug, PartialEq, Eq, Structural)]
pub struct CanvasActions {
    pub delete: bool,
    pub fit: bool,
    pub duplicate: bool,
    pub copy: bool,
    pub paste: bool,
}

/// The bundle size a key sets while a wire is drawn: Escape resets to a
/// single wire, digit 2..9 sets that many, 0 sets ten; other keys leave it.
pub open spec fn bundle_key_spec(escape: bool, digit: Option<u8>) -> Option<usize> {
    if escape {
        Some(1)
    } else {
        match digit {
            Some(d) => if 2 <= d <= 9 {
                Some(d as usize)
            } else if d == 0 {
                Some(10)
            } else {
                None
            },
            None => None,
        }
    }
}

pub fn bundle_key(escape: bool, digit: Option<u8>) -> (r: Option<usize>)
    ensures
        r == bundle_key_spec(escape, digit),
{
    if escape {
        Some(1)
    } else {
        match digit {
            Some(d) => if 2 <= d && d <= 9 {
                Some(d as usize)
            } else if d == 0 {
                Some(10)
            } else {
                None
            },
            None => None,
        }
    }
}


impl<W> NodeGraph<W> {
    pub open spec fn wf(&self) -> bool {
        &&& levels_wf(self.levels@)
        &&& self.active_level < self.levels@.len()
        &&& fresh_ids(self.levels@, self.next_id)
    }

    pub open spec fn active(&self) -> GraphLevel<W> {
        self.levels@[self.active_level as int]
    }

    pub open spec fn path(&self) -> Seq<NodeId> {
        path_of(self.levels@, self.active_level as int)
    }

    pub open spec fn ws(&self) -> WireState {
        WireState {
            conns: self.active().connections@,
            events: self.widget_events@,
            cmds: cmd_views(self.pending_engine_cmds@),
        }
    }

    /// Everything but the active level's wires, the queues and the levels
    /// themselves is unchanged.
    pub open spec fn same_frame(&self, other: &Self) -> bool {
        &&& self.active_level == other.active_level
        &&& self.next_id == other.next_id
        &&& self.selected_nodes@ == other.selected_nodes@
        &&& self.new_nodes@ == other.new_nodes@
    }

    pub fn new() -> (g: Self)
        ensures
            g.wf(),
            g.levels@.len() == 1,
            g.active_level == 0,
            g.next_id == 1,
            g.active().node_ids@.len() == 0,
            g.active().connections@.len() == 0,
            g.active().subgraph_id is None,
            g.active().label@ == "Root"@,
            g.selected_nodes@.len() == 0,
            g.new_nodes@.len() == 0,
            g.pending_engine_cmds@.len() == 0,
            g.widget_events@.len() == 0,
            g.selected_connections@.len() == 0,
    {
        let root = GraphLevel {
            node_ids: Vec::new(),
            nodes: Vec::new(),
            connections: Vec::new(),
            subgraph_id: None,
            parent_level_idx: None,
            label: String::from_str("Root"),
            frame_ids: Vec::new(),
        };
        let mut levels: Vec<GraphLevel<W>> = Vec::new();
        levels.push(root);
        NodeGraph {
            levels,
            active_level: 0,
            next_id: 1,
            selected_nodes: Vec::new(),
            new_nodes: Vec::new(),
            pending_engine_cmds: Vec::new(),
            widget_events: Vec::new(),
            pending_macro_request: None,
            selected_connections: Vec::new(),
            selected_frames: Vec::new(),
        }
    }

    /// "Save as macro" on subgraph node `id` of the active level.
    pub fn request_save_macro(&mut self, id: NodeId)
        requires
            old(self).wf(),
        ensures
            final(self).pending_macro_request matches Some(MacroRequest::SaveAs { node_id, subgraph_path })
                && node_id == id && subgraph_path@ == old(self).path(),
            final(self).levels@ == old(self).levels@,
            final(self).active_level == old(self).active_level,
            final(self).next_id == old(self).next_id,
            final(self).selected_nodes@ == old(self).selected_nodes@,
            final(self).new_nodes@ == old(self).new_nodes@,
            final(self).pending_engine_cmds@ == old(self).pending_engine_cmds@,
            final(self).widget_events@ == old(self).widget_events@,
    {
        let path = self.current_subgraph_path();
        self.pending_macro_request = Some(MacroRequest::SaveAs { node_id: id, subgraph_path: path });
    }

    /// Takes the pending macro action, if any; none is pending afterwards.
    pub fn take_macro_request(&mut self) -> (r: Option<MacroRequest>)
        ensures
            r == old(self).pending_macro_request,
            final(self).pending_macro_request.is_none(),
            final(self).levels@ == old(self).levels@,
            final(self).active_level == old(self).active_level,
            final(self).next_id == old(self).next_id,
            final(self).selected_nodes@ == old(self).selected_nodes@,
            final(self).new_nodes@ == old(self).new_nodes@,
            final(self).pending_engine_cmds@ == old(self).pending_engine_cmds@,
            final(self).widget_events@ == old(self).widget_events@,
    {
        let mut r: Option<MacroRequest> = None;
        std::mem::swap(&mut r, &mut self.pending_macro_request);
        r
    }

    /// The level a subgraph path addresses: the root for an empty path,
    /// else the level of the path's last subgraph, else the active level.
    pub open spec fn path_level(&self, path: Seq<NodeId>) -> usize {
        if path.len() == 0 {
            0
        } else {
            match first_level_of(self.levels@, path.last()) {
                Some(l) => l,
                None => self.active_level,
            }
        }
    }

    pub fn level_for_path(&self, path: &Vec<NodeId>) -> (r: usize)
        requires
            self.wf(),
        ensures
            r == self.path_level(path@),
            r < self.levels@.len(),
    {
        if path.len() == 0 {
            return 0;
        }
        let last = path[path.len() - 1];
        match level_position(&self.levels, last) {
            Some(l) => l,
            None => self.active_level,
        }
    }

    /// Position of the inner level of subgraph `subgraph_id`, if it is open.
    pub fn find_level_for_subgraph(&self, subgraph_id: NodeId) -> (r: Option<usize>)
        ensures
            r == first_level_of(self.levels@, subgraph_id),
    {
        level_position(&self.levels, subgraph_id)
    }

    /// Subgraph ids from the root to the active level.
    pub fn current_subgraph_path(&self) -> (r: Vec<NodeId>)
        requires
            self.wf(),
        ensures
            r@ == self.path(),
    {
        let mut chain: Vec<NodeId> = Vec::new();
        let mut idx = self.active_level;
        while idx != 0
            invariant
                self.wf(),
                idx < self.levels@.len(),
                path_of(self.levels@, idx as int) + chain@ == self.path(),
            decreases idx,
        {
            let sid = self.levels[idx].subgraph_id;
            let par = self.levels[idx].parent_level_idx;
            proof {
                assert(match self.levels@[idx as int].parent_level_idx { Some(p) => p < idx, None => false });
            }
            let ghost old_chain = chain@;
            match sid {
                Some(s) => {
                    chain.insert(0, s);
                    proof {
                        assert(chain@ =~= seq![s] + old_chain);
                        assert(path_of(self.levels@, idx as int) == path_of(self.levels@, par.unwrap() as int).push(s));
                        assert(path_of(self.levels@, par.unwrap() as int) + chain@ =~= path_of(self.levels@, idx as int) + old_chain);
                    }
                },
                None => {},
            }
            idx = par.unwrap();
        }
        proof {
            assert(chain@ =~= Seq::<NodeId>::empty() + chain@);
        }
        chain
    }

    /// Queues a command for the processing side, wrapped for the subgraph
    /// the active level belongs to.
    pub fn push_engine_cmd(&mut self, cmd: SubgraphInnerCmd)
        requires
            old(self).wf(),
        ensures
            final(self).wf(),
            final(self).levels@ == old(self).levels@,
            final(self).same_frame(&*old(self)),
            final(self).widget_events@ == old(self).widget_events@,
            cmd_views(final(self).pending_engine_cmds@) == cmd_views(old(self).pending_engine_cmds@).push(
                routed(old(self).path(), cmd),
            ),
    {
        let path = self.current_subgraph_path();
        let c = if path.len() == 0 {
            match cmd {
                SubgraphInnerCmd::AddConnection(c) => EngineCommand::AddConnection(c),
                SubgraphInnerCmd::RemoveConnectionTo(p) => EngineCommand::RemoveConnectionTo(p),
                SubgraphInnerCmd::RemoveNode(id) => EngineCommand::RemoveNode(id),
                SubgraphInnerCmd::NotifyConnect { node_id, input_port, source_type } =>
                    EngineCommand::NotifyConnect { node_id, input_port, source_type },
                SubgraphInnerCmd::NotifyDisconnect { node_id, input_port } =>
                    EngineCommand::NotifyDisconnect { node_id, input_port },
            }
        } else {
            EngineCommand::SubgraphInnerCommand { subgraph_path: path, command: Box::new(cmd) }
        };
        let ghost before = self.pending_engine_cmds@;
        self.pending_engine_cmds.push(c);
        proof {
            assert(cmd_views(self.pending_engine_cmds@) =~= cmd_views(before).push(c@));
        }
    }

    /// Hands out a fresh node id.
    pub fn alloc_id(&mut self) -> (id: NodeId)
        requires
            old(self).next_id < BRIDGE_IN_RAW,
        ensures
            id == NodeId(old(self).next_id),
            final(self).next_id == old(self).next_id + 1,
            final(self).levels@ == old(self).levels@,
            final(self).active_level == old(self).active_level,
            final(self).selected_nodes@ == old(self).selected_nodes@,
            final(self).new_nodes@ == old(self).new_nodes@,
            final(self).pending_engine_cmds@ == old(self).pending_engine_cmds@,
            final(self).widget_events@ == old(self).widget_events@,
    {
        let id = NodeId(self.next_id);
        self.next_id = self.next_id + 1;
        id
    }

    /// Makes sure the next id handed out is strictly greater than `id`.
    pub fn bump_next_id_above(&mut self, id: u64)
        requires
            id < u64::MAX,
        ensures
            final(self).next_id == if id >= old(self).next_id { id + 1 } else { old(self).next_id as int },
            final(self).next_id > id,
            final(self).levels@ == old(self).levels@,
            final(self).active_level == old(self).active_level,
            final(self).selected_nodes@ == old(self).selected_nodes@,
            final(self).new_nodes@ == old(self).new_nodes@,
            final(self).pending_engine_cmds@ == old(self).pending_engine_cmds@,
            final(self).widget_events@ == old(self).widget_events@,
    {
        if id >= self.next_id {
            self.next_id = id + 1;
        }
    }

    pub fn is_in_subgraph(&self) -> (r: bool)
        ensures
            r == (self.active_level > 0),
    {
        self.active_level > 0
    }

    pub fn active_level_index(&self) -> (r: usize)
        ensures
            r == self.active_level,
    {
        self.active_level
    }

    pub fn node_count(&self) -> (r: usize)
        requires
            self.wf(),
        ensures
            r == self.active().node_ids@.len(),
    {
        self.levels[self.active_level].node_ids.len()
    }

    pub fn connections(&self) -> (r: &Vec<Connection>)
        requires
            self.wf(),
        ensures
            r@ == self.active().connections@,
    {
        &self.levels[self.active_level].connections
    }

    /// Takes the queued commands for the processing side.
    pub fn drain_engine_commands(&mut self) -> (r: Vec<EngineCommand>)
        ensures
            cmd_views(r@) == cmd_views(old(self).pending_engine_cmds@),
            final(self).pending_engine_cmds@.len() == 0,
            final(self).levels@ == old(self).levels@,
            final(self).same_frame(&*old(self)),
            final(self).widget_events@ == old(self).widget_events@,
    {
        let mut out = Vec::new();
        std::mem::swap(&mut out, &mut self.pending_engine_cmds);
        out
    }

    /// Takes the queued widget notifications.
    pub fn drain_widget_events(&mut self) -> (r: Vec<WidgetEvent>)
        ensures
            r@ == old(self).widget_events@,
            final(self).widget_events@.len() == 0,
            final(self).levels@ == old(self).levels@,
            final(self).same_frame(&*old(self)),
            cmd_views(final(self).pending_engine_cmds@) == cmd_views(old(self).pending_engine_cmds@),
    {
        let mut out = Vec::new();
        std::mem::swap(&mut out, &mut self.widget_events);
        out
    }

    /// Takes the list of freshly placed nodes.
    pub fn drain_new_nodes(&mut self) -> (r: Vec<NewNode>)
        ensures
            r@ == old(self).new_nodes@,
            final(self).new_nodes@.len() == 0,
            final(self).levels@ == old(self).levels@,
            final(self).active_level == old(self).active_level,
            final(self).next_id == old(self).next_id,
            final(self).selected_nodes@ == old(self).selected_nodes@,
            cmd_views(final(self).pending_engine_cmds@) == cmd_views(old(self).pending_engine_cmds@),
            final(self).widget_events@ == old(self).widget_events@,
    {
        let mut out = Vec::new();
        std::mem::swap(&mut out, &mut self.new_nodes);
        out
    }

    /// Goes back to the parent level (no-op at the root).
    pub fn navigate_up(&mut self)
        requires
            old(self).wf(),
        ensures
            final(self).wf(),
            final(self).levels@ == old(self).levels@,
            match old(self).active().parent_level_idx {
                Some(p) => final(self).active_level == p && final(self).selected_nodes@.len() == 0,
                None => final(self).active_level == old(self).active_level
                    && final(self).selected_nodes@ == old(self).selected_nodes@,
            },
            final(self).next_id == old(self).next_id,
            final(self).new_nodes@ == old(self).new_nodes@,
            cmd_views(final(self).pending_engine_cmds@) == cmd_views(old(self).pending_engine_cmds@),
            final(self).widget_events@ == old(self).widget_events@,
    {
        if let Some(parent) = self.levels[self.active_level].parent_level_idx {
            proof {
                if self.active_level > 0 {
                    assert(match self.levels@[self.active_level as int].parent_level_idx { Some(p) => p < self.active_level, None => false });
                }
            }
            self.active_level = parent;
            self.selected_nodes.clear();
        }
    }

    /// Switches to the given level if it exists.
    pub fn navigate_to_level(&mut self, level: usize)
        requires
            old(self).wf(),
        ensures
            final(self).wf(),
            final(self).levels@ == old(self).levels@,
            if level < old(self).levels@.len() {
                final(self).active_level == level && final(self).selected_nodes@.len() == 0
            } else {
                final(self).active_level == old(self).active_level
                    && final(self).selected_nodes@ == old(self).selected_nodes@
            },
            final(self).next_id == old(self).next_id,
            final(self).new_nodes@ == old(self).new_nodes@,
            cmd_views(final(self).pending_engine_cmds@) == cmd_views(old(self).pending_engine_cmds@),
            final(self).widget_events@ == old(self).widget_events@,
    {
        if level < self.levels.len() {
            self.active_level = level;
            self.selected_nodes.clear();
        }
    }

    /// Places a node (payload and id) in the active level; returns its index.
    pub fn add_node(&mut self, node: W, id: NodeId) -> (idx: usize)
        requires
            old(self).wf(),
            id.0 < u64::MAX,
        ensures
            final(self).wf(),
            idx == old(self).active().node_ids@.len(),
            final(self).levels@.len() == old(self).levels@.len(),
            forall|i: int| 0 <= i < old(self).levels@.len() && i != old(self).active_level ==>
                #[trigger] final(self).levels@[i] == old(self).levels@[i],
            final(self).active().node_ids@ == old(self).active().node_ids@.push(id),
            final(self).active().nodes@ == old(self).active().nodes@.push(node),
            final(self).active().connections == old(self).active().connections,
            final(self).active().subgraph_id == old(self).active().subgraph_id,
            final(self).active().parent_level_idx == old(self).active().parent_level_idx,
            final(self).active().label == old(self).active().label,
            final(self).next_id == if id.0 >= old(self).next_id { id.0 + 1 } else { old(self).next_id as int },
            final(self).active_level == old(self).active_level,
            final(self).selected_nodes@ == old(self).selected_nodes@,
            final(self).new_nodes@.len() == old(self).new_nodes@.len() + 1,
            forall|k: int| 0 <= k < old(self).new_nodes@.len() ==> #[trigger] final(self).new_nodes@[k] == old(self).new_nodes@[k],
            new_node_ok(final(self).new_nodes@.last(), idx as int, old(self).path()),
            final(self).pending_engine_cmds@ == old(self).pending_engine_cmds@,
            final(self).widget_events@ == old(self).widget_events@,
    {
        if id.0 >= self.next_id {
            self.next_id = id.0 + 1;
        }
        let a = self.active_level;
        let ghost old_levels = self.levels@;
        self.levels[a].node_ids.push(id);
        self.levels[a].nodes.push(node);
        let idx = self.levels[a].nodes.len() - 1;
        proof {
            assert(same_skeleton(self.levels@, old_levels));
            lemma_path_skeleton(self.levels@, old_levels, a as int);
        }
        let path = self.current_subgraph_path();
        self.new_nodes.push(NewNode { index: idx, subgraph_path: path });
        idx
    }

    /// Adds the wire `from -> to` to the active level unless it is already
    /// there. When both ends are nodes of the level, their widgets are told
    /// (with the port types from `table`) and the processing side is told
    /// about the new input. Returns whether the wire was added.
    pub fn add_connection(&mut self, from: PortId, to: PortId, table: &Vec<NodePorts>) -> (added: bool)
        requires
            old(self).wf(),
        ensures
            final(self).wf(),
            final(self).same_frame(&*old(self)),
            added == !old(self).active().connections@.contains(Connection { from, to }),
            final(self).ws() == ws_add(old(self).ws(), old(self).active_level, old(self).path(),
                old(self).active().node_ids@, table@, Connection { from, to }),
            only_wires_changed(final(self).levels@, old(self).levels@, old(self).active_level as int, final(self).ws().conns),
            ({
                let c = Connection { from, to };
                let a = old(self).active_level;
                let ids = old(self).active().node_ids@;
                let conns = old(self).active().connections@;
                if added {
                    &&& only_wires_changed(final(self).levels@, old(self).levels@, a as int, conns.push(c))
                    &&& final(self).widget_events@ == old(self).widget_events@ + connect_events(a, ids, table@, c)
                    &&& cmd_views(final(self).pending_engine_cmds@) == cmd_views(old(self).pending_engine_cmds@)
                        + connect_cmds(old(self).path(), ids, table@, c)
                } else {
                    &&& only_wires_changed(final(self).levels@, old(self).levels@, a as int, conns)
                    &&& final(self).widget_events@ == old(self).widget_events@
                    &&& cmd_views(final(self).pending_engine_cmds@) == cmd_views(old(self).pending_engine_cmds@)
                }
            }),
    {
        let c = Connection { from, to };
        let a = self.active_level;
        let ghost old_levels = self.levels@;
        let ghost old_events = self.widget_events@;
        let ghost old_cmds = cmd_views(self.pending_engine_cmds@);
        let ghost path = self.path();
        let ghost ids = self.levels@[a as int].node_ids@;
        let added = insert_connection(&mut self.levels[a].connections, c);
        proof {
            assert(same_skeleton(self.levels@, old_levels));
            lemma_path_skeleton(self.levels@, old_levels, a as int);
        }
        if added {
            let si = position_of(&self.levels[a].node_ids, from.node);
            let di = position_of(&self.levels[a].node_ids, to.node);
            if si.is_some() && di.is_some() {
                let st = output_type_of(table, from.node, from.index);
                let dt = input_type_of(table, to.node, to.index);
                self.widget_events.push(WidgetEvent::InputConnected { level: a, node: to.node, port: to.index, source_type: st });
                self.widget_events.push(WidgetEvent::OutputConnected { level: a, node: from.node, port: from.index, dest_type: dt });
                self.push_engine_cmd(SubgraphInnerCmd::NotifyConnect { node_id: to.node, input_port: to.index, source_type: st });
            }
            self.push_engine_cmd(SubgraphInnerCmd::AddConnection(c));
            proof {
                assert(self.widget_events@ =~= old_events + connect_events(a, ids, table@, c));
                assert(cmd_views(self.pending_engine_cmds@) =~= old_cmds + connect_cmds(path, ids, table@, c));
            }
        }
        added
    }

    /// Drops every wire into `to` in the active level. When something was
    /// dropped, the destination widget is told, the source widget is told
    /// if its output is now unused, and the processing side is told.
    pub fn remove_connection_to(&mut self, to: PortId)
        requires
            old(self).wf(),
        ensures
            final(self).wf(),
            final(self).same_frame(&*old(self)),
            final(self).ws() == ws_remove(old(self).ws(), old(self).active_level, old(self).path(),
                old(self).active().node_ids@, to),
            only_wires_changed(final(self).levels@, old(self).levels@, old(self).active_level as int, final(self).ws().conns),
            ({
                let a = old(self).active_level;
                let ids = old(self).active().node_ids@;
                let conns = old(self).active().connections@;
                &&& only_wires_changed(final(self).levels@, old(self).levels@, a as int, conns.filter(not_into(to)))
                &&& final(self).widget_events@ == old(self).widget_events@ + disconnect_events(a, ids, conns, to)
                &&& cmd_views(final(self).pending_engine_cmds@) == cmd_views(old(self).pending_engine_cmds@)
                    + disconnect_cmds(old(self).path(), conns, to)
            }),
    {
        let a = self.active_level;
        let ghost old_levels = self.levels@;
        let ghost old_events = self.widget_events@;
        let ghost old_cmds = cmd_views(self.pending_engine_cmds@);
        let ghost path = self.path();
        let ghost ids = self.levels@[a as int].node_ids@;
        let ghost conns = self.levels@[a as int].connections@;
        let had = any_wire_into(&self.levels[a].connections, to);
        let removed_from = source_into(&self.levels[a].connections, to);
        retain_not_into(&mut self.levels[a].connections, to);
        proof {
            assert(same_skeleton(self.levels@, old_levels));
            lemma_path_skeleton(self.levels@, old_levels, a as int);
        }
        if had {
            if position_of(&self.levels[a].node_ids, to.node).is_some() {
                self.widget_events.push(WidgetEvent::InputDisconnected { level: a, node: to.node, port: to.index });
            }
            if let Some(from) = removed_from {
                let still_connected = any_wire_from(&self.levels[a].connections, from);
                if !still_connected && position_of(&self.levels[a].node_ids, from.node).is_some() {
                    self.widget_events.push(WidgetEvent::OutputDisconnected { level: a, node: from.node, port: from.index });
                }
            }
            self.push_engine_cmd(SubgraphInnerCmd::RemoveConnectionTo(to));
            self.push_engine_cmd(SubgraphInnerCmd::NotifyDisconnect { node_id: to.node, input_port: to.index });
            proof {
                assert(self.widget_events@ =~= old_events + disconnect_events(a, ids, conns, to));
                assert(cmd_views(self.pending_engine_cmds@) =~= old_cmds + disconnect_cmds(path, conns, to));
            }
        } else {
            proof {
                assert(self.widget_events@ =~= old_events + disconnect_events(a, ids, conns, to));
                assert(cmd_views(self.pending_engine_cmds@) =~= old_cmds + disconnect_cmds(path, conns, to));
            }
        }
    }

    /// Rewires each wire of `wires` in order (drop what feeds its input,
    /// then add it).
    pub fn rewire_all(&mut self, wires: &Vec<Connection>, table: &Vec<NodePorts>)
        requires
            old(self).wf(),
        ensures
            final(self).wf(),
            final(self).same_frame(&*old(self)),
            final(self).ws() == ws_rewire_all(old(self).ws(), old(self).active_level, old(self).path(),
                old(self).active().node_ids@, table@, wires@),
            only_wires_changed(final(self).levels@, old(self).levels@, old(self).active_level as int, final(self).ws().conns),
    {
        let ghost a = self.active_level;
        let ghost path = self.path();
        let ghost ids = self.active().node_ids@;
        let ghost ws0 = self.ws();
        let ghost old_levels = self.levels@;
        let mut k: usize = 0;
        proof {
            assert(wires@.take(0) =~= Seq::<Connection>::empty());
        }
        while k < wires.len()
            invariant
                k <= wires.len(),
                self.wf(),
                self.same_frame(&*old(self)),
                levels_wf(old_levels),
                old_levels == old(self).levels@,
                a == old(self).active_level,
                path == old(self).path(),
                ids == old(self).active().node_ids@,
                ws0 == old(self).ws(),
                only_wires_changed(self.levels@, old_levels, a as int, self.ws().conns),
                self.ws() == ws_rewire_all(ws0, a, path, ids, table@, wires@.take(k as int)),
            decreases wires.len() - k,
        {
            proof {
                lemma_only_wires_skeleton(self.levels@, old_levels, a as int, self.ws().conns);
            }
            let w = wires[k];
            let ghost ws_before = self.ws();
            self.remove_connection_to(w.to);
            proof {
                assert(only_wires_changed(self.levels@, old_levels, a as int, self.ws().conns));
                lemma_only_wires_skeleton(self.levels@, old_levels, a as int, self.ws().conns);
                assert(self.path() == path);
                assert(self.ws() == ws_remove(ws_before, a, path, ids, w.to));
            }
            self.add_connection(w.from, w.to, table);
            proof {
                assert(wires@.take(k + 1).drop_last() == wires@.take(k as int));
                assert(wires@.take(k + 1).last() == w);
            }
            k += 1;
        }
        proof {
            assert(wires@.take(wires@.len() as int) =~= wires@);
        }
    }

    /// Drops the wires into each port of `tos`, in order.
    pub fn remove_all_into(&mut self, tos: &Vec<PortId>)
        requires
            old(self).wf(),
        ensures
            final(self).wf(),
            final(self).same_frame(&*old(self)),
            final(self).ws() == ws_remove_all(old(self).ws(), old(self).active_level, old(self).path(),
                old(self).active().node_ids@, tos@),
            only_wires_changed(final(self).levels@, old(self).levels@, old(self).active_level as int, final(self).ws().conns),
    {
        let ghost a = self.active_level;
        let ghost path = self.path();
        let ghost ids = self.active().node_ids@;
        let ghost ws0 = self.ws();
        let ghost old_levels = self.levels@;
        let mut k: usize = 0;
        while k < tos.len()
            invariant
                k <= tos.len(),
                self.wf(),
                self.same_frame(&*old(self)),
                levels_wf(old_levels),
                old_levels == old(self).levels@,
                a == old(self).active_level,
                path == old(self).path(),
                ids == old(self).active().node_ids@,
                ws0 == old(self).ws(),
                only_wires_changed(self.levels@, old_levels, a as int, self.ws().conns),
                self.ws() == ws_remove_all(ws0, a, path, ids, tos@.take(k as int)),
            decreases tos.len() - k,
        {
            proof {
                lemma_only_wires_skeleton(self.levels@, old_levels, a as int, self.ws().conns);
            }
            let t = tos[k];
            self.remove_connection_to(t);
            proof {
                assert(tos@.take(k + 1).drop_last() == tos@.take(k as int));
                assert(tos@.take(k + 1).last() == t);
            }
            k += 1;
        }
        proof {
            assert(tos@.take(tos@.len() as int) =~= tos@);
        }
    }

    /// Wires `bundle_size` consecutive ports between the node the user
    /// dragged from (`dc_from`) and the snapped target port, skipping
    /// pairs that are missing, disabled or type-incompatible. Each wired
    /// input first loses whatever fed it. Nothing happens when either node
    /// is not in the active level.
    pub fn connect_bundle(&mut self, dc_from: PortId, target: PortId, bundle_size: usize, table: &Vec<NodePorts>)
        requires
            old(self).wf(),
            dc_from.index + bundle_size <= usize::MAX,
            target.index + bundle_size <= usize::MAX,
        ensures
            final(self).wf(),
            final(self).same_frame(&*old(self)),
            final(self).ws() == ws_bundle(old(self).ws(), old(self).active_level, old(self).path(),
                old(self).active().node_ids@, table@, dc_from, target, bundle_size as int),
            only_wires_changed(final(self).levels@, old(self).levels@, old(self).active_level as int, final(self).ws().conns),
    {
        let out_first = dc_from.dir == PortDir::Output;
        let src = if out_first { dc_from.node } else { target.node };
        let dst = if out_first { target.node } else { dc_from.node };
        let s0 = if out_first { dc_from.index } else { target.index };
        let d0 = if out_first { target.index } else { dc_from.index };
        let a = self.active_level;
        if position_of(&self.levels[a].node_ids, src).is_none() || position_of(&self.levels[a].node_ids, dst).is_none() {
            proof {
                assert(self.levels@ =~= old(self).levels@);
            }
            return;
        }
        let empty: Vec<PortSlot> = Vec::new();
        let outs = match table_position(table, src) {
            Some(i) => &table[i].outputs,
            None => &empty,
        };
        let ins = match table_position(table, dst) {
            Some(i) => &table[i].inputs,
            None => &empty,
        };
        let pairs = compute_bundle_pairs(outs, ins, s0, d0, bundle_size);
        let wires = wires_for_pairs(src, dst, &pairs);
        self.rewire_all(&wires, table);
    }

    /// Releases a dragged wire (`from` is the port it was dragged from,
    /// `bundle` the number of wires drawn, 0 counting as 1). On a snapped
    /// target, a single wire replaces what fed the input and a bundle
    /// connects consecutive ports; on empty canvas, a bundle dragged off
    /// the connected input `unwired_to` drops the wires of the next inputs.
    pub fn finish_wire_drag(&mut self, from: PortId, snap: Option<PortId>, bundle: usize, unwired_to: Option<PortId>, table: &Vec<NodePorts>)
        requires
            old(self).wf(),
            from.index + bundle <= usize::MAX,
            snap matches Some(t) ==> t.index + bundle <= usize::MAX,
            unwired_to matches Some(u) ==> u.index + bundle <= usize::MAX,
        ensures
            final(self).wf(),
            final(self).same_frame(&*old(self)),
            final(self).ws() == ws_drop(old(self).ws(), old(self).active_level, old(self).path(),
                old(self).active().node_ids@, table@, from, snap, bundle as int, unwired_to),
            only_wires_changed(final(self).levels@, old(self).levels@, old(self).active_level as int, final(self).ws().conns),
    {
        let b: usize = if bundle < 1 { 1 } else { bundle };
        match snap {
            Some(target) => {
                if b <= 1 {
                    let c = if from.dir == PortDir::Output {
                        Connection { from, to: target }
                    } else {
                        Connection { from: target, to: from }
                    };
                    let wires = vec![c];
                    let ghost ws0 = self.ws();
                    let ghost a = self.active_level;
                    let ghost path = self.path();
                    let ghost ids = self.active().node_ids@;
                    proof {
                        assert(wires@.drop_last() =~= Seq::<Connection>::empty());
                        assert(ws_rewire_all(ws0, a, path, ids, table@, wires@.drop_last()) == ws0);
                        assert(ws_rewire_all(ws0, a, path, ids, table@, wires@) == ws_rewire(ws0, a, path, ids, table@, c));
                        assert(c == wire_between(from, target));
                    }
                    self.rewire_all(&wires, table);
                } else {
                    self.connect_bundle(from, target, b, table);
                }
            },
            None => {
                match unwired_to {
                    Some(start) => {
                        if b > 1 {
                            let mut tos: Vec<PortId> = Vec::new();
                            let mut k: usize = 1;
                            while k < b
                                invariant
                                    1 <= k <= b,
                                    start.index + b <= usize::MAX,
                                    tos@ == bundle_tail(start, b as int).take(k - 1),
                                decreases b - k,
                            {
                                tos.push(PortId { node: start.node, index: start.index + k, dir: PortDir::Input });
                                proof {
                                    assert(tos@ =~= bundle_tail(start, b as int).take(k as int));
                                }
                                k += 1;
                            }
                            proof {
                                assert(bundle_tail(start, b as int).take(b - 1) =~= bundle_tail(start, b as int));
                            }
                            self.remove_all_into(&tos);
                        } else {
                            proof {
                                assert(self.levels@ =~= old(self).levels@);
                            }
                        }
                    },
                    None => {
                        proof {
                            assert(self.levels@ =~= old(self).levels@);
                        }
                    },
                }
            },
        }
    }

    /// Drops every wire whose ends are gone or whose ends no longer have
    /// compatible types (the stale targets are collected first).
    pub fn cleanup_stale_connections(&mut self, table: &Vec<NodePorts>)
        requires
            old(self).wf(),
        ensures
            final(self).wf(),
            final(self).same_frame(&*old(self)),
            final(self).ws() == ws_remove_all(old(self).ws(), old(self).active_level, old(self).path(),
                old(self).active().node_ids@, stale_targets(table@, old(self).active().connections@)),
            only_wires_changed(final(self).levels@, old(self).levels@, old(self).active_level as int, final(self).ws().conns),
            forall|c: Connection| #[trigger] final(self).active().connections@.contains(c) ==> old(self).active().connections@.contains(c)
                && ends_fit(table@, c),
    {
        let stale = compute_stale_targets(table, &self.levels[self.active_level].connections);
        self.remove_all_into(&stale);
        proof {
            assert forall|c: Connection| #[trigger] self.active().connections@.contains(c) implies old(self).active().connections@.contains(c)
                && ends_fit(table@, c) by {
                lemma_cleanup_keeps_fitting_wires(old(self).ws(), old(self).active_level, old(self).path(),
                    old(self).active().node_ids@, table@, c);
            }
        }
    }

    /// For exactly two selected nodes, pairs the left node's outputs with
    /// the right node's inputs in order ([`greedy_pairs`]).
    /// `first_is_left` tells whether the first selected node lies left of
    /// (or level with) the second. Returns `(source, destination, pairs)`,
    /// or `None` when the selection is not two nodes or nothing pairs up.
    pub fn auto_connect_plan(&self, first_is_left: bool, table: &Vec<NodePorts>) -> (r: Option<(NodeId, NodeId, Vec<(usize, usize)>)>)
        requires
            self.wf(),
        ensures
            ({
                let sel = self.selected_nodes@;
                let ids = self.active().node_ids@;
                if sel.len() != 2 || sel[0] >= ids.len() || sel[1] >= ids.len() {
                    r is None
                } else {
                    let s = if first_is_left { sel[0] } else { sel[1] };
                    let d = if first_is_left { sel[1] } else { sel[0] };
                    let pairs = greedy_pairs(outputs_of(table@, ids[s as int]), inputs_of(table@, ids[d as int]), 0, 0);
                    if pairs.len() == 0 {
                        r is None
                    } else {
                        r matches Some(t) && t.0 == ids[s as int] && t.1 == ids[d as int] && t.2@ == pairs
                    }
                }
            }),
    {
        if self.selected_nodes.len() != 2 {
            return None;
        }
        let level = &self.levels[self.active_level];
        let i_a = self.selected_nodes[0];
        let i_b = self.selected_nodes[1];
        if i_a >= level.node_ids.len() || i_b >= level.node_ids.len() {
            return None;
        }
        let (s, d) = if first_is_left { (i_a, i_b) } else { (i_b, i_a) };
        let src_id = level.node_ids[s];
        let dst_id = level.node_ids[d];
        let empty: Vec<PortSlot> = Vec::new();
        let outs = match table_position(table, src_id) {
            Some(i) => &table[i].outputs,
            None => &empty,
        };
        let ins = match table_position(table, dst_id) {
            Some(i) => &table[i].inputs,
            None => &empty,
        };
        let pairs = compute_greedy_pairs(outs, ins);
        if pairs.len() == 0 {
            return None;
        }
        Some((src_id, dst_id, pairs))
    }

    /// The Delete key: the selected frames of the active level are dropped,
    /// the selected wires go (each through the
    /// removal of what feeds its input, so widgets hear of it), then the
    /// selected nodes other than the bridge nodes, with every wire that
    /// touches them. Returns the ids of the removed nodes. The frame and
    /// wire selections are empty afterwards, and so is the node selection,
    /// except that a selection of bridge nodes alone stays.
    pub fn delete_selected(&mut self) -> (removed: Vec<NodeId>)
        requires
            old(self).wf(),
            forall|k: int| 0 <= k < old(self).selected_nodes@.len() ==>
                #[trigger] old(self).selected_nodes@[k] < old(self).active().node_ids@.len(),
        ensures
            final(self).wf(),
            final(self).selected_connections@.len() == 0,
            final(self).selected_frames@.len() == 0,
            final(self).active().frame_ids@ == frames_without(old(self).active().frame_ids@, old(self).selected_frames@),
            ({
                let a = old(self).active_level as int;
                let ids = old(self).active().node_ids@;
                let sel = old(self).selected_nodes@;
                let rem = keep_where(ids, deletes(sel, ids));
                let mid = ws_remove_all(old(self).ws(), old(self).active_level, old(self).path(), ids,
                    wire_targets(old(self).selected_connections@));
                let after = ws_remove_all(mid, old(self).active_level, old(self).path(), ids,
                    touch_targets(mid.conns, rem));
                &&& removed@ == rem
                &&& if rem.len() == 0 {
                    &&& final(self).levels@.len() == old(self).levels@.len()
                    &&& forall|i: int| 0 <= i < old(self).levels@.len() && i != a ==>
                        #[trigger] final(self).levels@[i] == old(self).levels@[i]
                    &&& final(self).active().node_ids == old(self).active().node_ids
                    &&& final(self).active().nodes == old(self).active().nodes
                    &&& final(self).active().subgraph_id == old(self).active().subgraph_id
                    &&& final(self).active().parent_level_idx == old(self).active().parent_level_idx
                    &&& final(self).active().label == old(self).active().label
                    &&& final(self).active().connections@ == mid.conns
                    &&& final(self).selected_nodes@ == sel
                    &&& final(self).ws() == mid
                } else {
                    &&& final(self).levels@.len() == old(self).levels@.len()
                    &&& forall|i: int| 0 <= i < old(self).levels@.len() && i != a ==>
                        #[trigger] final(self).levels@[i] == old(self).levels@[i]
                    &&& final(self).active().node_ids@ == keep_where(ids, not_deleted(sel, ids))
                    &&& final(self).active().nodes@ == keep_where(old(self).active().nodes@, not_deleted(sel, ids))
                    &&& final(self).active().connections@ == after.conns
                    &&& final(self).active().subgraph_id == old(self).active().subgraph_id
                    &&& final(self).active().parent_level_idx == old(self).active().parent_level_idx
                    &&& final(self).active().label == old(self).active().label
                    &&& final(self).widget_events@ == after.events
                    &&& cmd_views(final(self).pending_engine_cmds@) == after.cmds + remove_node_cmds(old(self).path(), rem)
                    &&& final(self).selected_nodes@.len() == 0
                }
            }),
            final(self).active_level == old(self).active_level,
            final(self).next_id == old(self).next_id,
            final(self).new_nodes@ == old(self).new_nodes@,
    {
        let kept = remove_frame_ids(&self.levels[self.active_level].frame_ids, &self.selected_frames);
        let mut tos: Vec<PortId> = Vec::new();
        let mut k: usize = 0;
        while k < self.selected_connections.len()
            invariant
                k <= self.selected_connections@.len(),
                self.selected_connections@ == old(self).selected_connections@,
                tos@ == wire_targets(self.selected_connections@.take(k as int)),
            decreases self.selected_connections@.len() - k,
        {
            tos.push(self.selected_connections[k].to);
            proof {
                assert(self.selected_connections@.take(k + 1) =~= self.selected_connections@.take(k as int).push(
                    self.selected_connections@[k as int]));
                assert(tos@ =~= wire_targets(self.selected_connections@.take(k + 1)));
            }
            k += 1;
        }
        proof {
            assert(self.selected_connections@.take(self.selected_connections@.len() as int) =~= self.selected_connections@);
        }
        self.selected_connections.clear();
        let ghost levels0 = self.levels@;
        self.remove_all_into(&tos);
        proof {
            lemma_only_wires_skeleton(self.levels@, levels0, self.active_level as int, self.ws().conns);
            assert(self.active().node_ids@ == levels0[self.active_level as int].node_ids@);
        }
        let removed = self.delete_selected_nodes();
        self.selected_connections.clear();
        let a = self.active_level;
        self.levels[a].frame_ids = kept;
        self.selected_frames.clear();
        removed
    }

    /// Adds a decorative frame to the active level under the next free id
    /// and returns that id.
    pub fn add_frame_at(&mut self) -> (id: u64)
        requires
            old(self).wf(),
            old(self).next_id < BRIDGE_IN_RAW,
        ensures
            final(self).wf(),
            id == old(self).next_id,
            final(self).next_id == old(self).next_id + 1,
            final(self).active_level == old(self).active_level,
            final(self).levels@.len() == old(self).levels@.len(),
            forall|i: int| 0 <= i < old(self).levels@.len() && i != old(self).active_level ==>
                #[trigger] final(self).levels@[i] == old(self).levels@[i],
            final(self).active().frame_ids@ == old(self).active().frame_ids@.push(id),
            final(self).active().node_ids == old(self).active().node_ids,
            final(self).active().nodes == old(self).active().nodes,
            final(self).active().connections == old(self).active().connections,
            final(self).active().subgraph_id == old(self).active().subgraph_id,
            final(self).active().parent_level_idx == old(self).active().parent_level_idx,
            final(self).active().label == old(self).active().label,
            final(self).selected_nodes@ == old(self).selected_nodes@,
            final(self).selected_frames@ == old(self).selected_frames@,
            final(self).selected_connections@ == old(self).selected_connections@,
            final(self).new_nodes@ == old(self).new_nodes@,
            final(self).pending_engine_cmds@ == old(self).pending_engine_cmds@,
            final(self).widget_events@ == old(self).widget_events@,
    {
        let id = self.next_id;
        self.next_id = self.next_id + 1;
        let a = self.active_level;
        self.levels[a].frame_ids.push(id);
        proof {
            assert forall|l: int, i: int| 0 <= l < self.levels@.len() && 0 <= i < self.levels@[l].node_ids@.len() implies {
                let nid = #[trigger] self.levels@[l].node_ids@[i];
                nid == bridge_in_id() || nid == bridge_out_id() || nid.0 < self.next_id
            } by {
                assert(self.levels@[l].node_ids == old(self).levels@[l].node_ids);
            }
            assert forall|l: int| 0 <= l < self.levels@.len() implies match #[trigger] self.levels@[l].subgraph_id {
                Some(sg) => sg.0 < self.next_id,
                None => true,
            } by {
                assert(self.levels@[l].subgraph_id == old(self).levels@[l].subgraph_id);
            }
        }
        id
    }

    /// A click on frame `id`: with `toggle` (ctrl/shift) the frame joins
    /// the frame selection; otherwise the frame and node selections are
    /// emptied first. A new frame from the context menu is selected this
    /// way, with `toggle` false.
    pub fn click_frame(&mut self, id: u64, toggle: bool)
        ensures
            final(self).levels@ == old(self).levels@,
            final(self).active_level == old(self).active_level,
            final(self).next_id == old(self).next_id,
            final(self).new_nodes@ == old(self).new_nodes@,
            final(self).pending_engine_cmds@ == old(self).pending_engine_cmds@,
            final(self).widget_events@ == old(self).widget_events@,
            final(self).selected_connections@ == old(self).selected_connections@,
            final(self).selected_nodes@ == (if toggle { old(self).selected_nodes@ } else { Seq::<usize>::empty() }),
            ({
                let fs = if toggle { old(self).selected_frames@ } else { Seq::<u64>::empty() };
                final(self).selected_frames@ == (if fs.contains(id) { fs } else { fs.push(id) })
            }),
    {
        if !toggle {
            self.selected_frames.clear();
            self.selected_nodes.clear();
        }
        if !contains_u64(&self.selected_frames, id) {
            self.selected_frames.push(id);
        }
    }

    /// A plain click on empty canvas: nothing stays selected.
    pub fn clear_selection(&mut self)
        ensures
            final(self).levels@ == old(self).levels@,
            final(self).active_level == old(self).active_level,
            final(self).next_id == old(self).next_id,
            final(self).new_nodes@ == old(self).new_nodes@,
            final(self).pending_engine_cmds@ == old(self).pending_engine_cmds@,
            final(self).widget_events@ == old(self).widget_events@,
            final(self).selected_nodes@.len() == 0,
            final(self).selected_frames@.len() == 0,
            final(self).selected_connections@.len() == 0,
    {
        self.selected_nodes.clear();
        self.selected_frames.clear();
        self.selected_connections.clear();
    }

    pub fn selected_frame_ids(&self) -> (r: &Vec<u64>)
        ensures
            r@ == self.selected_frames@,
    {
        &self.selected_frames
    }

    pub fn deselect_all_frames(&mut self)
        ensures
            final(self).levels@ == old(self).levels@,
            final(self).active_level == old(self).active_level,
            final(self).next_id == old(self).next_id,
            final(self).selected_nodes@ == old(self).selected_nodes@,
            final(self).selected_connections@ == old(self).selected_connections@,
            final(self).selected_frames@.len() == 0,
    {
        self.selected_frames.clear();
    }

    /// The shortcuts of one frame. No shortcut fires while a text field
    /// has focus. Delete/Backspace deletes when the pointer is over the
    /// canvas and something (node, frame or wire) is selected; F/Home fits
    /// the view; Ctrl+D duplicates and Ctrl+C copies when nodes are
    /// selected; Ctrl+V pastes when the clipboard holds something.
    pub fn keyboard_actions(&self, keys: CanvasKeys, clipboard_empty: bool) -> (r: CanvasActions)
        ensures
            r.delete == (keys.pointer_over_canvas && !keys.text_focus && keys.delete && (self.selected_nodes@.len() > 0
                || self.selected_frames@.len() > 0 || self.selected_connections@.len() > 0)),
            r.fit == (!keys.text_focus && keys.fit),
            r.duplicate == (!keys.text_focus && keys.ctrl && keys.d && self.selected_nodes@.len() > 0),
            r.copy == (!keys.text_focus && keys.ctrl && keys.c && self.selected_nodes@.len() > 0),
            r.paste == (!keys.text_focus && keys.ctrl && keys.v && !clipboard_empty),
    {
        let free = !keys.text_focus;
        let any_selected = self.selected_nodes.len() > 0 || self.selected_frames.len() > 0
            || self.selected_connections.len() > 0;
        let nodes_selected = self.selected_nodes.len() > 0;
        CanvasActions {
            delete: keys.pointer_over_canvas && free && keys.delete && any_selected,
            fit: free && keys.fit,
            duplicate: free && keys.ctrl && keys.d && nodes_selected,
            copy: free && keys.ctrl && keys.c && nodes_selected,
            paste: free && keys.ctrl && keys.v && !clipboard_empty,
        }
    }

    /// What Ctrl+C copies: the selected nodes, in selection order, as
    /// their positions and ids; the caller reads their payloads.
    pub fn copy_selection(&self) -> (r: Vec<(usize, NodeId)>)
        requires
            self.wf(),
            forall|k: int| 0 <= k < self.selected_nodes@.len() ==>
                #[trigger] self.selected_nodes@[k] < self.active().node_ids@.len(),
        ensures
            r@ == self.selected_nodes@.map_values(|i: usize| (i, self.active().node_ids@[i as int])),
    {
        let a = self.active_level;
        let mut r: Vec<(usize, NodeId)> = Vec::new();
        let mut k: usize = 0;
        while k < self.selected_nodes.len()
            invariant
                k <= self.selected_nodes@.len(),
                a == self.active_level,
                a < self.levels@.len(),
                forall|j: int| 0 <= j < self.selected_nodes@.len() ==>
                    #[trigger] self.selected_nodes@[j] < self.active().node_ids@.len(),
                r@ == self.selected_nodes@.take(k as int).map_values(|i: usize| (i, self.active().node_ids@[i as int])),
            decreases self.selected_nodes@.len() - k,
        {
            let i = self.selected_nodes[k];
            let id = self.levels[a].node_ids[i];
            r.push((i, id));
            proof {
                assert(self.selected_nodes@.take(k + 1) =~= self.selected_nodes@.take(k as int).push(i));
                assert(r@ =~= self.selected_nodes@.take(k + 1).map_values(|i: usize| (i, self.active().node_ids@[i as int])));
            }
            k += 1;
        }
        proof {
            assert(self.selected_nodes@.take(self.selected_nodes@.len() as int) =~= self.selected_nodes@);
        }
        r
    }

    /// A click on wire `c`: with `toggle` (ctrl/shift) the wire's membership
    /// in the wire selection flips; otherwise the node and frame selections
    /// are cleared and the wire's membership flips in an emptied wire
    /// selection.
    pub fn click_wire(&mut self, c: Connection, toggle: bool)
        ensures
            final(self).levels@ == old(self).levels@,
            final(self).active_level == old(self).active_level,
            final(self).next_id == old(self).next_id,
            final(self).pending_engine_cmds@ == old(self).pending_engine_cmds@,
            final(self).widget_events@ == old(self).widget_events@,
            final(self).new_nodes@ == old(self).new_nodes@,
            ({
                let ws = if toggle { old(self).selected_connections@ } else { Seq::<Connection>::empty() };
                &&& final(self).selected_nodes@ == (if toggle { old(self).selected_nodes@ } else { Seq::<usize>::empty() })
                &&& final(self).selected_frames@ == (if toggle { old(self).selected_frames@ } else { Seq::<u64>::empty() })
                &&& if ws.contains(c) {
                    final(self).selected_connections@ == ws.remove_value(c)
                } else {
                    final(self).selected_connections@ == ws.push(c)
                }
            }),
            no_duplicate_wires(old(self).selected_connections@) ==> no_duplicate_wires(final(self).selected_connections@),
    {
        if !toggle {
            self.selected_nodes.clear();
            self.selected_frames.clear();
            self.selected_connections.clear();
        }
        let ghost before = self.selected_connections@;
        let mut found: Option<usize> = None;
        let mut i: usize = 0;
        while i < self.selected_connections.len()
            invariant
                i <= self.selected_connections@.len(),
                self.selected_connections@ == before,
                match found {
                    Some(j) => j < i && before[j as int] == c && forall|m: int| 0 <= m < j ==> before[m] != c,
                    None => forall|m: int| 0 <= m < i ==> before[m] != c,
                },
            decreases self.selected_connections@.len() - i,
        {
            if found.is_none() && self.selected_connections[i] == c {
                found = Some(i);
            }
            i += 1;
        }
        match found {
            Some(j) => {
                self.selected_connections.remove(j);
                proof {
                    assert(before.index_of_first(c) == Some(j as int)) by {
                        before.index_of_first_ensures(c);
                    }
                    assert(before.remove_value(c) =~= before.remove(j as int));
                }
            },
            None => {
                proof {
                    assert(!before.contains(c));
                }
                self.selected_connections.push(c);
            },
        }
        proof {
            if no_duplicate_wires(old(self).selected_connections@) {
                let f = self.selected_connections@;
                assert(no_duplicate_wires(before));
                assert forall|x: int, y: int| 0 <= x < y < f.len() implies f[x] != f[y] by {
                    if found is Some {
                        let j = found->0 as int;
                        let bx = if x < j { x } else { x + 1 };
                        let by = if y < j { y } else { y + 1 };
                        assert(f[x] == before[bx]);
                        assert(f[y] == before[by]);
                    }
                }
            }
        }
    }

    /// A selection rectangle: the nodes and wires it catches become the
    /// selection (a wire caught twice is listed once).
    pub fn select_in_rect(&mut self, nodes: Vec<usize>, wires: &Vec<Connection>)
        ensures
            final(self).levels@ == old(self).levels@,
            final(self).active_level == old(self).active_level,
            final(self).next_id == old(self).next_id,
            final(self).pending_engine_cmds@ == old(self).pending_engine_cmds@,
            final(self).widget_events@ == old(self).widget_events@,
            final(self).new_nodes@ == old(self).new_nodes@,
            final(self).selected_nodes@ == nodes@,
            no_duplicate_wires(final(self).selected_connections@),
            forall|c: Connection| #[trigger] final(self).selected_connections@.contains(c) <==> wires@.contains(c),
    {
        self.selected_nodes = nodes;
        let mut sel: Vec<Connection> = Vec::new();
        let mut i: usize = 0;
        while i < wires.len()
            invariant
                i <= wires.len(),
                no_duplicate_wires(sel@),
                forall|c: Connection| #[trigger] sel@.contains(c) <==> wires@.take(i as int).contains(c),
            decreases wires.len() - i,
        {
            let c = wires[i];
            let present = contains_connection(&sel, c);
            let ghost prev = sel@;
            if !present {
                sel.push(c);
            }
            proof {
                let t1 = wires@.take(i + 1);
                let t0 = wires@.take(i as int);
                assert(t1 =~= t0.push(c));
                assert forall|x: Connection| #[trigger] sel@.contains(x) <==> t1.contains(x) by {
                    if t1.contains(x) {
                        let m = choose|m: int| 0 <= m < t1.len() && t1[m] == x;
                        if m < i {
                            assert(t0[m] == x);
                        }
                        if !present {
                            assert(sel@[sel@.len() - 1] == c);
                        }
                    }
                    if sel@.contains(x) {
                        let m = choose|m: int| 0 <= m < sel@.len() && sel@[m] == x;
                        if m < prev.len() {
                            assert(prev[m] == x);
                            assert(t0.contains(x));
                            let q = choose|q: int| 0 <= q < t0.len() && t0[q] == x;
                            assert(t1[q] == x);
                        } else {
                            assert(t1[i as int] == x);
                        }
                    }
                }
                if !present {
                    assert forall|x: int, y: int| 0 <= x < y < sel@.len() implies sel@[x] != sel@[y] by {
                        if y == sel@.len() - 1 {
                            assert(prev[x] == sel@[x]);
                        } else {
                            assert(prev[x] == sel@[x] && prev[y] == sel@[y]);
                        }
                    }
                }
            }
            i += 1;
        }
        proof {
            assert(wires@.take(wires.len() as int) =~= wires@);
        }
        self.selected_connections = sel;
    }

    /// Deletes the selected nodes of the active level (bridge nodes are
    /// never deleted): every wire touching them is dropped through
    /// `remove_connection_to` (so widgets hear about it), the nodes are
    /// removed, the processing side is told, and the selection is cleared.
    /// When nothing qualifies, nothing changes. Returns the removed ids.
    fn delete_selected_nodes(&mut self) -> (removed: Vec<NodeId>)
        requires
            old(self).wf(),
            forall|k: int| 0 <= k < old(self).selected_nodes@.len() ==>
                #[trigger] old(self).selected_nodes@[k] < old(self).active().node_ids@.len(),
        ensures
            final(self).wf(),
            ({
                let a = old(self).active_level as int;
                let ids = old(self).active().node_ids@;
                let sel = old(self).selected_nodes@;
                let rem = keep_where(ids, deletes(sel, ids));
                let after = ws_remove_all(old(self).ws(), old(self).active_level, old(self).path(), ids,
                    touch_targets(old(self).active().connections@, rem));
                &&& removed@ == rem
                &&& if rem.len() == 0 {
                    &&& final(self).levels@ == old(self).levels@
                    &&& final(self).selected_nodes@ == sel
                    &&& final(self).ws() == old(self).ws()
                } else {
                    &&& final(self).levels@.len() == old(self).levels@.len()
                    &&& forall|i: int| 0 <= i < old(self).levels@.len() && i != a ==>
                        #[trigger] final(self).levels@[i] == old(self).levels@[i]
                    &&& final(self).active().node_ids@ == keep_where(ids, not_deleted(sel, ids))
                    &&& final(self).active().nodes@ == keep_where(old(self).active().nodes@, not_deleted(sel, ids))
                    &&& final(self).active().connections@ == after.conns
                    &&& final(self).active().subgraph_id == old(self).active().subgraph_id
                    &&& final(self).active().parent_level_idx == old(self).active().parent_level_idx
                    &&& final(self).active().label == old(self).active().label
                    &&& final(self).active().frame_ids == old(self).active().frame_ids
                    &&& final(self).widget_events@ == after.events
                    &&& cmd_views(final(self).pending_engine_cmds@) == after.cmds + remove_node_cmds(old(self).path(), rem)
                    &&& final(self).selected_nodes@.len() == 0
                }
            }),
            final(self).active_level == old(self).active_level,
            final(self).next_id == old(self).next_id,
            final(self).new_nodes@ == old(self).new_nodes@,
    {
        let a = self.active_level;
        let ghost ids0 = self.active().node_ids@;
        let ghost nodes0 = self.active().nodes@;
        let ghost sel = self.selected_nodes@;
        let ghost path = self.path();
        let ghost old_levels = self.levels@;
        let n = self.levels[a].node_ids.len();
        let bin = bridge_in_node_id();
        let bout = bridge_out_node_id();
        let mut flags: Vec<bool> = Vec::new();
        let mut removed: Vec<NodeId> = Vec::new();
        let mut i: usize = 0;
        while i < n
            invariant
                i <= n,
                n == ids0.len(),
                ids0 == self.levels@[a as int].node_ids@,
                sel == self.selected_nodes@,
                a == self.active_level,
                self.wf(),
                bin == bridge_in_id(),
                bout == bridge_out_id(),
                flags@.len() == i,
                forall|k: int| 0 <= k < i ==> flags@[k] == deletes(sel, ids0)(k),
                removed@ == keep_where(ids0.take(i as int), deletes(sel, ids0)),
            decreases n - i,
        {
            let id = self.levels[a].node_ids[i];
            let f = vec_contains_usize(&self.selected_nodes, i) && id != bin && id != bout;
            proof {
                lemma_keep_where_take(ids0, deletes(sel, ids0), i as int);
            }
            flags.push(f);
            if f {
                removed.push(id);
            }
            i += 1;
        }
        proof {
            assert(ids0.take(n as int) =~= ids0);
        }
        if removed.len() == 0 {
            return removed;
        }
        let affected = compute_touch_targets(&self.levels[a].connections, &removed);
        self.remove_all_into(&affected);
        let ghost after_remove = self.levels@;
        let ghost ws_after = self.ws();
        proof {
            lemma_only_wires_skeleton(after_remove, old_levels, a as int, ws_after.conns);
        }
        let mut ids_tmp: Vec<NodeId> = Vec::new();
        let mut nodes_tmp: Vec<W> = Vec::new();
        std::mem::swap(&mut ids_tmp, &mut self.levels[a].node_ids);
        std::mem::swap(&mut nodes_tmp, &mut self.levels[a].nodes);
        proof {
            assert(ids_tmp@ == ids0);
            assert(nodes_tmp@ == nodes0);
            assert(ids0.len() == nodes0.len()) by {
                assert(old_levels[a as int].node_ids@.len() == old_levels[a as int].nodes@.len());
            }
        }
        let (mut kept_ids, mut kept_nodes) = retain_unflagged(ids_tmp, nodes_tmp, &flags, Ghost(not_deleted(sel, ids0)));
        std::mem::swap(&mut kept_ids, &mut self.levels[a].node_ids);
        std::mem::swap(&mut kept_nodes, &mut self.levels[a].nodes);
        proof {
            lemma_keep_where_subset(ids0, not_deleted(sel, ids0));
            assert forall|l: int, i: int| 0 <= l < self.levels@.len() && 0 <= i < self.levels@[l].node_ids@.len() implies {
                let id = #[trigger] self.levels@[l].node_ids@[i];
                id == bridge_in_id() || id == bridge_out_id() || id.0 < self.next_id
            } by {
                if l != a {
                    assert(self.levels@[l] == after_remove[l]);
                    assert(after_remove[l].node_ids@[i] == after_remove[l].node_ids@[i]);
                } else {
                    let q = choose|q: int| 0 <= q < ids0.len() && keep_where(ids0, not_deleted(sel, ids0))[i] == ids0[q];
                    assert(old_levels[a as int].node_ids@[q] == ids0[q]);
                }
            }
            assert forall|l: int| 0 <= l < self.levels@.len() implies match #[trigger] self.levels@[l].subgraph_id {
                Some(s) => s.0 < self.next_id,
                None => true,
            } by {
                assert(match after_remove[l].subgraph_id { Some(s) => s.0 < self.next_id, None => true });
            }
            assert forall|i: int| 0 < i < self.levels@.len() implies match #[trigger] self.levels@[i].parent_level_idx {
                Some(p) => p < i,
                None => false,
            } by {
                assert(match after_remove[i].parent_level_idx { Some(p) => p < i, None => false });
            }
            assert forall|i: int| 0 <= i < self.levels@.len() implies (#[trigger] self.levels@[i]).node_ids@.len() == self.levels@[i].nodes@.len() by {
                if i != a {
                    assert(self.levels@[i] == after_remove[i]);
                }
            }
            assert(same_skeleton(self.levels@, old_levels));
            lemma_path_skeleton(self.levels@, old_levels, a as int);
        }
        let ghost cmds_before = cmd_views(self.pending_engine_cmds@);
        let ghost lv0 = self.levels@;
        let ghost ev0 = self.widget_events@;
        let ghost nn0 = self.new_nodes@;
        let ghost nid0 = self.next_id;
        let mut k: usize = 0;
        while k < removed.len()
            invariant
                k <= removed.len(),
                self.wf(),
                a == self.active_level,
                self.path() == path,
                self.levels@ == lv0,
                self.widget_events@ == ev0,
                self.new_nodes@ == nn0,
                self.next_id == nid0,
                cmd_views(self.pending_engine_cmds@) == cmds_before + remove_node_cmds(path, removed@.take(k as int)),
            decreases removed.len() - k,
        {
            let ghost lv = self.levels@;
            self.push_engine_cmd(SubgraphInnerCmd::RemoveNode(removed[k]));
            proof {
                assert(remove_node_cmds(path, removed@.take(k + 1)) =~= remove_node_cmds(path, removed@.take(k as int)).push(
                    routed(path, SubgraphInnerCmd::RemoveNode(removed@[k as int]))));
            }
            k += 1;
        }
        proof {
            assert(removed@.take(removed@.len() as int) =~= removed@);
        }
        self.selected_nodes.clear();
        removed
    }

    /// Places pasted nodes (payloads made for freshly allocated ids) in the
    /// active level, after the existing ones, and makes them the selection.
    pub fn add_pasted(&mut self, nodes: Vec<(W, NodeId)>) -> (r: Vec<usize>)
        requires
            old(self).wf(),
            forall|k: int| 0 <= k < nodes@.len() ==> (#[trigger] nodes@[k]).1.0 < u64::MAX,
            old(self).active().node_ids@.len() + nodes@.len() <= usize::MAX,
        ensures
            final(self).wf(),
            final(self).active_level == old(self).active_level,
            final(self).levels@.len() == old(self).levels@.len(),
            final(self).active().node_ids@ == old(self).active().node_ids@ + nodes@.map_values(
                |e: (W, NodeId)| e.1,
            ),
            final(self).active().nodes@ == old(self).active().nodes@ + nodes@.map_values(|e: (W, NodeId)| e.0),
            final(self).active().connections == old(self).active().connections,
            r@ == Seq::new(nodes@.len(), |k: int| (old(self).active().node_ids@.len() + k) as usize),
            final(self).selected_nodes@ == r@,
            forall|i: int| 0 <= i < old(self).levels@.len() && i != old(self).active_level ==>
                #[trigger] final(self).levels@[i] == old(self).levels@[i],
            final(self).new_nodes@.len() == old(self).new_nodes@.len() + nodes@.len(),
            forall|k: int| 0 <= k < old(self).new_nodes@.len() ==> #[trigger] final(self).new_nodes@[k] == old(self).new_nodes@[k],
            forall|k: int| 0 <= k < nodes@.len() ==> new_node_ok(
                #[trigger] final(self).new_nodes@[old(self).new_nodes@.len() + k],
                old(self).active().node_ids@.len() + k,
                old(self).path(),
            ),
            final(self).pending_engine_cmds@ == old(self).pending_engine_cmds@,
            final(self).widget_events@ == old(self).widget_events@,
    {
        self.selected_nodes.clear();
        let ghost ids0 = self.active().node_ids@;
        let ghost nodes0 = self.active().nodes@;
        let ghost all = nodes@;
        let mut rest = nodes;
        let mut r: Vec<usize> = Vec::new();
        let mut n: usize = 0;
        proof {
            assert(all.skip(0) =~= all);
        }
        while rest.len() > 0
            invariant
                self.wf(),
                self.active_level == old(self).active_level,
                self.levels@.len() == old(self).levels@.len(),
                ids0 == old(self).active().node_ids@,
                nodes0 == old(self).active().nodes@,
                n + rest@.len() == all.len(),
                rest@ == all.skip(n as int),
                forall|k: int| 0 <= k < all.len() ==> (#[trigger] all[k]).1.0 < u64::MAX,
                ids0.len() + all.len() <= usize::MAX,
                self.active().node_ids@ == ids0 + all.take(n as int).map_values(|e: (W, NodeId)| e.1),
                self.active().nodes@ == nodes0 + all.take(n as int).map_values(|e: (W, NodeId)| e.0),
                self.active().connections == old(self).active().connections,
                r@ == Seq::new(n as nat, |k: int| (ids0.len() + k) as usize),
                self.selected_nodes@ == r@,
                forall|i: int| 0 <= i < old(self).levels@.len() && i != old(self).active_level ==>
                    #[trigger] self.levels@[i] == old(self).levels@[i],
                self.active().subgraph_id == old(self).active().subgraph_id,
                self.active().parent_level_idx == old(self).active().parent_level_idx,
                self.path() == old(self).path(),
                self.new_nodes@.len() == old(self).new_nodes@.len() + n,
                forall|k: int| 0 <= k < old(self).new_nodes@.len() ==> #[trigger] self.new_nodes@[k] == old(self).new_nodes@[k],
                forall|k: int| 0 <= k < n ==> new_node_ok(
                    #[trigger] self.new_nodes@[old(self).new_nodes@.len() + k],
                    ids0.len() + k,
                    old(self).path(),
                ),
                self.pending_engine_cmds@ == old(self).pending_engine_cmds@,
                self.widget_events@ == old(self).widget_events@,
            decreases rest@.len(),
        {
            let (w, id) = rest.remove(0);
            proof {
                assert(all[n as int] == (w, id));
                assert(rest@ =~= all.skip(n + 1));
                assert(all.take(n + 1) =~= all.take(n as int).push((w, id)));
            }
            let ghost before = self.levels@;
            let idx = self.add_node(w, id);
            proof {
                assert(same_skeleton(self.levels@, before));
                lemma_path_skeleton(self.levels@, before, self.active_level as int);
            }
            self.selected_nodes.push(idx);
            r.push(idx);
            proof {
                assert(self.active().node_ids@ =~= ids0 + all.take(n + 1).map_values(|e: (W, NodeId)| e.1));
                assert(self.active().nodes@ =~= nodes0 + all.take(n + 1).map_values(|e: (W, NodeId)| e.0));
                assert(r@ =~= Seq::new((n + 1) as nat, |k: int| (ids0.len() + k) as usize));
            }
            n += 1;
        }
        proof {
            assert(all.take(n as int) =~= all);
        }
        r
    }

    /// Click on node `i`: with `toggle` (ctrl/shift) the node's membership
    /// in the selection flips; otherwise an unselected node becomes the only
    /// selected one and a selected node keeps the selection as it is.
    pub fn click_select(&mut self, i: usize, toggle: bool)
        ensures
            final(self).levels@ == old(self).levels@,
            final(self).selected_frames@ == old(self).selected_frames@,
            final(self).selected_connections@ == old(self).selected_connections@,
            final(self).active_level == old(self).active_level,
            final(self).next_id == old(self).next_id,
            final(self).new_nodes@ == old(self).new_nodes@,
            final(self).pending_engine_cmds@ == old(self).pending_engine_cmds@,
            final(self).widget_events@ == old(self).widget_events@,
            ({
                let sel = old(self).selected_nodes@;
                if toggle {
                    if sel.contains(i) {
                        final(self).selected_nodes@ == sel.remove_value(i)
                    } else {
                        final(self).selected_nodes@ == sel.push(i)
                    }
                } else if sel.contains(i) {
                    final(self).selected_nodes@ == sel
                } else {
                    final(self).selected_nodes@ == seq![i]
                }
            }),
    {
        let ghost sel = self.selected_nodes@;
        let mut pos: usize = 0;
        while pos < self.selected_nodes.len() && self.selected_nodes[pos] != i
            invariant
                pos <= self.selected_nodes.len(),
                self.selected_nodes@ == sel,
                forall|q: int| 0 <= q < pos ==> sel[q] != i,
            decreases self.selected_nodes.len() - pos,
        {
            pos += 1;
        }
        let found = pos < self.selected_nodes.len();
        proof {
            sel.index_of_first_ensures(i);
            if found {
                match sel.index_of_first(i) {
                    Some(p) => {
                        if p < pos { } else if p > pos { assert(sel[pos as int] == i); }
                        assert(p == pos);
                    },
                    None => {},
                }
            }
        }
        if toggle {
            if found {
                self.selected_nodes.remove(pos);
            } else {
                self.selected_nodes.push(i);
            }
        } else if !found {
            self.selected_nodes.clear();
            self.selected_nodes.push(i);
            proof {
                assert(self.selected_nodes@ =~= seq![i]);
            }
        }
    }

    /// Positions in the active level of the bridge nodes (graph input and
    /// graph output), whose ports follow the subgraph's when it is entered
    /// again.
    pub fn bridge_node_indices(&self) -> (r: (Vec<usize>, Vec<usize>))
        requires
            self.wf(),
        ensures
            forall|k: int| 0 <= k < r.0@.len() ==> #[trigger] r.0@[k] < self.active().node_ids@.len()
                && self.active().node_ids@[r.0@[k] as int] == bridge_in_id(),
            forall|k: int| 0 <= k < r.1@.len() ==> #[trigger] r.1@[k] < self.active().node_ids@.len()
                && self.active().node_ids@[r.1@[k] as int] == bridge_out_id(),
            forall|i: int| 0 <= i < self.active().node_ids@.len() && self.active().node_ids@[i] == bridge_in_id()
                ==> r.0@.contains(i as usize),
            forall|i: int| 0 <= i < self.active().node_ids@.len() && self.active().node_ids@[i] == bridge_out_id()
                ==> r.1@.contains(i as usize),
            forall|a: int, b: int| 0 <= a < b < r.0@.len() ==> r.0@[a] < r.0@[b],
            forall|a: int, b: int| 0 <= a < b < r.1@.len() ==> r.1@[a] < r.1@[b],
    {
        let a = self.active_level;
        let ids = &self.levels[a].node_ids;
        let bin = bridge_in_node_id();
        let bout = bridge_out_node_id();
        let mut ins: Vec<usize> = Vec::new();
        let mut outs: Vec<usize> = Vec::new();
        let mut i: usize = 0;
        while i < ids.len()
            invariant
                i <= ids.len(),
                *ids == self.active().node_ids,
                bin == bridge_in_id(),
                bout == bridge_out_id(),
                forall|k: int| 0 <= k < ins@.len() ==> #[trigger] ins@[k] < i && ids@[ins@[k] as int] == bridge_in_id(),
                forall|k: int| 0 <= k < outs@.len() ==> #[trigger] outs@[k] < i && ids@[outs@[k] as int] == bridge_out_id(),
                forall|j: int| 0 <= j < i && ids@[j] == bridge_in_id() ==> ins@.contains(j as usize),
                forall|j: int| 0 <= j < i && ids@[j] == bridge_out_id() ==> outs@.contains(j as usize),
                forall|a: int, b: int| 0 <= a < b < ins@.len() ==> ins@[a] < ins@[b],
                forall|a: int, b: int| 0 <= a < b < outs@.len() ==> outs@[a] < outs@[b],
            decreases ids.len() - i,
        {
            let ghost pi = ins@;
            let ghost po = outs@;
            if ids[i] == bin {
                ins.push(i);
            } else if ids[i] == bout {
                outs.push(i);
            }
            proof {
                assert forall|j: int| 0 <= j < i + 1 && ids@[j] == bridge_in_id() implies ins@.contains(j as usize) by {
                    if j < i {
                        assert(pi.contains(j as usize));
                        let m = choose|m: int| 0 <= m < pi.len() && pi[m] == j as usize;
                        assert(ins@[m] == pi[m]);
                    } else {
                        assert(ins@[ins@.len() - 1] == i);
                    }
                }
                assert forall|j: int| 0 <= j < i + 1 && ids@[j] == bridge_out_id() implies outs@.contains(j as usize) by {
                    if j < i {
                        assert(po.contains(j as usize));
                        let m = choose|m: int| 0 <= m < po.len() && po[m] == j as usize;
                        assert(outs@[m] == po[m]);
                    } else {
                        assert(ids@[j] != bridge_in_id());
                        assert(outs@[outs@.len() - 1] == i);
                    }
                }
            }
            i += 1;
        }
        (ins, outs)
    }

    /// Opens the subgraph node at `sub_idx` of the active level. If a level
    /// for it exists already it becomes active; otherwise a new level is
    /// created holding the two bridge nodes (payloads `bridge_in`,
    /// `bridge_out`) with `label`, as a child of the current level.
    /// The selection is cleared. Returns whether a new level was created.
    pub fn navigate_into(&mut self, sub_idx: usize, label: String, bridge_in: W, bridge_out: W) -> (created: bool)
        requires
            old(self).wf(),
            sub_idx < old(self).active().node_ids@.len(),
            old(self).active().node_ids@[sub_idx as int] != bridge_in_id(),
            old(self).active().node_ids@[sub_idx as int] != bridge_out_id(),
        ensures
            final(self).wf(),
            ({
                let sid = old(self).active().node_ids@[sub_idx as int];
                match first_level_of(old(self).levels@, sid) {
                    Some(l) => {
                        &&& !created
                        &&& final(self).levels@ == old(self).levels@
                        &&& final(self).active_level == l
                    },
                    None => {
                        &&& created
                        &&& final(self).levels@.len() == old(self).levels@.len() + 1
                        &&& forall|i: int| 0 <= i < old(self).levels@.len() ==> #[trigger] final(self).levels@[i] == old(self).levels@[i]
                        &&& final(self).active_level == old(self).levels@.len()
                        &&& final(self).active().node_ids@ == seq![bridge_in_id(), bridge_out_id()]
                        &&& final(self).active().nodes@ == seq![bridge_in, bridge_out]
                        &&& final(self).active().connections@.len() == 0
                        &&& final(self).active().subgraph_id == Some(sid)
                        &&& final(self).active().parent_level_idx == Some(old(self).active_level)
                        &&& final(self).active().label@ == label@
                    },
                }
            }),
            final(self).selected_nodes@.len() == 0,
            final(self).next_id == old(self).next_id,
            final(self).new_nodes@ == old(self).new_nodes@,
            final(self).pending_engine_cmds@ == old(self).pending_engine_cmds@,
            final(self).widget_events@ == old(self).widget_events@,
    {
        let sid = self.levels[self.active_level].node_ids[sub_idx];
        match level_position(&self.levels, sid) {
            Some(l) => {
                self.active_level = l;
            },
            None => {
                let mut node_ids: Vec<NodeId> = Vec::new();
                node_ids.push(bridge_in_node_id());
                node_ids.push(bridge_out_node_id());
                let mut nodes: Vec<W> = Vec::new();
                nodes.push(bridge_in);
                nodes.push(bridge_out);
                let parent = self.active_level;
                let ghost old_levels = self.levels@;
                self.levels.push(GraphLevel {
                    node_ids,
                    nodes,
                    connections: Vec::new(),
                    subgraph_id: Some(sid),
                    parent_level_idx: Some(parent),
                    label,
                    frame_ids: Vec::new(),
                });
                self.active_level = self.levels.len() - 1;
                proof {
                    assert forall|i: int| 0 < i < self.levels@.len() implies match #[trigger] self.levels@[i].parent_level_idx {
                        Some(p) => p < i,
                        None => false,
                    } by {
                        if i < old_levels.len() {
                            assert(self.levels@[i] == old_levels[i]);
                        }
                    }
                    assert forall|i: int| 0 <= i < self.levels@.len() implies (#[trigger] self.levels@[i]).node_ids@.len() == self.levels@[i].nodes@.len() by {
                        if i < old_levels.len() {
                            assert(self.levels@[i] == old_levels[i]);
                        }
                    }
                    assert(self.levels@[self.active_level as int].node_ids@ =~= seq![bridge_in_id(), bridge_out_id()]);
                    assert(old_levels[parent as int].node_ids@[sub_idx as int] == sid);
                    assert forall|l: int, i: int| 0 <= l < self.levels@.len() && 0 <= i < self.levels@[l].node_ids@.len() implies {
                        let id = #[trigger] self.levels@[l].node_ids@[i];
                        id == bridge_in_id() || id == bridge_out_id() || id.0 < self.next_id
                    } by {
                        if l < old_levels.len() {
                            assert(self.levels@[l] == old_levels[l]);
                        } else {
                            assert(self.levels@[l].node_ids@ =~= seq![bridge_in_id(), bridge_out_id()]);
                        }
                    }
                    assert forall|l: int| 0 <= l < self.levels@.len() implies match #[trigger] self.levels@[l].subgraph_id {
                        Some(s) => s.0 < self.next_id,
                        None => true,
                    } by {
                        if l < old_levels.len() {
                            assert(self.levels@[l] == old_levels[l]);
                        }
                    }
                    assert(self.levels@[self.active_level as int].nodes@ =~= seq![bridge_in, bridge_out]);
                }
                self.selected_nodes.clear();
                return true;
            },
        }
        self.selected_nodes.clear();
        false
    }
}

} // verus!
