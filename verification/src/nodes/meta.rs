//! Subgraph nodes: the subgraph itself, and the bridge pseudo-nodes that
//! stand for its ports inside the inner graph.
use vstd::prelude::*;
use vstd::string::StrSliceExecFns;
use crate::ports::{NodeId, PortType, PortDef, UiPortDef, PortView, plain_port, port_views, type_at_index, type_index, port_type_from_idx, port_type_to_idx, lemma_type_index_roundtrip};
use crate::text::{decimal_chars, with_number};
use crate::graph::{bridge_in_id, bridge_out_id, BRIDGE_IN_RAW, BRIDGE_OUT_RAW};
use crate::subgraph::SubgraphPortDef;
use crate::nodes::Accent;

verus! {

/// The UI port for a subgraph port definition: its name, and the type at
/// its picker position.
pub open spec fn sub_port_view(d: SubgraphPortDef) -> PortView {
    plain_port(d.name@, type_at_index(d.port_type_idx as nat))
}

pub open spec fn sub_port_views(defs: Seq<SubgraphPortDef>) -> Seq<PortView> {
    defs.map_values(|d: SubgraphPortDef| sub_port_view(d))
}

impl SubgraphPortDef {
    /// The plain port definition this entry describes.
    pub fn to_port_def(&self) -> (r: PortDef)
        ensures
            r.name@ == self.name@,
            r.port_type == type_at_index(self.port_type_idx as nat),
    {
        PortDef { name: self.name.clone(), port_type: port_type_from_idx(self.port_type_idx) }
    }
}

/// UI ports for a list of subgraph port definitions, in order.
pub fn sub_ui_ports(defs: &Vec<SubgraphPortDef>) -> (r: Vec<UiPortDef>)
    ensures
        port_views(r@) == sub_port_views(defs@),
{
    let mut v: Vec<UiPortDef> = Vec::new();
    let mut i: usize = 0;
    while i < defs.len()
        invariant
            i <= defs.len(),
            port_views(v@) == sub_port_views(defs@.take(i as int)),
        decreases defs.len() - i,
    {
        let p = UiPortDef::from_def(&defs[i].to_port_def());
        let ghost prev = v@;
        v.push(p);
        proof {
            assert(defs@.take(i + 1) == defs@.take(i as int).push(defs@[i as int]));
            assert(port_views(v@) =~= port_views(prev).push(p@));
            assert(sub_port_views(defs@.take(i + 1)) =~= sub_port_views(defs@.take(i as int)).push(p@));
        }
        i += 1;
    }
    proof {
        assert(defs@.take(defs.len() as int) =~= defs@);
    }
    v
}

/// Picker position of the `Untyped` type, the type of newly added ports.
pub const UNTYPED_IDX: usize = 2;

/// Appends a port named `prefix` followed by `number`, untyped.
pub fn add_named_port(defs: &mut Vec<SubgraphPortDef>, prefix: &str, number: usize)
    ensures
        final(defs)@.len() == old(defs)@.len() + 1,
        final(defs)@.take(old(defs)@.len() as int) == old(defs)@,
        final(defs)@.last().name@ == prefix@ + decimal_chars(number as nat),
        final(defs)@.last().port_type_idx == UNTYPED_IDX,
{
    let d = SubgraphPortDef { name: with_number(prefix, number), port_type_idx: UNTYPED_IDX };
    let ghost prev = defs@;
    defs.push(d);
    proof {
        assert(defs@.take(prev.len() as int) =~= prev);
    }
}

pub const SUBGRAPH_DESCRIPTION: &'static str = "Encapsulates an inner graph with custom input/output ports; double-click to enter.";

/// A node holding an inner graph, with user-defined ports.
pub struct SubgraphWidget<S> {
    pub id: NodeId,
    pub shared: S,
    pub name: String,
    pub input_defs: Vec<SubgraphPortDef>,
    pub output_defs: Vec<SubgraphPortDef>,
    /// Set when the user asked to open the subgraph for editing.
    pub wants_open: bool,
    /// A locked subgraph is a macro instance: it cannot be entered.
    pub locked: bool,
    pub macro_description: String,
    pub macro_path: String,
    /// Number of inner value/LED displays shown on the node.
    pub inner_display_count: usize,
}

impl<S> SubgraphWidget<S> {
    pub fn new(id: NodeId, shared: S) -> (r: Self)
        ensures
            r.id == id,
            r.shared == shared,
            r.name@ == Seq::<char>::empty(),
            r.input_defs@.len() == 0,
            r.output_defs@.len() == 0,
            !r.wants_open,
            !r.locked,
            r.macro_description@ == Seq::<char>::empty(),
            r.macro_path@ == Seq::<char>::empty(),
            r.inner_display_count == 0,
    {
        SubgraphWidget {
            id,
            shared,
            name: String::new(),
            input_defs: Vec::new(),
            output_defs: Vec::new(),
            wants_open: false,
            locked: false,
            macro_description: String::new(),
            macro_path: String::new(),
            inner_display_count: 0,
        }
    }

    pub fn set_name(&mut self, name: String)
        ensures
            final(self).shared == old(self).shared,
            final(self).name@ == name@,
            final(self).id == old(self).id,
            final(self).input_defs@ == old(self).input_defs@,
            final(self).output_defs@ == old(self).output_defs@,
            final(self).locked == old(self).locked,
            final(self).wants_open == old(self).wants_open,
    {
        self.name = name;
    }

    pub fn node_id(&self) -> (r: NodeId)
        ensures
            r == self.id,
    {
        self.id
    }

    /// The node can be resized on the canvas.
    pub fn resizable(&self) -> (r: bool)
        ensures
            r == true,
    {
        true
    }

    pub fn type_label(&self) -> (r: &'static str)
        ensures
            r@ == "Subgraph"@,
    {
        "Subgraph"
    }

    /// A locked macro instance carries the macro accent, an open subgraph
    /// the subgraph accent.
    pub fn accent_color(&self) -> (r: Option<Accent>)
        ensures
            r == Some(if self.locked { Accent::Macro } else { Accent::Subgraph }),
    {
        Some(if self.locked { Accent::Macro } else { Accent::Subgraph })
    }

    /// The user-given name.
    pub fn title(&self) -> (r: &str)
        ensures
            r@ == self.name@,
    {
        self.name.as_str()
    }

    pub fn description(&self) -> (r: &'static str)
        ensures
            r@ == SUBGRAPH_DESCRIPTION@,
    {
        SUBGRAPH_DESCRIPTION
    }

    pub fn ui_inputs(&self) -> (r: Vec<UiPortDef>)
        ensures
            port_views(r@) == sub_port_views(self.input_defs@),
    {
        sub_ui_ports(&self.input_defs)
    }

    pub fn ui_outputs(&self) -> (r: Vec<UiPortDef>)
        ensures
            port_views(r@) == sub_port_views(self.output_defs@),
    {
        sub_ui_ports(&self.output_defs)
    }

    pub fn shared_state(&self) -> (r: &S)
        ensures
            *r == self.shared,
    {
        &self.shared
    }

    /// Description shown for a locked macro, "(no description)" when empty.
    pub fn description_text(&self) -> (r: &str)
        ensures
            self.macro_description@.len() == 0 ==> r@ == "(no description)"@,
            self.macro_description@.len() != 0 ==> r@ == self.macro_description@,
    {
        if self.macro_description.as_str().unicode_len() == 0 {
            "(no description)"
        } else {
            self.macro_description.as_str()
        }
    }

    /// Library path shown for a locked macro, "(unknown)" when empty.
    pub fn path_text(&self) -> (r: &str)
        ensures
            self.macro_path@.len() == 0 ==> r@ == "(unknown)"@,
            self.macro_path@.len() != 0 ==> r@ == self.macro_path@,
    {
        if self.macro_path.as_str().unicode_len() == 0 {
            "(unknown)"
        } else {
            self.macro_path.as_str()
        }
    }

    /// The "open" button; it is hidden on a locked macro, so a locked
    /// subgraph never asks to be opened.
    pub fn request_open(&mut self)
        ensures
            final(self).shared == old(self).shared,
            final(self).wants_open == (old(self).wants_open || !old(self).locked),
            final(self).locked == old(self).locked,
            final(self).id == old(self).id,
            final(self).name@ == old(self).name@,
            final(self).input_defs@ == old(self).input_defs@,
            final(self).output_defs@ == old(self).output_defs@,
    {
        if !self.locked {
            self.wants_open = true;
        }
    }

    /// Takes over the lock state and display count reported by the
    /// processing side.
    pub fn sync_display(&mut self, locked: bool, inner_display_count: usize)
        ensures
            final(self).shared == old(self).shared,
            final(self).locked == locked,
            final(self).inner_display_count == inner_display_count,
            final(self).id == old(self).id,
            final(self).name@ == old(self).name@,
            final(self).wants_open == old(self).wants_open,
            final(self).input_defs@ == old(self).input_defs@,
            final(self).output_defs@ == old(self).output_defs@,
    {
        self.locked = locked;
        self.inner_display_count = inner_display_count;
    }

    /// "+ Add Input": a new untyped input named "in {count}".
    pub fn add_input(&mut self)
        ensures
            final(self).shared == old(self).shared,
            final(self).input_defs@.len() == old(self).input_defs@.len() + 1,
            final(self).input_defs@.take(old(self).input_defs@.len() as int) == old(self).input_defs@,
            final(self).input_defs@.last().name@ == "in "@ + decimal_chars(old(self).input_defs@.len()),
            final(self).input_defs@.last().port_type_idx == UNTYPED_IDX,
            final(self).output_defs@ == old(self).output_defs@,
            final(self).id == old(self).id,
            final(self).name@ == old(self).name@,
    {
        let n = self.input_defs.len();
        add_named_port(&mut self.input_defs, "in ", n);
    }

    /// "+ Add Output": a new untyped output named "out {count}".
    pub fn add_output(&mut self)
        ensures
            final(self).shared == old(self).shared,
            final(self).output_defs@.len() == old(self).output_defs@.len() + 1,
            final(self).output_defs@.take(old(self).output_defs@.len() as int) == old(self).output_defs@,
            final(self).output_defs@.last().name@ == "out "@ + decimal_chars(old(self).output_defs@.len()),
            final(self).output_defs@.last().port_type_idx == UNTYPED_IDX,
            final(self).input_defs@ == old(self).input_defs@,
            final(self).id == old(self).id,
            final(self).name@ == old(self).name@,
    {
        let n = self.output_defs.len();
        add_named_port(&mut self.output_defs, "out ", n);
    }

    /// Removes input `i`; the others keep their order.
    pub fn remove_input(&mut self, i: usize)
        requires
            i < old(self).input_defs@.len(),
        ensures
            final(self).shared == old(self).shared,
            final(self).input_defs@ == old(self).input_defs@.remove(i as int),
            final(self).output_defs@ == old(self).output_defs@,
            final(self).id == old(self).id,
            final(self).name@ == old(self).name@,
    {
        self.input_defs.remove(i);
    }

    /// Removes output `i`; the others keep their order.
    pub fn remove_output(&mut self, i: usize)
        requires
            i < old(self).output_defs@.len(),
        ensures
            final(self).shared == old(self).shared,
            final(self).output_defs@ == old(self).output_defs@.remove(i as int),
            final(self).input_defs@ == old(self).input_defs@,
            final(self).id == old(self).id,
            final(self).name@ == old(self).name@,
    {
        self.output_defs.remove(i);
    }
}

/// Inside a subgraph: the node whose outputs carry the subgraph's inputs.
pub struct GraphInputWidget<S> {
    pub shared: S,
    pub port_defs: Vec<SubgraphPortDef>,
}

impl<S> GraphInputWidget<S> {
    /// `shared` is the state created for this node's output channels.
    pub fn new(port_defs: Vec<SubgraphPortDef>, shared: S) -> (r: Self)
        ensures
            r.port_defs@ == port_defs@,
            r.shared == shared,
    {
        GraphInputWidget { shared, port_defs }
    }

    pub fn update_ports(&mut self, port_defs: Vec<SubgraphPortDef>)
        ensures
            final(self).shared == old(self).shared,
            final(self).port_defs@ == port_defs@,
            final(self).shared == old(self).shared,
    {
        self.port_defs = port_defs;
    }

    /// Always the reserved bridge-in id.
    pub fn node_id(&self) -> (r: NodeId)
        ensures
            r == bridge_in_id(),
            r.0 == BRIDGE_IN_RAW,
    {
        NodeId(BRIDGE_IN_RAW)
    }

    /// The node keeps its automatic size on the canvas.
    pub fn resizable(&self) -> (r: bool)
        ensures
            r == false,
    {
        false
    }

    pub fn type_label(&self) -> (r: &'static str)
        ensures
            r@ == "Graph Input"@,
    {
        "Graph Input"
    }

    pub fn ui_inputs(&self) -> (r: Vec<UiPortDef>)
        ensures
            r@.len() == 0,
    {
        Vec::new()
    }

    pub fn ui_outputs(&self) -> (r: Vec<UiPortDef>)
        ensures
            port_views(r@) == sub_port_views(self.port_defs@),
    {
        sub_ui_ports(&self.port_defs)
    }

    pub fn shared_state(&self) -> (r: &S)
        ensures
            *r == self.shared,
    {
        &self.shared
    }
}

/// Inside a subgraph: the node whose inputs feed the subgraph's outputs.
pub struct GraphOutputWidget<S> {
    pub shared: S,
    pub port_defs: Vec<SubgraphPortDef>,
}

impl<S> GraphOutputWidget<S> {
    /// `shared` is the state created for this node's input channels.
    pub fn new(port_defs: Vec<SubgraphPortDef>, shared: S) -> (r: Self)
        ensures
            r.port_defs@ == port_defs@,
            r.shared == shared,
    {
        GraphOutputWidget { shared, port_defs }
    }

    pub fn update_ports(&mut self, port_defs: Vec<SubgraphPortDef>)
        ensures
            final(self).shared == old(self).shared,
            final(self).port_defs@ == port_defs@,
            final(self).shared == old(self).shared,
    {
        self.port_defs = port_defs;
    }

    /// Always the reserved bridge-out id.
    pub fn node_id(&self) -> (r: NodeId)
        ensures
            r == bridge_out_id(),
            r.0 == BRIDGE_OUT_RAW,
    {
        NodeId(BRIDGE_OUT_RAW)
    }

    /// The node keeps its automatic size on the canvas.
    pub fn resizable(&self) -> (r: bool)
        ensures
            r == false,
    {
        false
    }

    pub fn type_label(&self) -> (r: &'static str)
        ensures
            r@ == "Graph Output"@,
    {
        "Graph Output"
    }

    pub fn ui_inputs(&self) -> (r: Vec<UiPortDef>)
        ensures
            port_views(r@) == sub_port_views(self.port_defs@),
    {
        sub_ui_ports(&self.port_defs)
    }

    pub fn ui_outputs(&self) -> (r: Vec<UiPortDef>)
        ensures
            r@.len() == 0,
    {
        Vec::new()
    }

    pub fn shared_state(&self) -> (r: &S)
        ensures
            *r == self.shared,
    {
        &self.shared
    }
}

/// The port definitions describing a node's UI ports (name and type
/// picker position), as handed to the bridge nodes of its inner level.
pub fn defs_from_ports(ports: &Vec<UiPortDef>) -> (r: Vec<SubgraphPortDef>)
    ensures
        r@.len() == ports@.len(),
        forall|i: int| 0 <= i < ports@.len() ==> (#[trigger] r@[i]).name@ == ports@[i].def.name@
            && r@[i].port_type_idx == type_index(ports@[i].def.port_type),
{
    let mut r: Vec<SubgraphPortDef> = Vec::new();
    let mut i: usize = 0;
    while i < ports.len()
        invariant
            i <= ports.len(),
            r@.len() == i,
            forall|k: int| 0 <= k < i ==> (#[trigger] r@[k]).name@ == ports@[k].def.name@
                && r@[k].port_type_idx == type_index(ports@[k].def.port_type),
        decreases ports.len() - i,
    {
        let p = &ports[i];
        r.push(SubgraphPortDef { name: p.def.name.clone(), port_type_idx: port_type_to_idx(p.def.port_type) });
        i += 1;
    }
    r
}

/// The bridge node built from a node's ports shows the same names and
/// types as the node (fill, marker and greying are not carried over).
pub proof fn lemma_bridge_ports_match(ports: Seq<UiPortDef>, defs: Seq<SubgraphPortDef>)
    requires
        defs.len() == ports.len(),
        forall|i: int| 0 <= i < ports.len() ==> (#[trigger] defs[i]).name@ == ports[i].def.name@
            && defs[i].port_type_idx == type_index(ports[i].def.port_type),
    ensures
        sub_port_views(defs) == ports.map_values(|p: UiPortDef| plain_port(p.def.name@, p.def.port_type)),
{
    assert forall|i: int| 0 <= i < ports.len() implies #[trigger] sub_port_views(defs)[i] == plain_port(
        ports[i].def.name@,
        ports[i].def.port_type,
    ) by {
        lemma_type_index_roundtrip(ports[i].def.port_type);
    }
    assert(sub_port_views(defs) =~= ports.map_values(|p: UiPortDef| plain_port(p.def.name@, p.def.port_type)));
}

} // verus!
