//! Portals: named, wireless links between places in a graph. A defining
//! end owns a name and a port list; any number of bound ends follow a name
//! and mirror those ports on the other side.
use vstd::prelude::*;
use vstd::string::StrSliceExecFns;
use crate::ports::{NodeId, PortDef, UiPortDef, port_views, port_type_to_idx, type_index};
use crate::text::decimal_chars;
use crate::subgraph::SubgraphPortDef;
use crate::nodes::Accent;
use crate::nodes::meta::{sub_port_views, sub_ui_ports, add_named_port, UNTYPED_IDX};

verus! {

/// A portal port: a name and a type picker position.
pub type PortalPortDef = SubgraphPortDef;

/// The portal port describing a plain port definition.
pub fn portal_def_from_port_def(d: &PortDef) -> (r: PortalPortDef)
    ensures
        r.name@ == d.name@,
        r.port_type_idx == type_index(d.port_type),
{
    SubgraphPortDef { name: d.name.clone(), port_type_idx: port_type_to_idx(d.port_type) }
}

fn portal_defs_from_port_defs(ds: &Vec<PortDef>) -> (r: Vec<PortalPortDef>)
    ensures
        r@.len() == ds@.len(),
        forall|i: int| 0 <= i < ds@.len() ==> (#[trigger] r@[i]).name@ == ds@[i].name@
            && r@[i].port_type_idx == type_index(ds@[i].port_type),
{
    let mut r: Vec<PortalPortDef> = Vec::new();
    let mut i: usize = 0;
    while i < ds.len()
        invariant
            i <= ds.len(),
            r@.len() == i,
            forall|k: int| 0 <= k < i ==> (#[trigger] r@[k]).name@ == ds@[k].name@
                && r@[k].port_type_idx == type_index(ds@[k].port_type),
        decreases ds.len() - i,
    {
        r.push(portal_def_from_port_def(&ds[i]));
        i += 1;
    }
    r
}

/// Highlight key shared by the ends of one portal: the family's prefix
/// and the name; an unnamed portal belongs to no set.
pub open spec fn portal_key_spec(prefix: Seq<char>, name: Seq<char>) -> Option<Seq<char>> {
    if name.len() == 0 {
        None
    } else {
        Some(prefix + name)
    }
}

fn make_portal_key(prefix: &str, name: &String) -> (r: Option<String>)
    ensures
        match r {
            Some(k) => portal_key_spec(prefix@, name@) == Some(k@),
            None => portal_key_spec(prefix@, name@).is_none(),
        },
{
    if name.as_str().unicode_len() == 0 {
        None
    } else {
        let mut k = String::from_str(prefix);
        k.append(name.as_str());
        Some(k)
    }
}

/// Key prefix of output portals.
pub open spec fn output_key() -> Seq<char> {
    "out:"@
}

/// Key prefix of input portals.
pub open spec fn input_key() -> Seq<char> {
    "in:"@
}

/// The defining end of a portal: a name and the ports it defines.
pub struct DefinedPorts {
    pub name: String,
    pub port_defs: Vec<PortalPortDef>,
}

impl DefinedPorts {
    pub fn new() -> (r: Self)
        ensures
            r.name@ == Seq::<char>::empty(),
            r.port_defs@.len() == 0,
    {
        DefinedPorts { name: String::new(), port_defs: Vec::new() }
    }

    /// "+ Add Port": an untyped port named `prefix` and its 1-based number.
    pub fn add_port(&mut self, prefix: &str)
        requires
            old(self).port_defs@.len() < usize::MAX,
        ensures
            final(self).port_defs@.len() == old(self).port_defs@.len() + 1,
            final(self).port_defs@.take(old(self).port_defs@.len() as int) == old(self).port_defs@,
            final(self).port_defs@.last().name@ == prefix@ + decimal_chars(old(self).port_defs@.len() + 1),
            final(self).port_defs@.last().port_type_idx == UNTYPED_IDX,
            final(self).name@ == old(self).name@,
    {
        let n = self.port_defs.len() + 1;
        add_named_port(&mut self.port_defs, prefix, n);
    }

    pub fn remove_port(&mut self, i: usize)
        requires
            i < old(self).port_defs@.len(),
        ensures
            final(self).port_defs@ == old(self).port_defs@.remove(i as int),
            final(self).name@ == old(self).name@,
    {
        self.port_defs.remove(i);
    }

    /// Restores name and ports from saved data, each when present.
    pub fn restore(&mut self, name: Option<String>, ports: Option<Vec<PortalPortDef>>)
        ensures
            final(self).name@ == (match name {
                Some(n) => n@,
                None => old(self).name@,
            }),
            final(self).port_defs@ == (match ports {
                Some(p) => p@,
                None => old(self).port_defs@,
            }),
    {
        if let Some(n) = name {
            self.name = n;
        }
        if let Some(p) = ports {
            self.port_defs = p;
        }
    }
}

/// The bound end of a portal: the name it follows and the mirrored ports.
pub struct BoundPorts {
    pub bound_name: String,
    pub port_defs: Vec<PortalPortDef>,
    pub connected: bool,
}

/// What a bound portal shows under its title.
#[derive(Clone, Copy, Debug, PartialEq, Eq, Structural)]
pub enum BoundStatus {
    /// No name picked yet.
    Unbound,
    /// A name is picked but nothing publishes it.
    NotConnected,
    Connected,
}

impl BoundPorts {
    pub fn new() -> (r: Self)
        ensures
            r.bound_name@ == Seq::<char>::empty(),
            r.port_defs@.len() == 0,
            !r.connected,
    {
        BoundPorts { bound_name: String::new(), port_defs: Vec::new(), connected: false }
    }

    pub open spec fn status_spec(&self) -> BoundStatus {
        if self.bound_name@.len() == 0 {
            BoundStatus::Unbound
        } else if !self.connected {
            BoundStatus::NotConnected
        } else {
            BoundStatus::Connected
        }
    }

    pub fn status(&self) -> (r: BoundStatus)
        ensures
            r == self.status_spec(),
    {
        if self.bound_name.as_str().unicode_len() == 0 {
            BoundStatus::Unbound
        } else if !self.connected {
            BoundStatus::NotConnected
        } else {
            BoundStatus::Connected
        }
    }

    /// Text of the portal picker: the bound name, or "(none)".
    pub fn picker_text(&self) -> (r: String)
        ensures
            self.bound_name@.len() == 0 ==> r@ == "(none)"@,
            self.bound_name@.len() != 0 ==> r@ == self.bound_name@,
    {
        if self.bound_name.as_str().unicode_len() == 0 {
            String::from_str("(none)")
        } else {
            self.bound_name.clone()
        }
    }

    /// Follow the portal `name` (empty to unbind); returns the name to push.
    pub fn bind(&mut self, name: String) -> (r: String)
        ensures
            final(self).bound_name@ == name@,
            r@ == name@,
            final(self).port_defs@ == old(self).port_defs@,
            final(self).connected == old(self).connected,
    {
        self.bound_name = name.clone();
        name
    }

    /// Takes over the binding reported by the processing side.
    pub fn sync(&mut self, bound_name: String, ports: &Vec<PortDef>, connected: bool)
        ensures
            final(self).bound_name@ == bound_name@,
            final(self).connected == connected,
            final(self).port_defs@.len() == ports@.len(),
            forall|i: int| 0 <= i < ports@.len() ==> (#[trigger] final(self).port_defs@[i]).name@
                == ports@[i].name@ && final(self).port_defs@[i].port_type_idx == type_index(
                ports@[i].port_type,
            ),
    {
        self.bound_name = bound_name;
        self.port_defs = portal_defs_from_port_defs(ports);
        self.connected = connected;
    }

    pub fn restore(&mut self, bound_name: Option<String>, ports: Option<Vec<PortalPortDef>>)
        ensures
            final(self).bound_name@ == (match bound_name {
                Some(n) => n@,
                None => old(self).bound_name@,
            }),
            final(self).port_defs@ == (match ports {
                Some(p) => p@,
                None => old(self).port_defs@,
            }),
            final(self).connected == old(self).connected,
    {
        if let Some(n) = bound_name {
            self.bound_name = n;
        }
        if let Some(p) = ports {
            self.port_defs = p;
        }
    }
}

pub const OUTPUT_PORTAL_TX_DESCRIPTION: &'static str = "Output Portal — sending end. Defines input ports and a name; any number of Output Portal RX nodes bound to this name mirror these ports as outputs.";

pub const OUTPUT_PORTAL_RX_DESCRIPTION: &'static str = "Output Portal — receiving end. Mirrors an Output Portal TX's inputs as outputs. Select which TX to follow by name in the inspector.";

pub const INPUT_PORTAL_RX_DESCRIPTION: &'static str = "Input Portal — receiving end. Defines output ports and a name; the paired Input Portal TX (one per name) provides the values from somewhere else in the graph.";

pub const INPUT_PORTAL_TX_DESCRIPTION: &'static str = "Input Portal — sending end. Mirrors the paired Input Portal RX's output ports as inputs, and feeds whatever you wire into them into that RX.";

/// Sending end of an output portal: defines inputs, broadcast to every
/// receiver bound to its name.
pub struct OutputPortalTxWidget<S> {
    pub id: NodeId,
    pub shared: S,
    pub ports: DefinedPorts,
}

impl<S> OutputPortalTxWidget<S> {
    pub fn new(id: NodeId, shared: S) -> (r: Self)
        ensures
            r.id == id,
            r.shared == shared,
            r.ports.name@ == Seq::<char>::empty(),
            r.ports.port_defs@.len() == 0,
    {
        OutputPortalTxWidget { id, shared, ports: DefinedPorts::new() }
    }

    pub fn node_id(&self) -> (r: NodeId)
        ensures
            r == self.id,
    {
        self.id
    }

    /// The node keeps its automatic size on the canvas.
    pub fn resizable(&self) -> (r: bool)
        ensures
            r == false,
    {
        false
    }

    pub fn type_label(&self) -> (r: &'static str)
        ensures
            r@ == "Output Portal TX"@,
    {
        "Output Portal TX"
    }

    /// Portals carry the warning accent.
    pub fn accent_color(&self) -> (r: Option<Accent>)
        ensures
            r == Some(Accent::Warning),
    {
        Some(Accent::Warning)
    }

    pub fn title(&self) -> (r: &str)
        ensures
            r@ == self.ports.name@,
    {
        self.ports.name.as_str()
    }

    pub fn description(&self) -> (r: &'static str)
        ensures
            r@ == OUTPUT_PORTAL_TX_DESCRIPTION@,
    {
        OUTPUT_PORTAL_TX_DESCRIPTION
    }

    pub fn ui_inputs(&self) -> (r: Vec<UiPortDef>)
        ensures
            port_views(r@) == sub_port_views(self.ports.port_defs@),
    {
        sub_ui_ports(&self.ports.port_defs)
    }

    pub fn ui_outputs(&self) -> (r: Vec<UiPortDef>)
        ensures
            r@.len() == 0,
    {
        Vec::new()
    }

    pub fn portal_key(&self) -> (r: Option<String>)
        ensures
            match r {
                Some(k) => portal_key_spec(output_key(), self.ports.name@) == Some(k@),
                None => portal_key_spec(output_key(), self.ports.name@).is_none(),
            },
    {
        make_portal_key("out:", &self.ports.name)
    }

    pub fn shared_state(&self) -> (r: &S)
        ensures
            *r == self.shared,
    {
        &self.shared
    }

    /// "+ Add Port": an untyped input "in {n}".
    pub fn add_port(&mut self)
        requires
            old(self).ports.port_defs@.len() < usize::MAX,
        ensures
            final(self).shared == old(self).shared,
            final(self).ports.port_defs@.len() == old(self).ports.port_defs@.len() + 1,
            final(self).ports.port_defs@.take(old(self).ports.port_defs@.len() as int)
                == old(self).ports.port_defs@,
            final(self).ports.port_defs@.last().name@ == "in "@ + decimal_chars(
                old(self).ports.port_defs@.len() + 1,
            ),
            final(self).ports.port_defs@.last().port_type_idx == UNTYPED_IDX,
            final(self).ports.name@ == old(self).ports.name@,
            final(self).id == old(self).id,
    {
        self.ports.add_port("in ");
    }
}

/// Receiving end of an output portal: mirrors the sender's inputs as
/// outputs. `R` is the shared registry of published portals.
pub struct OutputPortalRxWidget<R, S> {
    pub id: NodeId,
    pub shared: S,
    pub registry: R,
    pub ports: BoundPorts,
}

impl<R, S> OutputPortalRxWidget<R, S> {
    pub fn new(id: NodeId, shared: S, registry: R) -> (r: Self)
        ensures
            r.id == id,
            r.shared == shared,
            r.registry == registry,
            r.ports.bound_name@ == Seq::<char>::empty(),
            r.ports.port_defs@.len() == 0,
            !r.ports.connected,
    {
        OutputPortalRxWidget { id, shared, registry, ports: BoundPorts::new() }
    }

    pub fn node_id(&self) -> (r: NodeId)
        ensures
            r == self.id,
    {
        self.id
    }

    /// The node keeps its automatic size on the canvas.
    pub fn resizable(&self) -> (r: bool)
        ensures
            r == false,
    {
        false
    }

    pub fn type_label(&self) -> (r: &'static str)
        ensures
            r@ == "Output Portal RX"@,
    {
        "Output Portal RX"
    }

    /// Portals carry the warning accent.
    pub fn accent_color(&self) -> (r: Option<Accent>)
        ensures
            r == Some(Accent::Warning),
    {
        Some(Accent::Warning)
    }

    pub fn title(&self) -> (r: &str)
        ensures
            r@ == self.ports.bound_name@,
    {
        self.ports.bound_name.as_str()
    }

    pub fn description(&self) -> (r: &'static str)
        ensures
            r@ == OUTPUT_PORTAL_RX_DESCRIPTION@,
    {
        OUTPUT_PORTAL_RX_DESCRIPTION
    }

    pub fn ui_inputs(&self) -> (r: Vec<UiPortDef>)
        ensures
            r@.len() == 0,
    {
        Vec::new()
    }

    pub fn ui_outputs(&self) -> (r: Vec<UiPortDef>)
        ensures
            port_views(r@) == sub_port_views(self.ports.port_defs@),
    {
        sub_ui_ports(&self.ports.port_defs)
    }

    pub fn portal_key(&self) -> (r: Option<String>)
        ensures
            match r {
                Some(k) => portal_key_spec(output_key(), self.ports.bound_name@) == Some(k@),
                None => portal_key_spec(output_key(), self.ports.bound_name@).is_none(),
            },
    {
        make_portal_key("out:", &self.ports.bound_name)
    }

    pub fn shared_state(&self) -> (r: &S)
        ensures
            *r == self.shared,
    {
        &self.shared
    }
}

/// Receiving end of an input portal: defines outputs, fed by its one sender.
pub struct InputPortalRxWidget<S> {
    pub id: NodeId,
    pub shared: S,
    pub ports: DefinedPorts,
}

impl<S> InputPortalRxWidget<S> {
    pub fn new(id: NodeId, shared: S) -> (r: Self)
        ensures
            r.id == id,
            r.shared == shared,
            r.ports.name@ == Seq::<char>::empty(),
            r.ports.port_defs@.len() == 0,
    {
        InputPortalRxWidget { id, shared, ports: DefinedPorts::new() }
    }

    pub fn node_id(&self) -> (r: NodeId)
        ensures
            r == self.id,
    {
        self.id
    }

    /// The node keeps its automatic size on the canvas.
    pub fn resizable(&self) -> (r: bool)
        ensures
            r == false,
    {
        false
    }

    pub fn type_label(&self) -> (r: &'static str)
        ensures
            r@ == "Input Portal RX"@,
    {
        "Input Portal RX"
    }

    /// Portals carry the warning accent.
    pub fn accent_color(&self) -> (r: Option<Accent>)
        ensures
            r == Some(Accent::Warning),
    {
        Some(Accent::Warning)
    }

    pub fn title(&self) -> (r: &str)
        ensures
            r@ == self.ports.name@,
    {
        self.ports.name.as_str()
    }

    pub fn description(&self) -> (r: &'static str)
        ensures
            r@ == INPUT_PORTAL_RX_DESCRIPTION@,
    {
        INPUT_PORTAL_RX_DESCRIPTION
    }

    pub fn ui_inputs(&self) -> (r: Vec<UiPortDef>)
        ensures
            r@.len() == 0,
    {
        Vec::new()
    }

    pub fn ui_outputs(&self) -> (r: Vec<UiPortDef>)
        ensures
            port_views(r@) == sub_port_views(self.ports.port_defs@),
    {
        sub_ui_ports(&self.ports.port_defs)
    }

    pub fn portal_key(&self) -> (r: Option<String>)
        ensures
            match r {
                Some(k) => portal_key_spec(input_key(), self.ports.name@) == Some(k@),
                None => portal_key_spec(input_key(), self.ports.name@).is_none(),
            },
    {
        make_portal_key("in:", &self.ports.name)
    }

    pub fn shared_state(&self) -> (r: &S)
        ensures
            *r == self.shared,
    {
        &self.shared
    }

    /// "+ Add Port": an untyped output "out {n}".
    pub fn add_port(&mut self)
        requires
            old(self).ports.port_defs@.len() < usize::MAX,
        ensures
            final(self).shared == old(self).shared,
            final(self).ports.port_defs@.len() == old(self).ports.port_defs@.len() + 1,
            final(self).ports.port_defs@.take(old(self).ports.port_defs@.len() as int)
                == old(self).ports.port_defs@,
            final(self).ports.port_defs@.last().name@ == "out "@ + decimal_chars(
                old(self).ports.port_defs@.len() + 1,
            ),
            final(self).ports.port_defs@.last().port_type_idx == UNTYPED_IDX,
            final(self).ports.name@ == old(self).ports.name@,
            final(self).id == old(self).id,
    {
        self.ports.add_port("out ");
    }
}

/// Sending end of an input portal: mirrors its receiver's outputs as
/// inputs. `R` is the shared registry of published portals.
pub struct InputPortalTxWidget<R, S> {
    pub id: NodeId,
    pub shared: S,
    pub registry: R,
    pub ports: BoundPorts,
}

impl<R, S> InputPortalTxWidget<R, S> {
    pub fn new(id: NodeId, shared: S, registry: R) -> (r: Self)
        ensures
            r.id == id,
            r.shared == shared,
            r.registry == registry,
            r.ports.bound_name@ == Seq::<char>::empty(),
            r.ports.port_defs@.len() == 0,
            !r.ports.connected,
    {
        InputPortalTxWidget { id, shared, registry, ports: BoundPorts::new() }
    }

    pub fn node_id(&self) -> (r: NodeId)
        ensures
            r == self.id,
    {
        self.id
    }

    /// The node keeps its automatic size on the canvas.
    pub fn resizable(&self) -> (r: bool)
        ensures
            r == false,
    {
        false
    }

    pub fn type_label(&self) -> (r: &'static str)
        ensures
            r@ == "Input Portal TX"@,
    {
        "Input Portal TX"
    }

    /// Portals carry the warning accent.
    pub fn accent_color(&self) -> (r: Option<Accent>)
        ensures
            r == Some(Accent::Warning),
    {
        Some(Accent::Warning)
    }

    pub fn title(&self) -> (r: &str)
        ensures
            r@ == self.ports.bound_name@,
    {
        self.ports.bound_name.as_str()
    }

    pub fn description(&self) -> (r: &'static str)
        ensures
            r@ == INPUT_PORTAL_TX_DESCRIPTION@,
    {
        INPUT_PORTAL_TX_DESCRIPTION
    }

    pub fn ui_inputs(&self) -> (r: Vec<UiPortDef>)
        ensures
            port_views(r@) == sub_port_views(self.ports.port_defs@),
    {
        sub_ui_ports(&self.ports.port_defs)
    }

    pub fn ui_outputs(&self) -> (r: Vec<UiPortDef>)
        ensures
            r@.len() == 0,
    {
        Vec::new()
    }

    pub fn portal_key(&self) -> (r: Option<String>)
        ensures
            match r {
                Some(k) => portal_key_spec(input_key(), self.ports.bound_name@) == Some(k@),
                None => portal_key_spec(input_key(), self.ports.bound_name@).is_none(),
            },
    {
        make_portal_key("in:", &self.ports.bound_name)
    }

    pub fn shared_state(&self) -> (r: &S)
        ensures
            *r == self.shared,
    {
        &self.shared
    }
}

/// The two ends of a named portal share one highlight key, and the two
/// families never share keys.
pub proof fn lemma_portal_keys(a: Seq<char>, b: Seq<char>)
    requires
        a.len() > 0,
        b.len() > 0,
    ensures
        portal_key_spec(output_key(), a) is Some,
        portal_key_spec(output_key(), a) != portal_key_spec(input_key(), b),
{
    reveal_strlit("out:");
    reveal_strlit("in:");
    let ka = output_key() + a;
    let kb = input_key() + b;
    assert(ka[0] == 'o');
    assert(kb[0] == 'i');
}

} // verus!
